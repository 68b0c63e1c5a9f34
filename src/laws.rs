//! Properties that hold across operations of the store.

use vstd::prelude::*;

use crate::db::{has_running_rid, project_deleted, timer_edited, timer_recorded, timer_stopped, Db};
use crate::links::{first_owner, link_kept, with_link, with_links};
use crate::models::project::project_inserted;
use crate::models::tag::{
    ids_of_tags, lemma_tags_named_member, tags_batch_inserted, tags_named, Tag,
};
use crate::models::timer::{
    has_rid, has_timer_id, history_of, next_timer_id, CreateTimer, is_finished, is_running, rids_unique, running_of,
    timers_of_owner, with_times, finished_of, Timer,
};
use crate::table::{has_name, id_of_name, lemma_named_once, named_once, NamedRow};

verus! {

/// Inserting one project name twice leaves exactly one project with that
/// name, and looking it up after either insert gives the same id.
pub proof fn law_insert_project_twice(db0: Db, db1: Db, db2: Db, name: Seq<char>)
    requires
        db0.wf(),
        db1.wf(),
        db2.wf(),
        project_inserted(db1, db0, name),
        project_inserted(db2, db1, name),
    ensures
        named_once(db2.projects@, name),
        id_of_name(db1.projects@, name) == id_of_name(db2.projects@, name),
{
    if !has_name(db0.projects@, name) {
        let last = db1.projects@.len() - 1;
        assert(db1.projects@[last].row_name() == name);
    }
    assert(has_name(db1.projects@, name));
    assert(db2.projects@ == db1.projects@);
    lemma_named_once(db2.projects@, name);
}

/// Every timer that a link table yields is a timer of the table.
pub proof fn lemma_timers_of_owner_member(timers: Seq<Timer>, links: Seq<(i32, i32)>, owner: i32, k: int)
    requires
        0 <= k < timers_of_owner(timers, links, owner).len(),
    ensures
        timers.contains(timers_of_owner(timers, links, owner)[k]),
    decreases links.len(),
{
    let rest = timers_of_owner(timers, links.drop_last(), owner);
    if k < rest.len() {
        lemma_timers_of_owner_member(timers, links.drop_last(), owner, k);
    } else {
        let l = links.last();
        let i = choose|i: int| 0 <= i < timers.len() && timers[i].id == l.1;
        assert(timers_of_owner(timers, links, owner)[k] == timers[i]);
    }
}

/// Deleting a project, once confirmed, removes its row and every link to
/// it, and keeps every timer; each timer that was linked to it is still
/// found by its rid.
pub proof fn law_delete_project_keeps_timers(db0: Db, db1: Db, name: Seq<char>)
    requires
        db0.wf(),
        has_name(db0.projects@, name),
        project_deleted(db1, db0, name),
    ensures
        !has_name(db1.projects@, name),
        forall|k: int|
            0 <= k < db1.projects_timers@.len() ==> (#[trigger] db1.projects_timers@[k]).0 != id_of_name(
                db0.projects@,
                name,
            ),
        db1.timers@ == db0.timers@,
        forall|t: Timer|
            #[trigger] timers_of_owner(db0.timers@, db0.projects_timers@, id_of_name(db0.projects@, name)).contains(t)
                ==> has_rid(db1.timers@, t.rid@),
{
    broadcast use vstd::seq_lib::group_filter_ensures;

    let id = id_of_name(db0.projects@, name);
    let i = choose|i: int|
        0 <= i < db0.projects@.len() && db0.projects@[i].name@ == name && db1.projects@
            == db0.projects@.remove(i);
    db0.projects@.remove_ensures(i);
    if has_name(db1.projects@, name) {
        let j = choose|j: int| 0 <= j < db1.projects@.len() && db1.projects@[j].row_name() == name;
        let j0 = if j < i { j } else { j + 1 };
        assert(db1.projects@[j] == db0.projects@[j0]);
        assert(db0.projects@[j0].row_name() != db0.projects@[i].row_name());
    }
    assert forall|k: int| 0 <= k < db1.projects_timers@.len() implies (#[trigger] db1.projects_timers@[k]).0 != id by {
        let f = |l: (i32, i32)| link_kept(l, id, true);
        assert(f(db0.projects_timers@.filter(f)[k]));
    }
    assert forall|t: Timer|
        #[trigger] timers_of_owner(db0.timers@, db0.projects_timers@, id).contains(t) implies has_rid(db1.timers@, t.rid@) by {
        let linked = timers_of_owner(db0.timers@, db0.projects_timers@, id);
        let k = choose|k: int| 0 <= k < linked.len() && linked[k] == t;
        lemma_timers_of_owner_member(db0.timers@, db0.projects_timers@, id, k);
        let w = choose|w: int| 0 <= w < db0.timers@.len() && db0.timers@[w] == t;
        assert(db1.timers@[w].rid@ == t.rid@);
    }
}

/// After a batch of tag names goes in, each listed name has exactly one
/// tag, however often the list repeats it.
pub proof fn law_batch_insert_unique(db0: Db, db1: Db, names: Seq<Seq<char>>, ids: Seq<i32>)
    requires
        db1.wf(),
        tags_batch_inserted(db1, db0, names, ids),
    ensures
        forall|j: int| 0 <= j < names.len() ==> named_once(db1.tags@, #[trigger] names[j]),
{
    assert forall|j: int| 0 <= j < names.len() implies named_once(db1.tags@, #[trigger] names[j]) by {
        lemma_named_once(db1.tags@, names[j]);
    }
}

/// A history asked for with a limit holds at most that many timers, and
/// only finished ones.
pub proof fn law_history_bounded(timers: Seq<Timer>, limit: int)
    requires
        limit >= 0,
    ensures
        history_of(timers, limit).len() <= limit,
        forall|k: int| 0 <= k < history_of(timers, limit).len() ==> (#[trigger] history_of(timers, limit)[k]).end is Some,
{
    broadcast use vstd::seq_lib::group_filter_ensures;

    let f = |t: Timer| is_finished(t);
    assert forall|k: int| 0 <= k < history_of(timers, limit).len() implies (#[trigger] history_of(
        timers,
        limit,
    )[k]).end is Some by {
        assert(finished_of(timers)[k] == history_of(timers, limit)[k]);
        assert(f(timers.filter(f)[k]));
    }
}

/// Stopping a running timer at a time not before its start ends it at that
/// time, so its end is not before its start, and it is then no longer among
/// the running timers.
pub proof fn law_stop_ends_timer(old: Seq<Timer>, new: Seq<Timer>, rid: Seq<char>, now: i64)
    requires
        rids_unique(old),
        has_running_rid(old, rid),
        timer_stopped(new, old, rid, now),
        forall|i: int| 0 <= i < old.len() && old[i].rid@ == rid ==> old[i].start <= now,
    ensures
        forall|u: Timer|
            new.contains(u) && u.rid@ == rid ==> u.end == Some(now) && u.start <= now,
        forall|k: int| 0 <= k < running_of(new).len() ==> (#[trigger] running_of(new)[k]).rid@ != rid,
{
    broadcast use vstd::seq_lib::group_filter_ensures;

    let i = choose|i: int|
        0 <= i < old.len() && old[i].rid@ == rid && is_running(old[i]) && new == old.update(
            i,
            crate::models::timer::stopped_at(old[i], now),
        );
    assert forall|u: Timer| new.contains(u) && u.rid@ == rid implies u.end == Some(now) && u.start <= now by {
        let j = choose|j: int| 0 <= j < new.len() && new[j] == u;
        if j != i {
            assert(old[j].rid@ != old[i].rid@);
        }
    }
    assert forall|k: int| 0 <= k < running_of(new).len() implies (#[trigger] running_of(new)[k]).rid@ != rid by {
        let f = |t: Timer| is_running(t);
        let u = new.filter(f)[k];
        assert(f(u));
        assert(new.filter(f).contains(u));
        new.lemma_filter_contains_rev(f, u);
        let j = choose|j: int| 0 <= j < new.len() && new[j] == u;
        if j != i {
            assert(old[j].rid@ != old[i].rid@);
        }
    }
}

/// Editing the start, end and note of a timer as fetched by its rid keeps
/// its id and rid, and a later lookup by the rid sees the edit.
pub proof fn law_edit_round_trip(old: Seq<Timer>, new: Seq<Timer>, rid: Seq<char>, fetched: Timer, edited: Timer)
    requires
        rids_unique(old),
        old.contains(fetched),
        fetched.rid@ == rid,
        edited.id == fetched.id,
        edited.rid == fetched.rid,
        timer_edited(new, old, rid, edited),
    ensures
        has_rid(new, rid),
        forall|u: Timer|
            new.contains(u) && u.rid@ == rid ==> u.id == fetched.id && u.rid == fetched.rid && u.start
                == edited.start && u.end == edited.end && u.note == edited.note,
{
    let i = choose|i: int| 0 <= i < old.len() && old[i].rid@ == rid && new == old.update(i, with_times(old[i], edited));
    let w = choose|w: int| 0 <= w < old.len() && old[w] == fetched;
    if w != i {
        assert(old[w].rid@ != old[i].rid@);
    }
    assert(new[i].rid@ == rid);
    assert forall|u: Timer| new.contains(u) && u.rid@ == rid implies u.id == fetched.id && u.rid == fetched.rid
        && u.start == edited.start && u.end == edited.end && u.note == edited.note by {
        let j = choose|j: int| 0 <= j < new.len() && new[j] == u;
        if j != i {
            assert(old[j].rid@ != old[i].rid@);
        }
    }
}

proof fn lemma_first_owner_none(links: Seq<(i32, i32)>, timer_id: i32)
    requires
        forall|k: int| 0 <= k < links.len() ==> (#[trigger] links[k]).1 != timer_id,
    ensures
        first_owner(links, timer_id) is None,
    decreases links.len(),
{
    if links.len() > 0 {
        assert forall|k: int| 0 <= k < links.drop_first().len() implies (#[trigger] links.drop_first()[k]).1
            != timer_id by {
            assert(links.drop_first()[k] == links[k + 1]);
        }
        lemma_first_owner_none(links.drop_first(), timer_id);
    }
}

proof fn lemma_first_owner_push(links: Seq<(i32, i32)>, l: (i32, i32))
    requires
        first_owner(links, l.1) is None,
    ensures
        first_owner(links.push(l), l.1) == Some(l.0),
    decreases links.len(),
{
    if links.len() > 0 {
        assert(links.push(l).drop_first() =~= links.drop_first().push(l));
        lemma_first_owner_push(links.drop_first(), l);
    }
}

proof fn lemma_with_links_contains(links: Seq<(i32, i32)>, owners: Seq<i32>, timer_id: i32, x: i32)
    ensures
        with_links(links, owners, timer_id).contains((x, timer_id)) <==> links.contains((x, timer_id))
            || owners.contains(x),
    decreases owners.len(),
{
    if owners.len() > 0 {
        let rest = owners.drop_last();
        lemma_with_links_contains(links, rest, timer_id, x);
        let before = with_links(links, rest, timer_id);
        let l = (owners.last(), timer_id);
        if owners.contains(x) && !rest.contains(x) {
            let k = choose|k: int| 0 <= k < owners.len() && owners[k] == x;
            if k < rest.len() {
                assert(rest[k] == x);
            }
            assert(with_link(before, l).contains(l)) by {
                if !before.contains(l) {
                    assert(before.push(l)[before.len() as int] == l);
                }
            }
        }
        if rest.contains(x) {
            let k = choose|k: int| 0 <= k < rest.len() && rest[k] == x;
            assert(owners[k] == x);
        }
        if with_link(before, l).contains((x, timer_id)) && !before.contains((x, timer_id)) {
            let k = choose|k: int| 0 <= k < before.push(l).len() && before.push(l)[k] == (x, timer_id);
            assert(owners[owners.len() - 1] == x);
        }
        if before.contains((x, timer_id)) && !before.contains(l) {
            let k = choose|k: int| 0 <= k < before.len() && before[k] == (x, timer_id);
            assert(before.push(l)[k] == (x, timer_id));
        }
    }
}

/// A link to the timer with a given owner comes from the tag list exactly
/// when a tag so named has that owner's id.
proof fn lemma_ids_of_named(tags: Seq<Tag>, names: Seq<Seq<char>>, x: i32)
    ensures
        ids_of_tags(tags_named(tags, names)).contains(x) <==> exists|k: int|
            0 <= k < tags.len() && tags[k].id == x && names.contains(tags[k].name@),
{
    broadcast use vstd::seq_lib::group_filter_ensures;

    let named = tags_named(tags, names);
    let ids = ids_of_tags(named);
    if ids.contains(x) {
        let m = choose|m: int| 0 <= m < ids.len() && ids[m] == x;
        lemma_tags_named_member(tags, names, m);
        let k = choose|k: int| 0 <= k < tags.len() && tags[k] == named[m];
        assert(tags[k].id == x && names.contains(tags[k].name@));
    }
    if exists|k: int| 0 <= k < tags.len() && tags[k].id == x && names.contains(tags[k].name@) {
        let k = choose|k: int| 0 <= k < tags.len() && tags[k].id == x && names.contains(tags[k].name@);
        let f = |t: Tag| names.contains(t.name@);
        assert(f(tags[k]));
        assert(tags.filter(f).contains(tags[k]));
        let m = choose|m: int| 0 <= m < named.len() && named[m] == tags[k];
        assert(ids[m] == x);
    }
}

/// Starting a timer for a project with a list of tag names, where no timer
/// runs, leaves exactly one running timer: the new one. Its first project
/// link names the project with that name, and it is linked to exactly the
/// tags whose names are listed.
pub proof fn law_start_then_running(db0: Db, db1: Db, project: Seq<char>, names: Seq<Seq<char>>, ct: CreateTimer)
    requires
        db0.wf(),
        db1.wf(),
        running_of(db0.timers@).len() == 0,
        ct.end is None,
        timer_recorded(db1, db0, project, names, ct),
    ensures
        ({
            let tid = next_timer_id(db0.timers@) as i32;
            &&& running_of(db1.timers@) == seq![ct.row(tid)]
            &&& has_name(db1.projects@, project)
            &&& first_owner(db1.projects_timers@, tid) == Some(id_of_name(db1.projects@, project))
            &&& forall|x: i32|
                #[trigger] db1.tags_timers@.contains((x, tid)) <==> exists|k: int|
                    0 <= k < db1.tags@.len() && db1.tags@[k].id == x && names.contains(db1.tags@[k].name@)
        }),
{
    let tid = next_timer_id(db0.timers@) as i32;
    let row = ct.row(tid);
    let f = |t: Timer| is_running(t);
    db0.timers@.lemma_filter_push(row, f);
    assert(running_of(db0.timers@) =~= Seq::<Timer>::empty());
    assert(running_of(db1.timers@) =~= seq![row]);
    assert(forall|i: int| 0 <= i < db0.timers@.len() ==> db0.timers@[i].id < tid) by {
        assert forall|i: int| 0 <= i < db0.timers@.len() implies db0.timers@[i].id < tid by {
            let n = db0.timers@.len() - 1;
            if i < n {
                assert(db0.timers@[i].id < db0.timers@[n].id);
            }
        }
    }
    assert(!has_timer_id(db0.timers@, tid));
    assert forall|k: int| 0 <= k < db0.projects_timers@.len() implies (#[trigger] db0.projects_timers@[k]).1 != tid by {
        assert(has_timer_id(db0.timers@, db0.projects_timers@[k].1));
    }
    let pid = id_of_name(db1.projects@, project);
    lemma_first_owner_none(db0.projects_timers@, tid);
    assert(!db0.projects_timers@.contains((pid, tid)));
    lemma_first_owner_push(db0.projects_timers@, (pid, tid));
    let ids = ids_of_tags(tags_named(db1.tags@, names));
    assert forall|x: i32| #[trigger] db1.tags_timers@.contains((x, tid)) <==> exists|k: int|
        0 <= k < db1.tags@.len() && db1.tags@[k].id == x && names.contains(db1.tags@[k].name@) by {
        lemma_with_links_contains(db0.tags_timers@, ids, tid, x);
        lemma_ids_of_named(db1.tags@, names, x);
        if db0.tags_timers@.contains((x, tid)) {
            let k = choose|k: int| 0 <= k < db0.tags_timers@.len() && db0.tags_timers@[k] == (x, tid);
            assert(has_timer_id(db0.timers@, db0.tags_timers@[k].1));
        }
    }
}

} // verus!
