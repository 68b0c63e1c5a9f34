//! The store and the operations that change it.

use vstd::prelude::*;

use crate::errors::{fails_with, AppError, AppResult, ErrorKind};
use crate::links::{
    add_link, add_links, first_owner, lemma_first_owner_link, keeps_timer_ids, lemma_keeps_ids_prefix,
    lemma_keeps_timer_ids_prefix, lemma_links_after_owner_removed, lemma_links_after_timer_removed,
    lemma_links_valid_keep, lemma_with_link_valid, lemma_with_links_valid, links_valid, links_without,
    with_link, with_links, without_links,
};
use crate::models::project::Project;
use crate::models::tag::{ids_of_tags, lemma_tags_named_member, names_of_tags, tags_named, Tag, Tags};
use crate::models::timer::{
    all_stopped, find_timer_id, find_timer_rid, has_rid, lemma_timer_removed, has_timer_id, is_fresh_rid, is_running,
    next_timer_id, rids_of, rids_unique, running_of, stopped_at, timer_ids_ascending,
    timers_of_owner, with_times, CreateTimer, Timer, Timers,
};
use crate::table::{
    appended, check_table, find_id, find_name, has_id, has_name, id_of_name, lemma_id_of_name,
    next_id, remove_row, rows_of_timer, table_wf, NamedRow,
};
use crate::utils::{join_commas, join_names, parse_tags, split_commas, string_views};

verus! {

/// The whole store: three tables of rows and two link tables, each link a
/// pair of an owner's id (a project's or a tag's) and a timer's id. Rows are
/// read freely; the operations below keep the rules of `wf` when they write.
#[derive(Debug)]
pub struct Db {
    pub projects: Vec<Project>,
    pub tags: Vec<Tag>,
    pub timers: Vec<Timer>,
    pub projects_timers: Vec<(i32, i32)>,
    pub tags_timers: Vec<(i32, i32)>,
}

impl Db {
    /// The store's rules: ids grow row by row in each table, project and tag
    /// names are unique, timer rids are unique, no link occurs twice, and each
    /// link names rows that exist.
    pub open spec fn wf(&self) -> bool {
        &&& table_wf(self.projects@)
        &&& table_wf(self.tags@)
        &&& timer_ids_ascending(self.timers@)
        &&& rids_unique(self.timers@)
        &&& self.projects_timers@.no_duplicates()
        &&& self.tags_timers@.no_duplicates()
        &&& links_valid(self.projects_timers@, self.projects@, self.timers@)
        &&& links_valid(self.tags_timers@, self.tags@, self.timers@)
    }

    /// Every table holds the same rows as in `other`.
    pub open spec fn same_as(&self, other: Db) -> bool {
        &&& self.projects@ == other.projects@
        &&& self.same_but_projects(other)
    }

    /// Every table but the projects holds the same rows as in `other`.
    pub open spec fn same_but_projects(&self, other: Db) -> bool {
        &&& self.tags@ == other.tags@
        &&& self.timers@ == other.timers@
        &&& self.projects_timers@ == other.projects_timers@
        &&& self.tags_timers@ == other.tags_timers@
    }

    /// Every table but the tags holds the same rows as in `other`.
    pub open spec fn same_but_tags(&self, other: Db) -> bool {
        &&& self.projects@ == other.projects@
        &&& self.timers@ == other.timers@
        &&& self.projects_timers@ == other.projects_timers@
        &&& self.tags_timers@ == other.tags_timers@
    }

    /// Every table but the timers holds the same rows as in `other`.
    pub open spec fn same_but_timers(&self, other: Db) -> bool {
        &&& self.projects@ == other.projects@
        &&& self.tags@ == other.tags@
        &&& self.projects_timers@ == other.projects_timers@
        &&& self.tags_timers@ == other.tags_timers@
    }

    /// An empty store.
    pub fn new() -> (r: Db)
        ensures
            r.wf(),
            r.projects@.len() == 0,
            r.tags@.len() == 0,
            r.timers@.len() == 0,
            r.projects_timers@.len() == 0,
            r.tags_timers@.len() == 0,
    {
        Db {
            projects: Vec::new(),
            tags: Vec::new(),
            timers: Vec::new(),
            projects_timers: Vec::new(),
            tags_timers: Vec::new(),
        }
    }
}

impl Db {
    /// A store with the same rows as a well-formed one is well formed.
    pub proof fn lemma_wf_same(new: Db, old: Db)
        requires
            old.wf(),
            new.same_as(old),
        ensures
            new.wf(),
    {
    }

    /// A store whose timer table changed, keeping every id it had, is still
    /// well formed.
    pub proof fn lemma_wf_timers_grown(new: Db, old: Db)
        requires
            old.wf(),
            timer_ids_ascending(new.timers@),
            rids_unique(new.timers@),
            new.same_but_timers(old),
            keeps_timer_ids(new.timers@, old.timers@),
        ensures
            new.wf(),
    {
        lemma_links_valid_keep(old.projects_timers@, old.projects@, new.projects@, old.timers@, new.timers@);
        lemma_links_valid_keep(old.tags_timers@, old.tags@, new.tags@, old.timers@, new.timers@);
    }
}

/// Deletes the timer with this rid and every link to it, in both link
/// tables. Fails with `NotFound` where no timer has the rid.
pub fn delete_timer(db: &mut Db, rid: &str) -> (r: AppResult<()>)
    requires
        old(db).wf(),
    ensures
        final(db).wf(),
        !has_rid(old(db).timers@, rid@) ==> fails_with(r, ErrorKind::NotFound) && final(db).same_as(*old(db)),
        has_rid(old(db).timers@, rid@) ==> r is Ok && exists|i: int|
            0 <= i < old(db).timers@.len() && old(db).timers@[i].rid@ == rid@ && {
                let id = old(db).timers@[i].id;
                &&& final(db).timers@ == old(db).timers@.remove(i)
                &&& final(db).projects_timers@ == links_without(old(db).projects_timers@, id, false)
                &&& final(db).tags_timers@ == links_without(old(db).tags_timers@, id, false)
                &&& final(db).projects@ == old(db).projects@
                &&& final(db).tags@ == old(db).tags@
            },
{
    let rid = rid.to_string();
    let i = match find_timer_rid(&db.timers, &rid) {
        None => return Err(AppError(ErrorKind::NotFound)),
        Some(i) => i,
    };
    let id = db.timers[i].id;
    db.projects_timers = without_links(&db.projects_timers, id, false);
    db.tags_timers = without_links(&db.tags_timers, id, false);
    let ghost before = db.timers@;
    db.timers.remove(i);
    proof {
        before.remove_ensures(i as int);
        lemma_links_after_timer_removed(db.projects_timers@, old(db).projects_timers@, db.projects@, before, i as int);
        lemma_links_after_timer_removed(db.tags_timers@, old(db).tags_timers@, db.tags@, before, i as int);
        lemma_timer_removed(before, i as int);
    }
    Ok(())
}

/// What deleting a project does: its row and its links go; the timers,
/// the tags and their links stay.
pub open spec fn project_deleted(new: Db, old: Db, name: Seq<char>) -> bool {
    let id = id_of_name(old.projects@, name);
    &&& exists|i: int|
        0 <= i < old.projects@.len() && old.projects@[i].name@ == name && new.projects@
            == old.projects@.remove(i)
    &&& new.projects_timers@ == links_without(old.projects_timers@, id, true)
    &&& new.timers@ == old.timers@
    &&& new.tags@ == old.tags@
    &&& new.tags_timers@ == old.tags_timers@
}

/// Deletes the project with this name and its links; its timers stay. Where
/// timers are linked to it and `confirmed` does not hold, nothing happens.
/// Fails with `NotFound` where no project has the name.
pub fn delete_project(db: &mut Db, name: &str, confirmed: bool) -> (r: AppResult<()>)
    requires
        old(db).wf(),
    ensures
        final(db).wf(),
        !has_name(old(db).projects@, name@) ==> fails_with(r, ErrorKind::NotFound) && final(db).same_as(*old(db)),
        has_name(old(db).projects@, name@) ==> r is Ok && {
            let id = id_of_name(old(db).projects@, name@);
            let linked = timers_of_owner(old(db).timers@, old(db).projects_timers@, id);
            if linked.len() > 0 && !confirmed {
                final(db).same_as(*old(db))
            } else {
                project_deleted(*final(db), *old(db), name@)
            }
        },
{
    let key = name.to_string();
    let i = match find_name(&db.projects, &key) {
        None => return Err(AppError(ErrorKind::NotFound)),
        Some(i) => i,
    };
    proof {
        lemma_id_of_name(db.projects@, i as int);
    }
    let id = db.projects[i].id;
    let timers = Timers::for_project(db, id)?;
    if timers.len() > 0 && !confirmed {
        return Ok(());
    }
    db.projects_timers = without_links(&db.projects_timers, id, true);
    remove_row(&mut db.projects, i);
    proof {
        lemma_links_after_owner_removed(
            db.projects_timers@,
            old(db).projects_timers@,
            old(db).projects@,
            db.timers@,
            i as int,
        );
    }
    Ok(())
}

/// Deletes the tag with this name and its links; its timers stay. Where
/// timers are linked to it and `confirmed` does not hold, nothing happens.
/// Fails with `NotFound` where no tag has the name.
pub fn delete_tag(db: &mut Db, name: &str, confirmed: bool) -> (r: AppResult<()>)
    requires
        old(db).wf(),
    ensures
        final(db).wf(),
        !has_name(old(db).tags@, name@) ==> fails_with(r, ErrorKind::NotFound) && final(db).same_as(*old(db)),
        has_name(old(db).tags@, name@) ==> r is Ok && {
            let id = id_of_name(old(db).tags@, name@);
            let linked = timers_of_owner(old(db).timers@, old(db).tags_timers@, id);
            if linked.len() > 0 && !confirmed {
                final(db).same_as(*old(db))
            } else {
                &&& exists|i: int|
                    0 <= i < old(db).tags@.len() && old(db).tags@[i].name@ == name@
                        && final(db).tags@ == old(db).tags@.remove(i)
                &&& final(db).tags_timers@ == links_without(old(db).tags_timers@, id, true)
                &&& final(db).timers@ == old(db).timers@
                &&& final(db).projects@ == old(db).projects@
                &&& final(db).projects_timers@ == old(db).projects_timers@
            }
        },
{
    let key = name.to_string();
    let i = match find_name(&db.tags, &key) {
        None => return Err(AppError(ErrorKind::NotFound)),
        Some(i) => i,
    };
    proof {
        lemma_id_of_name(db.tags@, i as int);
    }
    let id = db.tags[i].id;
    let timers = Timers::for_tag(db, id)?;
    if timers.len() > 0 && !confirmed {
        return Ok(());
    }
    db.tags_timers = without_links(&db.tags_timers, id, true);
    remove_row(&mut db.tags, i);
    proof {
        lemma_links_after_owner_removed(db.tags_timers@, old(db).tags_timers@, old(db).tags@, db.timers@, i as int);
    }
    Ok(())
}

/// The names that a comma-separated tag list gives; none without a list.
pub open spec fn tag_names(tag_str: Option<&str>) -> Seq<Seq<char>> {
    match tag_str {
        Some(s) => split_commas(s@),
        None => Seq::empty(),
    }
}

/// What recording a timer does: the timer is added at the end under the
/// next id; the project and the tags are created where missing; the timer
/// is linked to the project and to each named tag.
pub open spec fn timer_recorded(new: Db, old: Db, project: Seq<char>, names: Seq<Seq<char>>, ct: CreateTimer) -> bool {
    let tid = next_timer_id(old.timers@) as i32;
    &&& !has_rid(old.timers@, ct.rid@)
    &&& next_timer_id(old.timers@) <= i32::MAX
    &&& new.timers@ == old.timers@.push(ct.row(tid))
    &&& has_name(old.projects@, project) ==> new.projects@ == old.projects@
    &&& !has_name(old.projects@, project) ==> appended(new.projects@, old.projects@, next_id(old.projects@), project)
    &&& has_name(new.projects@, project)
    &&& new.projects_timers@ == with_link(old.projects_timers@, (id_of_name(new.projects@, project), tid))
    &&& new.tags@.len() >= old.tags@.len()
    &&& new.tags@.take(old.tags@.len() as int) == old.tags@
    &&& forall|k: int|
        old.tags@.len() <= k < new.tags@.len() ==> names.contains(#[trigger] new.tags@[k].name@)
            && !has_name(old.tags@, new.tags@[k].name@)
    &&& forall|j: int| 0 <= j < names.len() ==> has_name(new.tags@, #[trigger] names[j])
    &&& new.tags_timers@ == with_links(old.tags_timers@, ids_of_tags(tags_named(new.tags@, names)), tid)
}

/// Starts or records a timer as one unit: makes sure the project and the
/// listed tags exist, stores the timer, and links it to the project and to
/// each tag. Fails with `Conflict`, before writing anything, where a timer
/// already has this rid, and with `Storage` where ids run out; after a
/// failure the store is as it was.
pub fn handle_inserts(
    db: &mut Db,
    project: &str,
    tag_str: Option<&str>,
    create_timer: &CreateTimer,
) -> (r: AppResult<()>)
    requires
        old(db).wf(),
    ensures
        final(db).wf(),
        has_rid(old(db).timers@, create_timer.rid@) ==> fails_with(r, ErrorKind::Conflict),
        r is Err ==> final(db).same_as(*old(db)),
        r is Err ==> fails_with(r, ErrorKind::Conflict) || fails_with(r, ErrorKind::Storage),
        !has_rid(old(db).timers@, create_timer.rid@) && next_id(old(db).projects@) <= i32::MAX && next_id(old(db).tags@)
            + tag_names(tag_str).len() <= i32::MAX + 1 && next_timer_id(old(db).timers@) <= i32::MAX ==> r is Ok,
        r is Ok ==> timer_recorded(*final(db), *old(db), project@, tag_names(tag_str), *create_timer),
{
    let rid = create_timer.rid.clone();
    if find_timer_rid(&db.timers, &rid).is_some() {
        return Err(AppError(ErrorKind::Conflict));
    }
    let ghost start = *db;
    let n_projects = db.projects.len();
    let n_tags = db.tags.len();
    let project_id = Project::insert_and_get_id(db, project)?;
    let tags = parse_tags(tag_str);
    let tag_ids: Vec<i32> = match tags {
        Some(names) => match Tag::batch_insert(db, names) {
            Ok(ids) => ids,
            Err(e) => {
                db.projects.truncate(n_projects);
                assert(db.projects@ =~= start.projects@);
                return Err(e);
            },
        },
        None => {
            assert(tags_named(db.tags@, tag_names(tag_str)).len() == 0) by {
                broadcast use vstd::seq_lib::group_filter_ensures;

                let named = tags_named(db.tags@, tag_names(tag_str));
                if named.len() > 0 {
                    assert(tag_names(tag_str).contains(named[0].name@));
                }
            }
            assert(ids_of_tags(tags_named(db.tags@, tag_names(tag_str))) =~= Seq::<i32>::empty());
            Vec::new()
        },
    };
    assert(db.tags@.take(n_tags as int) =~= start.tags@);
    let timer_id = match create_timer.insert_and_get_id(db) {
        Ok(id) => id,
        Err(e) => {
            db.projects.truncate(n_projects);
            db.tags.truncate(n_tags);
            assert(db.projects@ =~= start.projects@);
            assert(db.tags@ =~= start.tags@);
            return Err(e);
        },
    };
    proof {
        let tid = timer_id;
        assert(db.timers@.last() == create_timer.row(tid));
        assert(has_timer_id(db.timers@, tid));
        lemma_keeps_ids_prefix(db.tags@, start.tags@);
        lemma_keeps_ids_prefix(db.projects@, start.projects@);
    }
    add_link(&mut db.projects_timers, (project_id, timer_id));
    add_links(&mut db.tags_timers, &tag_ids, timer_id);
    proof {
        lemma_keeps_timer_ids_prefix(db.timers@, start.timers@);
        lemma_links_valid_keep(start.projects_timers@, start.projects@, db.projects@, start.timers@, db.timers@);
        lemma_links_valid_keep(start.tags_timers@, start.tags@, db.tags@, start.timers@, db.timers@);
        let p = choose|i: int| 0 <= i < db.projects@.len() && db.projects@[i].row_name() == project@;
        assert(db.projects@[p].row_id() == project_id);
        lemma_with_link_valid(start.projects_timers@, (project_id, timer_id), db.projects@, db.timers@);
        let named = tags_named(db.tags@, tag_names(tag_str));
        assert forall|k: int| 0 <= k < tag_ids@.len() implies has_id(db.tags@, #[trigger] tag_ids@[k]) by {
            lemma_tags_named_member(db.tags@, tag_names(tag_str), k);
            let w = choose|w: int| 0 <= w < db.tags@.len() && db.tags@[w] == named[k];
            assert(db.tags@[w].row_id() == tag_ids@[k]);
        }
        lemma_with_links_valid(start.tags_timers@, tag_ids@, timer_id, db.tags@, db.timers@);
    }
    Ok(())
}

/// Some running timer has this rid.
pub open spec fn has_running_rid(timers: Seq<Timer>, rid: Seq<char>) -> bool {
    exists|i: int| 0 <= i < timers.len() && timers[i].rid@ == rid && is_running(timers[i])
}

/// What stopping a timer does: the running timer with the rid gets `now`
/// as its end; all else stays.
pub open spec fn timer_stopped(new: Seq<Timer>, old: Seq<Timer>, rid: Seq<char>, now: i64) -> bool {
    exists|i: int|
        0 <= i < old.len() && old[i].rid@ == rid && is_running(old[i]) && new == old.update(
            i,
            stopped_at(old[i], now),
        )
}

/// Stops the running timer with this rid at `now`. Fails with `NotFound`
/// where no running timer has the rid.
pub fn stop_timer(db: &mut Db, rid: &str, now: i64) -> (r: AppResult<()>)
    requires
        old(db).wf(),
    ensures
        final(db).wf(),
        final(db).same_but_timers(*old(db)),
        !has_running_rid(old(db).timers@, rid@) ==> fails_with(r, ErrorKind::NotFound)
            && final(db).same_as(*old(db)),
        has_running_rid(old(db).timers@, rid@) ==> r is Ok && timer_stopped(
            final(db).timers@,
            old(db).timers@,
            rid@,
            now,
        ),
{
    let key = rid.to_string();
    let i = match find_timer_rid(&db.timers, &key) {
        None => return Err(AppError(ErrorKind::NotFound)),
        Some(i) => i,
    };
    if db.timers[i].end.is_some() {
        assert(!has_running_rid(db.timers@, rid@)) by {
            if has_running_rid(db.timers@, rid@) {
                let j = choose|j: int| 0 <= j < db.timers@.len() && db.timers@[j].rid@ == rid@ && is_running(db.timers@[j]);
                assert(j != i);
            }
        }
        return Err(AppError(ErrorKind::NotFound));
    }
    let mut timer = db.timers[i].clone();
    let ghost before = db.timers@;
    timer.stop(db, now)?;
    proof {
        let j = choose|j: int|
            0 <= j < before.len() && before[j].id == before[i as int].id && db.timers@ == before.update(
                j,
                with_times(before[j], timer),
            );
        if j != i {
            if j < i {
                assert(before[j].id < before[i as int].id);
            } else {
                assert(before[i as int].id < before[j].id);
            }
        }
        assert(with_times(before[j], timer) == stopped_at(before[j], now));
    }
    Ok(())
}

/// What editing a timer does: the timer with the rid takes the start, end
/// and note of the edited copy; its id and rid stay, as does all else.
pub open spec fn timer_edited(new: Seq<Timer>, old: Seq<Timer>, rid: Seq<char>, t: Timer) -> bool {
    exists|i: int|
        0 <= i < old.len() && old[i].rid@ == rid && new == old.update(i, with_times(old[i], t))
}

/// Writes an edited timer back over the stored timer with this rid. Fails
/// with `NotFound` where no timer has the rid, and with `Validation` where
/// the edit changed the id or the rid.
pub fn edit_timer(db: &mut Db, rid: &str, timer: &Timer) -> (r: AppResult<()>)
    requires
        old(db).wf(),
    ensures
        final(db).wf(),
        final(db).same_but_timers(*old(db)),
        !has_rid(old(db).timers@, rid@) ==> fails_with(r, ErrorKind::NotFound) && final(db).same_as(*old(db)),
        has_rid(old(db).timers@, rid@) ==> exists|i: int|
            0 <= i < old(db).timers@.len() && old(db).timers@[i].rid@ == rid@ && if timer.id
                != old(db).timers@[i].id || timer.rid@ != rid@ {
                fails_with(r, ErrorKind::Validation) && final(db).same_as(*old(db))
            } else {
                r is Ok && timer_edited(final(db).timers@, old(db).timers@, rid@, *timer)
            },
{
    let key = rid.to_string();
    let i = match find_timer_rid(&db.timers, &key) {
        None => return Err(AppError(ErrorKind::NotFound)),
        Some(i) => i,
    };
    if timer.id != db.timers[i].id || timer.rid != key {
        return Err(AppError(ErrorKind::Validation));
    }
    let ghost before = db.timers@;
    timer.update(db)?;
    proof {
        let j = choose|j: int|
            0 <= j < before.len() && before[j].id == timer.id && db.timers@ == before.update(
                j,
                with_times(before[j], *timer),
            );
        if j != i {
            if j < i {
                assert(before[j].id < before[i as int].id);
            } else {
                assert(before[i as int].id < before[j].id);
            }
        }
    }
    Ok(())
}

/// Whether the timers keep their table's rules.
fn check_timers(timers: &Vec<Timer>) -> (r: bool)
    ensures
        r == (timer_ids_ascending(timers@) && rids_unique(timers@)),
{
    let n = timers.len();
    let mut a: usize = 0;
    while a < n
        invariant
            n == timers@.len(),
            a <= n,
            forall|x: int, y: int|
                0 <= x < a && x < y < n ==> timers@[x].id < timers@[y].id && timers@[x].rid@ != timers@[y].rid@,
        decreases n - a,
    {
        let mut b: usize = a + 1;
        while b < n
            invariant
                n == timers@.len(),
                a < n,
                a + 1 <= b <= n,
                forall|x: int, y: int|
                    0 <= x < a && x < y < n ==> timers@[x].id < timers@[y].id && timers@[x].rid@
                        != timers@[y].rid@,
                forall|y: int|
                    a < y < b ==> timers@[a as int].id < timers@[y].id && timers@[a as int].rid@
                        != timers@[y].rid@,
            decreases n - b,
        {
            if timers[a].id >= timers[b].id || timers[a].rid == timers[b].rid {
                return false;
            }
            b += 1;
        }
        a += 1;
    }
    assert forall|x: int, y: int|
        0 <= x < n && 0 <= y < n && x != y implies timers@[x].rid@ != timers@[y].rid@ by {
        if y < x {
            assert(timers@[y].rid@ != timers@[x].rid@);
        }
    }
    true
}

/// Whether the links are all different and each names an existing owner
/// and an existing timer.
fn check_links<T: NamedRow>(links: &Vec<(i32, i32)>, owners: &Vec<T>, timers: &Vec<Timer>) -> (r: bool)
    ensures
        r == (links@.no_duplicates() && links_valid(links@, owners@, timers@)),
{
    let n = links.len();
    let mut a: usize = 0;
    while a < n
        invariant
            n == links@.len(),
            a <= n,
            forall|x: int, y: int| 0 <= x < a && x < y < n ==> links@[x] != links@[y],
            forall|x: int|
                0 <= x < a ==> has_id(owners@, (#[trigger] links@[x]).0) && has_timer_id(timers@, links@[x].1),
        decreases n - a,
    {
        if find_id(owners, links[a].0).is_none() || find_timer_id(timers, links[a].1).is_none() {
            return false;
        }
        let mut b: usize = a + 1;
        while b < n
            invariant
                n == links@.len(),
                a < n,
                a + 1 <= b <= n,
                forall|x: int, y: int| 0 <= x < a && x < y < n ==> links@[x] != links@[y],
                forall|y: int| a < y < b ==> links@[a as int] != links@[y],
            decreases n - b,
        {
            if links[a].0 == links[b].0 && links[a].1 == links[b].1 {
                return false;
            }
            b += 1;
        }
        a += 1;
    }
    assert forall|x: int, y: int| 0 <= x < n && 0 <= y < n && x != y implies links@[x] != links@[y] by {
        if y < x {
            assert(links@[y] != links@[x]);
        }
    }
    true
}

/// Opens a store on rows read back from storage, after checking that they
/// keep the store's rules. Fails with `Storage` where they do not.
pub fn init_db(
    projects: Vec<Project>,
    tags: Vec<Tag>,
    timers: Vec<Timer>,
    projects_timers: Vec<(i32, i32)>,
    tags_timers: Vec<(i32, i32)>,
) -> (r: AppResult<Db>)
    ensures
        r is Ok <==> (Db { projects, tags, timers, projects_timers, tags_timers }).wf(),
        r is Err ==> fails_with(r, ErrorKind::Storage),
        r matches Ok(db) ==> db == (Db { projects, tags, timers, projects_timers, tags_timers }),
{
    let ok = check_table(&projects) && check_table(&tags) && check_timers(&timers) && check_links(
        &projects_timers,
        &projects,
        &timers,
    ) && check_links(&tags_timers, &tags, &timers);
    if ok {
        Ok(Db { projects, tags, timers, projects_timers, tags_timers })
    } else {
        Err(AppError(ErrorKind::Storage))
    }
}

/// What starting a timer does: a running timer with this rid, starting at
/// `now` and with the note, is recorded for the project and the tag names.
pub open spec fn timer_started(
    new: Db,
    old: Db,
    project: Seq<char>,
    names: Seq<Seq<char>>,
    rid: Seq<char>,
    note: Option<String>,
    now: i64,
) -> bool {
    &&& is_fresh_rid(rid)
    &&& exists|ct: CreateTimer|
        ct.rid@ == rid && ct.start == now && ct.end is None && ct.note == note && #[trigger] timer_recorded(
            new,
            old,
            project,
            names,
            ct,
        )
}

/// Starts a timer at `now` for the project, with the listed tags and the
/// note, under a fresh random rid, which it returns. Where no timer is
/// stored yet it succeeds unless ids run out. It fails with `Conflict` where
/// the drawn rid is taken and with `Storage` where ids run out; after a
/// failure the store is as it was.
pub fn start_timer(
    db: &mut Db,
    project: &str,
    tags: Option<&str>,
    note: Option<String>,
    now: i64,
) -> (r: AppResult<String>)
    requires
        old(db).wf(),
    ensures
        final(db).wf(),
        r is Err ==> final(db).same_as(*old(db)),
        r is Err ==> fails_with(r, ErrorKind::Conflict) || fails_with(r, ErrorKind::Storage),
        old(db).timers@.len() == 0 && next_id(old(db).projects@) <= i32::MAX && next_id(old(db).tags@)
            + tag_names(tags).len() <= i32::MAX + 1 ==> r is Ok,
        r matches Ok(rid) ==> timer_started(*final(db), *old(db), project@, tag_names(tags), rid@, note, now),
{
    let create_timer = CreateTimer::new(now, None, note);
    handle_inserts(db, project, tags, &create_timer)?;
    assert(timer_recorded(*db, *old(db), project@, tag_names(tags), create_timer));
    Ok(create_timer.rid)
}

/// What a request to stop timers came to.
#[derive(Debug)]
pub enum StopOutcome {
    /// No timer was running; nothing changed.
    NoneRunning,
    /// These timers, by rid, were stopped.
    Stopped(Vec<String>),
    /// Several timers run and none has the rid asked for; nothing changed.
    NoMatch,
    /// Several timers run and the request named none; nothing changed.
    Ambiguous,
}

/// Stops running timers at `now`: the only one where one runs; where several
/// run, all of them if `all` holds, else the one with the given rid.
pub fn stop_timers(db: &mut Db, all: bool, rid: Option<&str>, now: i64) -> (r: AppResult<StopOutcome>)
    requires
        old(db).wf(),
    ensures
        final(db).wf(),
        final(db).same_but_timers(*old(db)),
        ({
            let running = running_of(old(db).timers@);
            if running.len() == 0 {
                r matches Ok(StopOutcome::NoneRunning) && final(db).same_as(*old(db))
            } else if running.len() == 1 || all {
                &&& r matches Ok(StopOutcome::Stopped(rids))
                &&& string_views(rids@) == rids_of(running)
                &&& final(db).timers@ == all_stopped(old(db).timers@, now)
            } else {
                match rid {
                    None => r matches Ok(StopOutcome::Ambiguous) && final(db).same_as(*old(db)),
                    Some(x) => if has_running_rid(old(db).timers@, x@) {
                        &&& r matches Ok(StopOutcome::Stopped(rids))
                        &&& string_views(rids@) == seq![x@]
                        &&& exists|i: int|
                            0 <= i < old(db).timers@.len() && old(db).timers@[i].rid@ == x@ && is_running(
                                old(db).timers@[i],
                            ) && final(db).timers@ == old(db).timers@.update(
                                i,
                                stopped_at(old(db).timers@[i], now),
                            )
                    } else {
                        r matches Ok(StopOutcome::NoMatch) && final(db).same_as(*old(db))
                    },
                }
            }
        }),
{
    let running = Timers::currently_running(db)?;
    let n = running.len();
    if n == 0 {
        return Ok(StopOutcome::NoneRunning);
    }
    if n == 1 || all {
        let rids = Timers::stop_all(db, now)?;
        return Ok(StopOutcome::Stopped(rids));
    }
    match rid {
        None => Ok(StopOutcome::Ambiguous),
        Some(x) => match stop_timer(db, x, now) {
            Ok(()) => {
                let mut rids: Vec<String> = Vec::new();
                rids.push(x.to_string());
                assert(string_views(rids@) =~= seq![x@]);
                Ok(StopOutcome::Stopped(rids))
            },
            Err(_) => Ok(StopOutcome::NoMatch),
        },
    }
}

/// The tag names as they come back from being joined with commas and split
/// again; none where there are none.
pub open spec fn relisted(names: Seq<Seq<char>>) -> Seq<Seq<char>> {
    if names.len() == 0 {
        Seq::empty()
    } else {
        split_commas(join_commas(names))
    }
}

/// Starts a timer at `now` like the most recent one: for its project, with
/// its tags, and with the given note. Fails with `NotFound` exactly where
/// there is no timer or the most recent one has no project link, and
/// otherwise as `start_timer` does. After a failure the store is as it was.
pub fn restart_last_timer(db: &mut Db, note: Option<String>, now: i64) -> (r: AppResult<String>)
    requires
        old(db).wf(),
    ensures
        final(db).wf(),
        r is Err ==> final(db).same_as(*old(db)),
        old(db).timers@.len() == 0 ==> fails_with(r, ErrorKind::NotFound),
        old(db).timers@.len() > 0 && first_owner(old(db).projects_timers@, old(db).timers@.last().id) is None
            ==> fails_with(r, ErrorKind::NotFound),
        fails_with(r, ErrorKind::NotFound) ==> old(db).timers@.len() == 0 || first_owner(
            old(db).projects_timers@,
            old(db).timers@.last().id,
        ) is None,
        r is Err ==> fails_with(r, ErrorKind::NotFound) || fails_with(r, ErrorKind::Conflict) || fails_with(
            r,
            ErrorKind::Storage,
        ),
        r matches Ok(rid) ==> {
            let last = old(db).timers@.last();
            let names = names_of_tags(rows_of_timer(old(db).tags@, old(db).tags_timers@, last.id));
            &&& old(db).timers@.len() > 0
            &&& exists|p: Project|
                old(db).projects@.contains(p) && Some(p.id) == first_owner(old(db).projects_timers@, last.id)
                    && #[trigger] timer_started(*final(db), *old(db), p.name@, relisted(names), rid@, note, now)
        },
{
    let last = Timer::last(db)?;
    let tid = last.id;
    proof {
        if let Some(pid) = first_owner(db.projects_timers@, tid) {
            lemma_first_owner_link(db.projects_timers@, tid);
            let k = choose|k: int| 0 <= k < db.projects_timers@.len() && db.projects_timers@[k] == (pid, tid);
            assert(has_id(db.projects@, db.projects_timers@[k].0));
        }
    }
    let project = Project::for_timer(db, tid)?;
    let tags = Tags::for_timer(db, tid)?;
    let ghost tag_rows = tags.0@;
    let names = tags.names();
    assert(string_views(names@) =~= names_of_tags(tag_rows));
    let ghost listed = relisted(names_of_tags(tag_rows));
    let r = if names.len() == 0 {
        assert(tag_names(None) =~= listed);
        start_timer(db, project.name.as_str(), None, note, now)
    } else {
        let joined = join_names(&names);
        let text = joined.as_str();
        assert(tag_names(Some(text)) == listed);
        start_timer(db, project.name.as_str(), Some(text), note, now)
    };
    proof {
        if r is Ok {
            assert(old(db).projects@.contains(project));
            assert(timer_started(*db, *old(db), project.name@, listed, r->Ok_0@, note, now));
        }
    }
    r
}

} // verus!
