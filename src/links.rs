//! The link tables: pairs of an owner's id (a project's or a tag's) and a
//! timer's id.

use vstd::prelude::*;

use crate::models::timer::{find_timer_id, has_timer_id, Timer};
use crate::table::{has_id, NamedRow};

verus! {

/// Each link names an existing owner and an existing timer.
pub open spec fn links_valid<T: NamedRow>(links: Seq<(i32, i32)>, owners: Seq<T>, timers: Seq<Timer>) -> bool {
    forall|k: int|
        0 <= k < links.len() ==> has_id(owners, (#[trigger] links[k]).0) && has_timer_id(
            timers,
            links[k].1,
        )
}

/// Every id in use in `old` is in use in `new`.
pub open spec fn keeps_ids<T: NamedRow>(new: Seq<T>, old: Seq<T>) -> bool {
    forall|x: i32| has_id(old, x) ==> #[trigger] has_id(new, x)
}

/// Every timer id in use in `old` is in use in `new`.
pub open spec fn keeps_timer_ids(new: Seq<Timer>, old: Seq<Timer>) -> bool {
    forall|x: i32| has_timer_id(old, x) ==> #[trigger] has_timer_id(new, x)
}

pub proof fn lemma_keeps_ids_prefix<T: NamedRow>(new: Seq<T>, old: Seq<T>)
    requires
        old.len() <= new.len(),
        forall|i: int| 0 <= i < old.len() ==> #[trigger] new[i].row_id() == old[i].row_id(),
    ensures
        keeps_ids(new, old),
{
    assert forall|x: i32| has_id(old, x) implies #[trigger] has_id(new, x) by {
        let w = choose|w: int| 0 <= w < old.len() && old[w].row_id() == x;
        assert(new[w].row_id() == old[w].row_id());
    }
}

pub proof fn lemma_keeps_timer_ids_prefix(new: Seq<Timer>, old: Seq<Timer>)
    requires
        old.len() <= new.len(),
        forall|i: int| 0 <= i < old.len() ==> #[trigger] new[i].id == old[i].id,
    ensures
        keeps_timer_ids(new, old),
{
    assert forall|x: i32| has_timer_id(old, x) implies #[trigger] has_timer_id(new, x) by {
        let w = choose|w: int| 0 <= w < old.len() && old[w].id == x;
        assert(new[w].id == old[w].id);
    }
}

pub proof fn lemma_links_valid_keep<T: NamedRow>(
    links: Seq<(i32, i32)>,
    owners: Seq<T>,
    new_owners: Seq<T>,
    timers: Seq<Timer>,
    new_timers: Seq<Timer>,
)
    requires
        links_valid(links, owners, timers),
        keeps_ids(new_owners, owners),
        keeps_timer_ids(new_timers, timers),
    ensures
        links_valid(links, new_owners, new_timers),
{
    assert forall|k: int| 0 <= k < links.len() implies has_id(new_owners, (#[trigger] links[k]).0)
        && has_timer_id(new_timers, links[k].1) by {
        assert(has_id(owners, links[k].0));
        assert(has_timer_id(timers, links[k].1));
    }
}

/// The links left after a timer's removal name only timers that are left.
pub(crate) proof fn lemma_links_after_timer_removed<T: NamedRow>(
    links: Seq<(i32, i32)>,
    old_links: Seq<(i32, i32)>,
    owners: Seq<T>,
    timers: Seq<Timer>,
    i: int,
)
    requires
        0 <= i < timers.len(),
        links_valid(old_links, owners, timers),
        forall|k: int|
            0 <= k < links.len() ==> old_links.contains(#[trigger] links[k]) && link_kept(
                links[k],
                timers[i].id,
                false,
            ),
    ensures
        links_valid(links, owners, timers.remove(i)),
{
    timers.remove_ensures(i);
    assert forall|k: int| 0 <= k < links.len() implies has_id(owners, (#[trigger] links[k]).0)
        && has_timer_id(timers.remove(i), links[k].1) by {
        let l = links[k];
        let j = choose|j: int| 0 <= j < old_links.len() && old_links[j] == l;
        assert(has_id(owners, old_links[j].0) && has_timer_id(timers, old_links[j].1));
        let w = choose|w: int| 0 <= w < timers.len() && timers[w].id == l.1;
        let w2 = if w < i { w } else { w - 1 };
        assert(timers.remove(i)[w2] == timers[w]);
    }
}

/// The links left after an owner's removal name only owners that are left.
pub(crate) proof fn lemma_links_after_owner_removed<T: NamedRow>(
    links: Seq<(i32, i32)>,
    old_links: Seq<(i32, i32)>,
    owners: Seq<T>,
    timers: Seq<Timer>,
    i: int,
)
    requires
        0 <= i < owners.len(),
        links_valid(old_links, owners, timers),
        forall|k: int|
            0 <= k < links.len() ==> old_links.contains(#[trigger] links[k]) && link_kept(
                links[k],
                owners[i].row_id(),
                true,
            ),
    ensures
        links_valid(links, owners.remove(i), timers),
{
    owners.remove_ensures(i);
    assert forall|k: int| 0 <= k < links.len() implies has_id(owners.remove(i), (#[trigger] links[k]).0)
        && has_timer_id(timers, links[k].1) by {
        let l = links[k];
        let j = choose|j: int| 0 <= j < old_links.len() && old_links[j] == l;
        assert(has_id(owners, old_links[j].0) && has_timer_id(timers, old_links[j].1));
        let w = choose|w: int| 0 <= w < owners.len() && owners[w].row_id() == l.0;
        let w2 = if w < i { w } else { w - 1 };
        assert(owners.remove(i)[w2] == owners[w]);
    }
}

/// The owner named by the first link of a timer.
pub open spec fn first_owner(links: Seq<(i32, i32)>, timer_id: i32) -> Option<i32>
    decreases links.len(),
{
    if links.len() == 0 {
        None
    } else if links[0].1 == timer_id {
        Some(links[0].0)
    } else {
        first_owner(links.drop_first(), timer_id)
    }
}

/// The owner that the first link of a timer names comes from a link of
/// the timer.
pub proof fn lemma_first_owner_link(links: Seq<(i32, i32)>, timer_id: i32)
    requires
        first_owner(links, timer_id) is Some,
    ensures
        links.contains((first_owner(links, timer_id)->Some_0, timer_id)),
    decreases links.len(),
{
    if links[0].1 != timer_id {
        lemma_first_owner_link(links.drop_first(), timer_id);
        let k = choose|k: int|
            0 <= k < links.drop_first().len() && links.drop_first()[k] == (first_owner(links, timer_id)->Some_0, timer_id);
        assert(links[k + 1] == links.drop_first()[k]);
    } else {
        assert(links[0] == (links[0].0, timer_id));
    }
}

/// The owner named by the first link of a timer, if it has one.
pub fn find_owner(links: &Vec<(i32, i32)>, timer_id: i32) -> (r: Option<i32>)
    ensures
        r == first_owner(links@, timer_id),
{
    let mut i: usize = 0;
    assert(links@.skip(0) =~= links@);
    while i < links.len()
        invariant
            i <= links.len(),
            first_owner(links@, timer_id) == first_owner(links@.skip(i as int), timer_id),
        decreases links.len() - i,
    {
        assert(links@.skip(i as int).drop_first() =~= links@.skip(i as int + 1));
        if links[i].1 == timer_id {
            return Some(links[i].0);
        }
        i += 1;
    }
    None
}

/// A link stays when it does not name `id`: as its owner where `by_owner`
/// holds, else as its timer.
pub open spec fn link_kept(l: (i32, i32), id: i32, by_owner: bool) -> bool {
    if by_owner {
        l.0 != id
    } else {
        l.1 != id
    }
}

/// The links that do not name `id` (as owner where `by_owner` holds, else as
/// timer), in order.
pub open spec fn links_without(links: Seq<(i32, i32)>, id: i32, by_owner: bool) -> Seq<(i32, i32)> {
    links.filter(|l: (i32, i32)| link_kept(l, id, by_owner))
}

/// The links that do not name `id`.
pub(crate) fn without_links(links: &Vec<(i32, i32)>, id: i32, by_owner: bool) -> (r: Vec<(i32, i32)>)
    requires
        links@.no_duplicates(),
    ensures
        r@ == links_without(links@, id, by_owner),
        r@.no_duplicates(),
        forall|k: int|
            0 <= k < r@.len() ==> links@.contains(#[trigger] r@[k]) && link_kept(r@[k], id, by_owner),
{
    let ghost f = |l: (i32, i32)| link_kept(l, id, by_owner);
    let mut out: Vec<(i32, i32)> = Vec::new();
    let mut i: usize = 0;
    while i < links.len()
        invariant
            i <= links@.len(),
            links@.no_duplicates(),
            f == (|l: (i32, i32)| link_kept(l, id, by_owner)),
            out@ == links@.take(i as int).filter(f),
            out@.no_duplicates(),
            forall|k: int| 0 <= k < out@.len() ==> exists|j: int| 0 <= j < i && #[trigger] out@[k] == links@[j],
            forall|k: int| 0 <= k < out@.len() ==> link_kept(#[trigger] out@[k], id, by_owner),
        decreases links@.len() - i,
    {
        let ghost taken = links@.take(i as int);
        assert(links@.take(i as int + 1) =~= taken.push(links@[i as int]));
        proof {
            taken.lemma_filter_push(links@[i as int], f);
        }
        let l = links[i];
        let keep = if by_owner {
            l.0 != id
        } else {
            l.1 != id
        };
        if keep {
            let ghost prev = out@;
            out.push(l);
            assert forall|a: int, b: int|
                0 <= a < out@.len() && 0 <= b < out@.len() && a != b implies out@[a] != out@[b] by {
                if a < prev.len() && b < prev.len() {
                    assert(prev[a] != prev[b]);
                } else if a < prev.len() {
                    let j = choose|j: int| 0 <= j < i && prev[a] == links@[j];
                    assert(links@[j] != links@[i as int]);
                } else if b < prev.len() {
                    let j = choose|j: int| 0 <= j < i && prev[b] == links@[j];
                    assert(links@[j] != links@[i as int]);
                }
            }
            assert forall|k: int| 0 <= k < out@.len() implies exists|j: int|
                0 <= j < i + 1 && #[trigger] out@[k] == links@[j] by {
                if k < prev.len() {
                    let j = choose|j: int| 0 <= j < i && prev[k] == links@[j];
                    assert(out@[k] == links@[j]);
                } else {
                    assert(out@[k] == links@[i as int]);
                }
            }
        }
        i += 1;
    }
    assert(links@.take(i as int) =~= links@);
    assert forall|k: int| 0 <= k < out@.len() implies links@.contains(#[trigger] out@[k]) by {
        let j = choose|j: int| 0 <= j < i && out@[k] == links@[j];
    }
    out
}

/// `links` with `l` added, unless it is there already.
pub open spec fn with_link(links: Seq<(i32, i32)>, l: (i32, i32)) -> Seq<(i32, i32)> {
    if links.contains(l) {
        links
    } else {
        links.push(l)
    }
}

/// `links` with a link from each owner, in order, to the timer, each added
/// unless it is there already.
pub open spec fn with_links(links: Seq<(i32, i32)>, owners: Seq<i32>, timer_id: i32) -> Seq<(i32, i32)>
    decreases owners.len(),
{
    if owners.len() == 0 {
        links
    } else {
        with_link(with_links(links, owners.drop_last(), timer_id), (owners.last(), timer_id))
    }
}

/// Adds a link unless it is there already.
pub(crate) fn add_link(links: &mut Vec<(i32, i32)>, l: (i32, i32))
    requires
        old(links)@.no_duplicates(),
    ensures
        final(links)@ == with_link(old(links)@, l),
        final(links)@.no_duplicates(),
{
    let mut i: usize = 0;
    while i < links.len()
        invariant
            i <= links@.len(),
            links@ == old(links)@,
            old(links)@.no_duplicates(),
            forall|j: int| 0 <= j < i ==> links@[j] != l,
        decreases links@.len() - i,
    {
        if links[i].0 == l.0 && links[i].1 == l.1 {
            assert(links@.contains(l));
            return;
        }
        i += 1;
    }
    assert(!links@.contains(l));
    links.push(l);
}

/// Adds, in order, a link from each owner to the timer, each unless it is
/// there already.
pub(crate) fn add_links(links: &mut Vec<(i32, i32)>, owners: &Vec<i32>, timer_id: i32)
    requires
        old(links)@.no_duplicates(),
    ensures
        final(links)@ == with_links(old(links)@, owners@, timer_id),
        final(links)@.no_duplicates(),
{
    let mut i: usize = 0;
    while i < owners.len()
        invariant
            i <= owners@.len(),
            links@ == with_links(old(links)@, owners@.take(i as int), timer_id),
            links@.no_duplicates(),
        decreases owners@.len() - i,
    {
        assert(owners@.take(i as int + 1).drop_last() =~= owners@.take(i as int));
        add_link(links, (owners[i], timer_id));
        i += 1;
    }
    assert(owners@.take(i as int) =~= owners@);
}

pub(crate) proof fn lemma_with_link_valid<T: NamedRow>(
    links: Seq<(i32, i32)>,
    l: (i32, i32),
    owners: Seq<T>,
    timers: Seq<Timer>,
)
    requires
        links_valid(links, owners, timers),
        has_id(owners, l.0),
        has_timer_id(timers, l.1),
    ensures
        links_valid(with_link(links, l), owners, timers),
{
    if !links.contains(l) {
        assert forall|k: int| 0 <= k < links.len() + 1 implies has_id(owners, (#[trigger] links.push(l)[k]).0)
            && has_timer_id(timers, links.push(l)[k].1) by {
            if k < links.len() {
                assert(links.push(l)[k] == links[k]);
            }
        }
    }
}

pub(crate) proof fn lemma_with_links_valid<T: NamedRow>(
    links: Seq<(i32, i32)>,
    ids: Seq<i32>,
    timer_id: i32,
    owners: Seq<T>,
    timers: Seq<Timer>,
)
    requires
        links_valid(links, owners, timers),
        forall|k: int| 0 <= k < ids.len() ==> has_id(owners, #[trigger] ids[k]),
        has_timer_id(timers, timer_id),
    ensures
        links_valid(with_links(links, ids, timer_id), owners, timers),
    decreases ids.len(),
{
    if ids.len() > 0 {
        let rest = ids.drop_last();
        assert forall|k: int| 0 <= k < rest.len() implies has_id(owners, #[trigger] rest[k]) by {
            assert(rest[k] == ids[k]);
        }
        lemma_with_links_valid(links, rest, timer_id, owners, timers);
        assert(has_id(owners, ids[ids.len() - 1]));
        lemma_with_link_valid(with_links(links, rest, timer_id), (ids.last(), timer_id), owners, timers);
    }
}

/// The links whose timers are not among `gone`, in order.
pub open spec fn links_kept(links: Seq<(i32, i32)>, gone: Seq<Timer>) -> Seq<(i32, i32)> {
    links.filter(|l: (i32, i32)| !has_timer_id(gone, l.1))
}

pub(crate) fn keep_links(links: &Vec<(i32, i32)>, gone: &Vec<Timer>) -> (r: Vec<(i32, i32)>)
    requires
        links@.no_duplicates(),
    ensures
        r@ == links_kept(links@, gone@),
        r@.no_duplicates(),
        forall|k: int| 0 <= k < r@.len() ==> links@.contains(#[trigger] r@[k]) && !has_timer_id(gone@, r@[k].1),
{
    let ghost f = |l: (i32, i32)| !has_timer_id(gone@, l.1);
    let mut out: Vec<(i32, i32)> = Vec::new();
    let mut i: usize = 0;
    while i < links.len()
        invariant
            i <= links@.len(),
            links@.no_duplicates(),
            f == (|l: (i32, i32)| !has_timer_id(gone@, l.1)),
            out@ == links@.take(i as int).filter(f),
            out@.no_duplicates(),
            forall|k: int| 0 <= k < out@.len() ==> exists|j: int| 0 <= j < i && #[trigger] out@[k] == links@[j],
            forall|k: int| 0 <= k < out@.len() ==> !has_timer_id(gone@, (#[trigger] out@[k]).1),
        decreases links@.len() - i,
    {
        let ghost taken = links@.take(i as int);
        assert(links@.take(i as int + 1) =~= taken.push(links@[i as int]));
        proof {
            taken.lemma_filter_push(links@[i as int], f);
        }
        let l = links[i];
        if find_timer_id(gone, l.1).is_none() {
            let ghost prev = out@;
            out.push(l);
            proof {
                assert forall|a: int, b: int|
                    0 <= a < out@.len() && 0 <= b < out@.len() && a != b implies out@[a] != out@[b] by {
                    if a < prev.len() && b < prev.len() {
                        assert(prev[a] != prev[b]);
                    } else if a < prev.len() {
                        let j = choose|j: int| 0 <= j < i && prev[a] == links@[j];
                        assert(links@[j] != links@[i as int]);
                    } else if b < prev.len() {
                        let j = choose|j: int| 0 <= j < i && prev[b] == links@[j];
                        assert(links@[j] != links@[i as int]);
                    }
                }
                assert forall|k: int| 0 <= k < out@.len() implies exists|j: int| 0 <= j < i + 1 && #[trigger] out@[k] == links@[j] by {
                    if k < prev.len() {
                        let j = choose|j: int| 0 <= j < i && prev[k] == links@[j];
                        assert(out@[k] == links@[j]);
                    } else {
                        assert(out@[k] == links@[i as int]);
                    }
                }
            }
        }
        i += 1;
    }
    assert(links@.take(i as int) =~= links@);
    assert forall|k: int| 0 <= k < out@.len() implies links@.contains(#[trigger] out@[k]) by {
        let j = choose|j: int| 0 <= j < i && out@[k] == links@[j];
    }
    out
}

pub(crate) proof fn lemma_links_after_timers_removed<T: NamedRow>(
    links: Seq<(i32, i32)>,
    old_links: Seq<(i32, i32)>,
    owners: Seq<T>,
    timers: Seq<Timer>,
    new_timers: Seq<Timer>,
    gone: Seq<Timer>,
)
    requires
        links_valid(old_links, owners, timers),
        forall|k: int| 0 <= k < links.len() ==> old_links.contains(#[trigger] links[k]) && !has_timer_id(gone, links[k].1),
        forall|x: i32| has_timer_id(timers, x) && !has_timer_id(gone, x) ==> #[trigger] has_timer_id(new_timers, x),
    ensures
        links_valid(links, owners, new_timers),
{
    assert forall|k: int| 0 <= k < links.len() implies has_id(owners, (#[trigger] links[k]).0)
        && has_timer_id(new_timers, links[k].1) by {
        let j = choose|j: int| 0 <= j < old_links.len() && old_links[j] == links[k];
        assert(has_id(owners, old_links[j].0) && has_timer_id(timers, old_links[j].1));
    }
}

} // verus!
