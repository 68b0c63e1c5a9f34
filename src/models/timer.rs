//! Timers: the repository of the timer table, its queries and its state
//! changes (a timer runs until its end is set).

use vstd::prelude::*;

use crate::db::Db;
use crate::links::{keep_links, lemma_keeps_timer_ids_prefix, lemma_links_after_timers_removed, links_kept};
use crate::errors::{fails_with, AppError, AppResult, ErrorKind};
use crate::utils::{rand_string, string_views, utc_now, RID_LEN};

verus! {

/// A work session. `end` is unset while it runs.
#[derive(Debug)]
pub struct Timer {
    pub id: i32,
    pub rid: String,
    pub start: i64,
    pub end: Option<i64>,
    pub note: Option<String>,
}

pub fn clone_text(s: &Option<String>) -> (r: Option<String>)
    ensures
        r == *s,
{
    match s {
        Some(t) => Some(t.clone()),
        None => None,
    }
}

impl Clone for Timer {
    fn clone(&self) -> (r: Self)
        ensures
            r == *self,
    {
        Timer {
            id: self.id,
            rid: self.rid.clone(),
            start: self.start,
            end: self.end,
            note: clone_text(&self.note),
        }
    }
}

/// Ids grow strictly from the first timer to the last.
pub open spec fn timer_ids_ascending(timers: Seq<Timer>) -> bool {
    forall|i: int, j: int| 0 <= i < j < timers.len() ==> timers[i].id < timers[j].id
}

/// No two timers share a rid.
pub open spec fn rids_unique(timers: Seq<Timer>) -> bool {
    forall|i: int, j: int|
        0 <= i < timers.len() && 0 <= j < timers.len() && i != j ==> timers[i].rid@
            != timers[j].rid@
}

pub open spec fn has_rid(timers: Seq<Timer>, rid: Seq<char>) -> bool {
    exists|i: int| 0 <= i < timers.len() && timers[i].rid@ == rid
}

pub open spec fn has_timer_id(timers: Seq<Timer>, id: i32) -> bool {
    exists|i: int| 0 <= i < timers.len() && timers[i].id == id
}

/// The timer with the given id, if there is one.
pub open spec fn timer_by_id(timers: Seq<Timer>, id: i32) -> Option<Timer> {
    if has_timer_id(timers, id) {
        Some(timers[choose|i: int| 0 <= i < timers.len() && timers[i].id == id])
    } else {
        None
    }
}

pub proof fn lemma_timer_by_id(timers: Seq<Timer>, i: int)
    requires
        timer_ids_ascending(timers),
        0 <= i < timers.len(),
    ensures
        timer_by_id(timers, timers[i].id) == Some(timers[i]),
{
    let id = timers[i].id;
    assert(has_timer_id(timers, id));
    let k = choose|k: int| 0 <= k < timers.len() && timers[k].id == id;
    if k < i {
        assert(timers[k].id < timers[i].id);
    } else if i < k {
        assert(timers[i].id < timers[k].id);
    }
}

/// Timers that keep, place by place, the ids and rids of a well-ordered
/// table still have growing ids and unique rids.
pub proof fn lemma_timer_keys_kept(new: Seq<Timer>, old: Seq<Timer>)
    requires
        timer_ids_ascending(old),
        rids_unique(old),
        new.len() == old.len(),
        forall|i: int| 0 <= i < old.len() ==> #[trigger] new[i].id == old[i].id && new[i].rid == old[i].rid,
    ensures
        timer_ids_ascending(new),
        rids_unique(new),
{
    assert forall|a: int, b: int| 0 <= a < b < new.len() implies new[a].id < new[b].id by {
        assert(new[a].id == old[a].id && new[b].id == old[b].id);
    }
    assert forall|a: int, b: int|
        0 <= a < new.len() && 0 <= b < new.len() && a != b implies new[a].rid@ != new[b].rid@ by {
        assert(new[a].rid == old[a].rid && new[b].rid == old[b].rid);
    }
}

/// Removing a timer keeps ids growing and rids unique.
pub proof fn lemma_timer_removed(timers: Seq<Timer>, i: int)
    requires
        timer_ids_ascending(timers),
        rids_unique(timers),
        0 <= i < timers.len(),
    ensures
        timer_ids_ascending(timers.remove(i)),
        rids_unique(timers.remove(i)),
{
    let new = timers.remove(i);
    timers.remove_ensures(i);
    assert forall|a: int, b: int| 0 <= a < b < new.len() implies new[a].id < new[b].id by {
        let a0 = if a < i { a } else { a + 1 };
        let b0 = if b < i { b } else { b + 1 };
        assert(new[a] == timers[a0] && new[b] == timers[b0]);
    }
    assert forall|a: int, b: int|
        0 <= a < new.len() && 0 <= b < new.len() && a != b implies new[a].rid@ != new[b].rid@ by {
        let a0 = if a < i { a } else { a + 1 };
        let b0 = if b < i { b } else { b + 1 };
        assert(new[a] == timers[a0] && new[b] == timers[b0]);
    }
}

/// The id the next created timer receives: one past the largest in use.
pub open spec fn next_timer_id(timers: Seq<Timer>) -> int {
    if timers.len() == 0 {
        1
    } else {
        timers.last().id + 1
    }
}

/// What a link table yields for one owner (a project or a tag): for each
/// of its links, in the table's order, the timer it points to, where that
/// timer exists.
pub open spec fn timers_of_owner(timers: Seq<Timer>, links: Seq<(i32, i32)>, owner: i32) -> Seq<Timer>
    decreases links.len(),
{
    if links.len() == 0 {
        Seq::empty()
    } else {
        let rest = timers_of_owner(timers, links.drop_last(), owner);
        let l = links.last();
        if l.0 == owner {
            match timer_by_id(timers, l.1) {
                Some(t) => rest.push(t),
                None => rest,
            }
        } else {
            rest
        }
    }
}

/// The seconds a timer has run: to its end, or to `now` while it runs.
pub open spec fn elapsed_of(t: Timer, now: i64) -> int {
    match t.end {
        Some(e) => e - t.start,
        None => now - t.start,
    }
}

/// The seconds that the timers have run, all together.
pub open spec fn total_seconds_of(timers: Seq<Timer>, now: i64) -> int
    decreases timers.len(),
{
    if timers.len() == 0 {
        0
    } else {
        total_seconds_of(timers.drop_last(), now) + elapsed_of(timers.last(), now)
    }
}

pub proof fn lemma_timers_of_owner_len(timers: Seq<Timer>, links: Seq<(i32, i32)>, owner: i32)
    ensures
        timers_of_owner(timers, links, owner).len() <= links.len(),
    decreases links.len(),
{
    if links.len() > 0 {
        lemma_timers_of_owner_len(timers, links.drop_last(), owner);
    }
}

pub open spec fn is_running(t: Timer) -> bool {
    t.end is None
}

pub open spec fn is_finished(t: Timer) -> bool {
    t.end is Some
}

/// The running timers, in the table's order.
pub open spec fn running_of(timers: Seq<Timer>) -> Seq<Timer> {
    timers.filter(|t: Timer| is_running(t))
}

/// The finished timers, in the table's order.
pub open spec fn finished_of(timers: Seq<Timer>) -> Seq<Timer> {
    timers.filter(|t: Timer| is_finished(t))
}

/// The timer, stopped at `now`.
pub open spec fn stopped_at(t: Timer, now: i64) -> Timer {
    Timer { end: Some(now), ..t }
}

/// The timers, each running one stopped at `now`.
pub open spec fn all_stopped(timers: Seq<Timer>, now: i64) -> Seq<Timer> {
    Seq::new(
        timers.len(),
        |i: int|
            if is_running(timers[i]) {
                stopped_at(timers[i], now)
            } else {
                timers[i]
            },
    )
}

/// The rids of the timers, in order.
pub open spec fn rids_of(timers: Seq<Timer>) -> Seq<Seq<char>> {
    Seq::new(timers.len(), |i: int| timers[i].rid@)
}

/// The first `limit` finished timers, in the table's order.
pub open spec fn history_of(timers: Seq<Timer>, limit: int) -> Seq<Timer> {
    if limit < finished_of(timers).len() {
        finished_of(timers).take(limit)
    } else {
        finished_of(timers)
    }
}

/// `row` with its start, end and note taken from `t`.
pub open spec fn with_times(row: Timer, t: Timer) -> Timer {
    Timer { id: row.id, rid: row.rid, start: t.start, end: t.end, note: t.note }
}

/// The position of the timer with the given id.
pub fn find_timer_id(timers: &Vec<Timer>, id: i32) -> (r: Option<usize>)
    ensures
        match r {
            Some(i) => i < timers.len() && timers@[i as int].id == id,
            None => !has_timer_id(timers@, id),
        },
{
    let mut i: usize = 0;
    while i < timers.len()
        invariant
            i <= timers.len(),
            forall|j: int| 0 <= j < i ==> timers@[j].id != id,
        decreases timers.len() - i,
    {
        if timers[i].id == id {
            return Some(i);
        }
        i += 1;
    }
    None
}

/// The position of the timer with the given rid.
pub fn find_timer_rid(timers: &Vec<Timer>, rid: &String) -> (r: Option<usize>)
    ensures
        match r {
            Some(i) => i < timers.len() && timers@[i as int].rid@ == rid@,
            None => !has_rid(timers@, rid@),
        },
{
    let mut i: usize = 0;
    while i < timers.len()
        invariant
            i <= timers.len(),
            forall|j: int| 0 <= j < i ==> timers@[j].rid@ != rid@,
        decreases timers.len() - i,
    {
        if timers[i].rid == *rid {
            return Some(i);
        }
        i += 1;
    }
    None
}

/// Copies of the timers that pass the given test of their end, in order:
/// the running ones where `running` holds, else the finished ones.
fn select(timers: &Vec<Timer>, running: bool) -> (r: Vec<Timer>)
    ensures
        running ==> r@ == running_of(timers@),
        !running ==> r@ == finished_of(timers@),
{
    let ghost f = if running {
        |t: Timer| is_running(t)
    } else {
        |t: Timer| is_finished(t)
    };
    let mut out: Vec<Timer> = Vec::new();
    let mut i: usize = 0;
    while i < timers.len()
        invariant
            i <= timers@.len(),
            f == if running {
                |t: Timer| is_running(t)
            } else {
                |t: Timer| is_finished(t)
            },
            out@ == timers@.take(i as int).filter(f),
        decreases timers@.len() - i,
    {
        let ghost taken = timers@.take(i as int);
        assert(timers@.take(i as int + 1) =~= taken.push(timers@[i as int]));
        proof {
            taken.lemma_filter_push(timers@[i as int], f);
        }
        if timers[i].end.is_none() == running {
            out.push(timers[i].clone());
        }
        i += 1;
    }
    assert(timers@.take(i as int) =~= timers@);
    out
}

/// Timers, as a list.
#[derive(Debug)]
pub struct Timers(pub Vec<Timer>);

impl Timers {
    pub fn len(&self) -> (r: usize)
        ensures
            r == self.0@.len(),
    {
        self.0.len()
    }

    pub fn new(timers: Vec<Timer>) -> (r: Self)
        ensures
            r.0 == timers,
    {
        Timers(timers)
    }

    pub fn default() -> (r: Self)
        ensures
            r.0@.len() == 0,
    {
        Timers(Vec::new())
    }

    /// The seconds these timers have run, all together; `now` stands for the
    /// end of those still running.
    pub fn total_seconds(&self, now: i64) -> (r: i128)
        requires
            self.0@.len() < 0x8000_0000_0000_0000,
        ensures
            r == total_seconds_of(self.0@, now),
    {
        let mut total: i128 = 0;
        let mut i: usize = 0;
        while i < self.0.len()
            invariant
                i <= self.0@.len(),
                self.0@.len() < 0x8000_0000_0000_0000,
                total == total_seconds_of(self.0@.take(i as int), now),
                -(i as int) * 0x1_0000_0000_0000_0000 <= total <= (i as int) * 0x1_0000_0000_0000_0000,
            decreases self.0@.len() - i,
        {
            assert(self.0@.take(i as int + 1).drop_last() =~= self.0@.take(i as int));
            let e = self.0[i].elapsed(now);
            total = total + e;
            i += 1;
        }
        assert(self.0@.take(i as int) =~= self.0@);
        total
    }

    /// Stops every running timer at `now`; returns their rids, in the
    /// table's order.
    pub fn stop_all(db: &mut Db, now: i64) -> (r: AppResult<Vec<String>>)
        requires
            old(db).wf(),
        ensures
            final(db).wf(),
            final(db).same_but_timers(*old(db)),
            final(db).timers@ == all_stopped(old(db).timers@, now),
            r matches Ok(rids) && string_views(rids@) == rids_of(running_of(old(db).timers@)),
    {
        let ghost start = db.timers@;
        let ghost f = |t: Timer| is_running(t);
        let mut rids: Vec<String> = Vec::new();
        let mut i: usize = 0;
        while i < db.timers.len()
            invariant
                i <= db.timers@.len(),
                db.timers@.len() == start.len(),
                start == old(db).timers@,
                f == (|t: Timer| is_running(t)),
                db.same_but_timers(*old(db)),
                forall|k: int|
                    0 <= k < start.len() ==> #[trigger] db.timers@[k] == if k < i && is_running(start[k]) {
                        stopped_at(start[k], now)
                    } else {
                        start[k]
                    },
                string_views(rids@) == rids_of(start.take(i as int).filter(f)),
            decreases start.len() - i,
        {
            let ghost taken = start.take(i as int);
            assert(start.take(i as int + 1) =~= taken.push(start[i as int]));
            proof {
                taken.lemma_filter_push(start[i as int], f);
            }
            if db.timers[i].end.is_none() {
                let ghost prev = rids@;
                assert(db.timers@[i as int] == start[i as int]);
                assert(f(start[i as int]));
                let ghost filtered = start.take(i as int + 1).filter(f);
                assert(filtered == taken.filter(f).push(start[i as int]));
                rids.push(db.timers[i].rid.clone());
                assert(string_views(rids@) =~= rids_of(filtered)) by {
                    let tf = taken.filter(f);
                    assert(string_views(prev).len() == prev.len());
                    assert(rids_of(tf).len() == tf.len());
                    assert(prev.len() == tf.len());
                    assert(rids@.len() == filtered.len());
                    assert forall|k: int| 0 <= k < rids@.len() implies string_views(rids@)[k] == rids_of(filtered)[k] by {
                        if k < prev.len() {
                            assert(rids@[k] == prev[k]);
                            assert(filtered[k] == tf[k]);
                            assert(string_views(prev)[k] == rids_of(tf)[k]);
                        }
                    }
                }
                let t = db.timers[i].clone();
                db.timers.set(i, Timer { end: Some(now), ..t });
            } else {
                assert(string_views(rids@) =~= rids_of(start.take(i as int + 1).filter(f)));
            }
            i += 1;
        }
        assert(start.take(i as int) =~= start);
        assert(db.timers@ =~= all_stopped(start, now));
        proof {
            assert forall|k: int| 0 <= k < start.len() implies #[trigger] db.timers@[k].id == start[k].id
                && db.timers@[k].rid == start[k].rid by {}
            lemma_timer_keys_kept(db.timers@, start);
            lemma_keeps_timer_ids_prefix(db.timers@, start);
            Db::lemma_wf_timers_grown(*db, *old(db));
        }
        Ok(rids)
    }

    /// The timers linked to a project, one for each of its links.
    pub fn for_project(db: &Db, project_id: i32) -> (r: AppResult<Self>)
        requires
            db.wf(),
        ensures
            r matches Ok(ts) && ts.0@ == timers_of_owner(db.timers@, db.projects_timers@, project_id),
    {
        Ok(Timers(linked_timers(&db.timers, &db.projects_timers, project_id)))
    }

    /// The timers linked to a tag, one for each of its links.
    pub fn for_tag(db: &Db, tag_id: i32) -> (r: AppResult<Self>)
        requires
            db.wf(),
        ensures
            r matches Ok(ts) && ts.0@ == timers_of_owner(db.timers@, db.tags_timers@, tag_id),
    {
        Ok(Timers(linked_timers(&db.timers, &db.tags_timers, tag_id)))
    }

    /// Every timer, in the table's order.
    pub fn all(db: &Db) -> (r: AppResult<Self>)
        ensures
            r matches Ok(ts) && ts.0@ == db.timers@,
    {
        let mut out: Vec<Timer> = Vec::new();
        let mut i: usize = 0;
        while i < db.timers.len()
            invariant
                i <= db.timers@.len(),
                out@ == db.timers@.take(i as int),
            decreases db.timers@.len() - i,
        {
            out.push(db.timers[i].clone());
            assert(out@ =~= db.timers@.take(i as int + 1));
            i += 1;
        }
        assert(db.timers@.take(i as int) =~= db.timers@);
        Ok(Timers(out))
    }

    /// The timers whose end is unset.
    pub fn currently_running(db: &Db) -> (r: AppResult<Self>)
        ensures
            r matches Ok(ts) && ts.0@ == running_of(db.timers@),
    {
        Ok(Timers(select(&db.timers, true)))
    }

    /// The timers whose end is set.
    pub fn finished(db: &Db) -> (r: AppResult<Self>)
        ensures
            r matches Ok(ts) && ts.0@ == finished_of(db.timers@),
    {
        Ok(Timers(select(&db.timers, false)))
    }

    /// The first `limit` finished timers, in the table's order.
    pub fn limit(db: &Db, limit: usize) -> (r: AppResult<Self>)
        ensures
            r matches Ok(ts) && ts.0@ == history_of(db.timers@, limit as int),
    {
        let mut timers = select(&db.timers, false);
        if limit < timers.len() {
            timers.truncate(limit);
        }
        Ok(Timers(timers))
    }
}

/// The timers that the links of one owner point to.
fn linked_timers(timers: &Vec<Timer>, links: &Vec<(i32, i32)>, owner: i32) -> (r: Vec<Timer>)
    requires
        timer_ids_ascending(timers@),
    ensures
        r@ == timers_of_owner(timers@, links@, owner),
{
    let mut out: Vec<Timer> = Vec::new();
    let mut i: usize = 0;
    while i < links.len()
        invariant
            i <= links.len(),
            timer_ids_ascending(timers@),
            out@ == timers_of_owner(timers@, links@.take(i as int), owner),
        decreases links.len() - i,
    {
        let (o, timer_id) = links[i];
        assert(links@.take(i as int + 1).drop_last() =~= links@.take(i as int));
        if o == owner {
            match find_timer_id(timers, timer_id) {
                Some(k) => {
                    proof {
                        lemma_timer_by_id(timers@, k as int);
                    }
                    out.push(timers[k].clone());
                },
                None => {},
            }
        }
        i += 1;
    }
    assert(links@.take(links.len() as int) =~= links@);
    out
}

impl Timer {
    /// Writes this timer's start, end and note over those of the stored timer
    /// with the same id; the stored id and rid stay. Where no timer has this
    /// id nothing changes.
    pub fn update(&self, db: &mut Db) -> (r: AppResult<()>)
        requires
            old(db).wf(),
        ensures
            r is Ok,
            final(db).wf(),
            final(db).same_but_timers(*old(db)),
            !has_timer_id(old(db).timers@, self.id) ==> final(db).timers@ == old(db).timers@,
            has_timer_id(old(db).timers@, self.id) ==> exists|i: int|
                0 <= i < old(db).timers@.len() && old(db).timers@[i].id == self.id
                    && final(db).timers@ == old(db).timers@.update(
                    i,
                    with_times(old(db).timers@[i], *self),
                ),
    {
        match find_timer_id(&db.timers, self.id) {
            None => Ok(()),
            Some(i) => {
                let ghost before = db.timers@;
                let row = Timer {
                    id: self.id,
                    rid: db.timers[i].rid.clone(),
                    start: self.start,
                    end: self.end,
                    note: clone_text(&self.note),
                };
                db.timers.set(i, row);
                assert(db.timers@ == before.update(i as int, with_times(before[i as int], *self)));
                proof {
                    lemma_timer_keys_kept(db.timers@, before);
                    lemma_keeps_timer_ids_prefix(db.timers@, before);
                    Db::lemma_wf_timers_grown(*db, *old(db));
                }
                Ok(())
            },
        }
    }

    /// Stops this timer at `now`: its end becomes `now`, here and in the store.
    pub fn stop(&mut self, db: &mut Db, now: i64) -> (r: AppResult<()>)
        requires
            old(db).wf(),
        ensures
            r is Ok,
            *final(self) == (Timer { end: Some(now), ..*old(self) }),
            final(db).wf(),
            final(db).same_but_timers(*old(db)),
            !has_timer_id(old(db).timers@, old(self).id) ==> final(db).timers@ == old(db).timers@,
            has_timer_id(old(db).timers@, old(self).id) ==> exists|i: int|
                0 <= i < old(db).timers@.len() && old(db).timers@[i].id == old(self).id
                    && final(db).timers@ == old(db).timers@.update(
                    i,
                    with_times(old(db).timers@[i], *final(self)),
                ),
    {
        self.end = Some(now);
        self.update(db)
    }

    /// The timer with this rid.
    pub fn find_by_rid(db: &Db, rid: &str) -> (r: AppResult<Timer>)
        ensures
            has_rid(db.timers@, rid@) <==> r is Ok,
            r is Err ==> fails_with(r, ErrorKind::NotFound),
            r matches Ok(t) ==> db.timers@.contains(t) && t.rid@ == rid@,
    {
        let rid = rid.to_string();
        match find_timer_rid(&db.timers, &rid) {
            Some(i) => Ok(db.timers[i].clone()),
            None => Err(AppError(ErrorKind::NotFound)),
        }
    }

    /// The timer whose `column` holds `val`. The rid is the one column a
    /// timer is looked up by; naming another fails with `Validation`.
    pub fn find_by(db: &Db, column: &str, val: &str) -> (r: AppResult<Timer>)
        ensures
            column@ != "rid"@ ==> fails_with(r, ErrorKind::Validation),
            column@ == "rid"@ ==> {
                &&& has_rid(db.timers@, val@) <==> r is Ok
                &&& r is Err ==> fails_with(r, ErrorKind::NotFound)
                &&& r matches Ok(t) ==> db.timers@.contains(t) && t.rid@ == val@
            },
    {
        if column.to_string() == "rid".to_string() {
            Timer::find_by_rid(db, val)
        } else {
            Err(AppError(ErrorKind::Validation))
        }
    }

    /// The most recently created timer: the one with the largest id.
    pub fn last(db: &Db) -> (r: AppResult<Timer>)
        requires
            db.wf(),
        ensures
            db.timers@.len() > 0 <==> r is Ok,
            r is Err ==> fails_with(r, ErrorKind::NotFound),
            r matches Ok(t) ==> t == db.timers@.last() && forall|i: int|
                0 <= i < db.timers@.len() ==> db.timers@[i].id <= t.id,
    {
        if db.timers.len() == 0 {
            Err(AppError(ErrorKind::NotFound))
        } else {
            Ok(db.timers[db.timers.len() - 1].clone())
        }
    }

    /// The seconds this timer has run: from its start to its end, or to
    /// `now` while it runs.
    pub fn elapsed(&self, now: i64) -> (r: i128)
        ensures
            r == elapsed_of(*self, now),
    {
        match self.end {
            Some(e) => e as i128 - self.start as i128,
            None => now as i128 - self.start as i128,
        }
    }
}

/// A timer yet to be stored.
#[derive(Debug)]
pub struct CreateTimer {
    pub rid: String,
    pub start: i64,
    pub end: Option<i64>,
    pub note: Option<String>,
}

/// A fresh rid: `RID_LEN` letters and digits.
pub open spec fn is_fresh_rid(rid: Seq<char>) -> bool {
    rid.len() == RID_LEN && forall|i: int| 0 <= i < rid.len() ==> crate::utils::is_alphanumeric(#[trigger] rid[i])
}

impl CreateTimer {
    /// The row this timer becomes when stored with the given id.
    pub open spec fn row(&self, id: i32) -> Timer {
        Timer { id, rid: self.rid, start: self.start, end: self.end, note: self.note }
    }

    /// A timer with the given times and note and a random rid.
    pub fn new(start: i64, end: Option<i64>, note: Option<String>) -> (r: Self)
        ensures
            is_fresh_rid(r.rid@),
            r.start == start,
            r.end == end,
            r.note == note,
    {
        CreateTimer { rid: rand_string(RID_LEN), start, end, note }
    }

    /// A running timer that starts now, with no note and a random rid.
    pub fn default() -> (r: Self)
        ensures
            is_fresh_rid(r.rid@),
            r.end is None,
            r.note is None,
    {
        CreateTimer { rid: rand_string(RID_LEN), start: utc_now(), end: None, note: None }
    }

    /// Stores this timer and returns its new id. Fails with `Conflict` where
    /// a timer already has this rid, and with `Storage` where the ids have
    /// run out; either way nothing is written.
    pub fn insert_and_get_id(&self, db: &mut Db) -> (r: AppResult<i32>)
        requires
            old(db).wf(),
        ensures
            final(db).wf(),
            final(db).same_but_timers(*old(db)),
            has_rid(old(db).timers@, self.rid@) ==> fails_with(r, ErrorKind::Conflict),
            !has_rid(old(db).timers@, self.rid@) && next_timer_id(old(db).timers@) > i32::MAX
                ==> fails_with(r, ErrorKind::Storage),
            r is Err ==> final(db).timers@ == old(db).timers@,
            !has_rid(old(db).timers@, self.rid@) && next_timer_id(old(db).timers@) <= i32::MAX
                ==> r == Ok::<i32, AppError>(next_timer_id(old(db).timers@) as i32) && final(db).timers@
                == old(db).timers@.push(self.row(next_timer_id(old(db).timers@) as i32)),
    {
        let rid = self.rid.clone();
        if find_timer_rid(&db.timers, &rid).is_some() {
            return Err(AppError(ErrorKind::Conflict));
        }
        let n = db.timers.len();
        let id: i32 = if n == 0 {
            1
        } else if db.timers[n - 1].id == i32::MAX {
            return Err(AppError(ErrorKind::Storage));
        } else {
            db.timers[n - 1].id + 1
        };
        let ghost before = db.timers@;
        db.timers.push(
            Timer { id, rid, start: self.start, end: self.end, note: clone_text(&self.note) },
        );
        assert(timer_ids_ascending(db.timers@)) by {
            assert forall|a: int, b: int| 0 <= a < b < db.timers@.len() implies db.timers@[a].id
                < db.timers@[b].id by {
                if b == n {
                    if a < n - 1 {
                        assert(before[a].id < before[n - 1].id);
                    }
                }
            }
        }
        proof {
            lemma_keeps_timer_ids_prefix(db.timers@, before);
            Db::lemma_wf_timers_grown(*db, *old(db));
        }
        Ok(id)
    }

    /// Stores this timer; returns the number of rows written.
    pub fn insert(&self, db: &mut Db) -> (r: AppResult<usize>)
        requires
            old(db).wf(),
        ensures
            final(db).wf(),
            final(db).same_but_timers(*old(db)),
            has_rid(old(db).timers@, self.rid@) ==> fails_with(r, ErrorKind::Conflict),
            !has_rid(old(db).timers@, self.rid@) && next_timer_id(old(db).timers@) > i32::MAX
                ==> fails_with(r, ErrorKind::Storage),
            r is Err ==> final(db).timers@ == old(db).timers@,
            !has_rid(old(db).timers@, self.rid@) && next_timer_id(old(db).timers@) <= i32::MAX
                ==> r == Ok::<usize, AppError>(1) && final(db).timers@ == old(db).timers@.push(
                self.row(next_timer_id(old(db).timers@) as i32),
            ),
    {
        self.insert_and_get_id(db)?;
        Ok(1)
    }
}

/// The timers whose ids are not among those of `gone`, in order.
pub open spec fn timers_kept(timers: Seq<Timer>, gone: Seq<Timer>) -> Seq<Timer> {
    timers.filter(|t: Timer| !has_timer_id(gone, t.id))
}

pub(crate) fn keep_timers(timers: &Vec<Timer>, gone: &Vec<Timer>) -> (r: Vec<Timer>)
    requires
        timer_ids_ascending(timers@),
        rids_unique(timers@),
    ensures
        r@ == timers_kept(timers@, gone@),
        timer_ids_ascending(r@),
        rids_unique(r@),
        forall|x: i32| has_timer_id(timers@, x) && !has_timer_id(gone@, x) ==> #[trigger] has_timer_id(r@, x),
{
    let ghost f = |t: Timer| !has_timer_id(gone@, t.id);
    let mut out: Vec<Timer> = Vec::new();
    let mut i: usize = 0;
    while i < timers.len()
        invariant
            i <= timers@.len(),
            timer_ids_ascending(timers@),
            rids_unique(timers@),
            f == (|t: Timer| !has_timer_id(gone@, t.id)),
            out@ == timers@.take(i as int).filter(f),
            timer_ids_ascending(out@),
            rids_unique(out@),
            forall|k: int| 0 <= k < out@.len() ==> exists|j: int| 0 <= j < i && #[trigger] out@[k] == timers@[j],
            forall|j: int| 0 <= j < i && !has_timer_id(gone@, timers@[j].id) ==> has_timer_id(out@, #[trigger] timers@[j].id),
        decreases timers@.len() - i,
    {
        let ghost taken = timers@.take(i as int);
        assert(timers@.take(i as int + 1) =~= taken.push(timers@[i as int]));
        proof {
            taken.lemma_filter_push(timers@[i as int], f);
        }
        if find_timer_id(gone, timers[i].id).is_none() {
            let ghost prev = out@;
            out.push(timers[i].clone());
            proof {
                assert forall|a: int, b: int| 0 <= a < b < out@.len() implies out@[a].id < out@[b].id by {
                    if b == prev.len() {
                        let j = choose|j: int| 0 <= j < i && prev[a] == timers@[j];
                    }
                }
                assert forall|a: int, b: int|
                    0 <= a < out@.len() && 0 <= b < out@.len() && a != b implies out@[a].rid@ != out@[b].rid@ by {
                    if b == prev.len() {
                        let j = choose|j: int| 0 <= j < i && prev[a] == timers@[j];
                    } else if a == prev.len() {
                        let j = choose|j: int| 0 <= j < i && prev[b] == timers@[j];
                    }
                }
                assert forall|k: int| 0 <= k < out@.len() implies exists|j: int| 0 <= j < i + 1 && #[trigger] out@[k] == timers@[j] by {
                    if k < prev.len() {
                        let j = choose|j: int| 0 <= j < i && prev[k] == timers@[j];
                        assert(out@[k] == timers@[j]);
                    } else {
                        assert(out@[k] == timers@[i as int]);
                    }
                }
                assert forall|j: int| 0 <= j < i + 1 && !has_timer_id(gone@, timers@[j].id) implies has_timer_id(out@, #[trigger] timers@[j].id) by {
                    if j < i {
                        let w = choose|w: int| 0 <= w < prev.len() && prev[w].id == timers@[j].id;
                        assert(out@[w] == prev[w]);
                    } else {
                        assert(out@[prev.len() as int] == timers@[j]);
                    }
                }
            }
        }
        i += 1;
    }
    assert(timers@.take(i as int) =~= timers@);
    assert forall|x: i32| has_timer_id(timers@, x) && !has_timer_id(gone@, x) implies #[trigger] has_timer_id(out@, x) by {
        let j = choose|j: int| 0 <= j < timers@.len() && timers@[j].id == x;
        assert(has_timer_id(out@, timers@[j].id));
    }
    out
}

impl Timers {
    /// Deletes these timers, by id, with every link to them in both link
    /// tables; the projects and tags stay.
    pub fn batch_delete(self, db: &mut Db) -> (r: AppResult<()>)
        requires
            old(db).wf(),
        ensures
            r is Ok,
            final(db).wf(),
            final(db).timers@ == timers_kept(old(db).timers@, self.0@),
            final(db).projects_timers@ == links_kept(old(db).projects_timers@, self.0@),
            final(db).tags_timers@ == links_kept(old(db).tags_timers@, self.0@),
            final(db).projects@ == old(db).projects@,
            final(db).tags@ == old(db).tags@,
    {
        db.projects_timers = keep_links(&db.projects_timers, &self.0);
        db.tags_timers = keep_links(&db.tags_timers, &self.0);
        db.timers = keep_timers(&db.timers, &self.0);
        proof {
            lemma_links_after_timers_removed(
                db.projects_timers@,
                old(db).projects_timers@,
                db.projects@,
                old(db).timers@,
                db.timers@,
                self.0@,
            );
            lemma_links_after_timers_removed(
                db.tags_timers@,
                old(db).tags_timers@,
                db.tags@,
                old(db).timers@,
                db.timers@,
                self.0@,
            );
        }
        Ok(())
    }
}

} // verus!
