//! Reports built from the store: how long projects have been worked on.

use vstd::prelude::*;

use crate::db::Db;
use crate::models::project::{Project, Projects};
use crate::models::timer::{lemma_timers_of_owner_len, timers_of_owner, total_seconds_of, Timers};
use crate::table::{same_rows, sorted_by_name};

verus! {

/// The seconds that the timers linked to a project have run, all together;
/// `now` stands for the end of those still running.
pub fn total_duration(db: &Db, project_id: i32, now: i64) -> (r: i128)
    requires
        db.wf(),
        db.projects_timers@.len() < 0x8000_0000_0000_0000,
    ensures
        r == total_seconds_of(timers_of_owner(db.timers@, db.projects_timers@, project_id), now),
{
    proof {
        lemma_timers_of_owner_len(db.timers@, db.projects_timers@, project_id);
    }
    match Timers::for_project(db, project_id) {
        Ok(timers) => timers.total_seconds(now),
        Err(_) => 0,
    }
}

/// The projects of a summary, in order.
pub open spec fn summary_projects(rows: Seq<(Project, usize, i128)>) -> Seq<Project> {
    Seq::new(rows.len(), |i: int| rows[i].0)
}

/// Every project, ordered by name, with how many timers are linked to it
/// and how many seconds they have run together.
pub fn project_summary(db: &Db, now: i64) -> (r: Vec<(Project, usize, i128)>)
    requires
        db.wf(),
        db.projects_timers@.len() < 0x8000_0000_0000_0000,
    ensures
        same_rows(summary_projects(r@), db.projects@),
        sorted_by_name(summary_projects(r@)),
        forall|i: int|
            0 <= i < r@.len() ==> {
                let linked = timers_of_owner(db.timers@, db.projects_timers@, (#[trigger] r@[i]).0.id);
                r@[i].1 == linked.len() && r@[i].2 == total_seconds_of(linked, now)
            },
{
    let projects = match Projects::all(db) {
        Ok(ps) => ps.0,
        Err(_) => Vec::new(),
    };
    let mut out: Vec<(Project, usize, i128)> = Vec::new();
    let mut i: usize = 0;
    while i < projects.len()
        invariant
            i <= projects@.len(),
            db.wf(),
            db.projects_timers@.len() < 0x8000_0000_0000_0000,
            out@.len() == i,
            forall|k: int| 0 <= k < i ==> (#[trigger] out@[k]).0 == projects@[k],
            forall|k: int|
                0 <= k < i ==> {
                    let linked = timers_of_owner(db.timers@, db.projects_timers@, (#[trigger] out@[k]).0.id);
                    out@[k].1 == linked.len() && out@[k].2 == total_seconds_of(linked, now)
                },
        decreases projects@.len() - i,
    {
        let id = projects[i].id;
        let count = match Timers::for_project(db, id) {
            Ok(timers) => timers.len(),
            Err(_) => 0,
        };
        let total = total_duration(db, id, now);
        out.push((projects[i].clone(), count, total));
        i += 1;
    }
    assert(summary_projects(out@) =~= projects@);
    out
}

} // verus!
