//! Projects: the repository of the project table.

use vstd::prelude::*;

use crate::db::Db;
use crate::links::{find_owner, first_owner};
use crate::errors::{fails_with, AppError, AppResult, ErrorKind};
use crate::table::{
    appended, find_id, find_name, has_id, has_name, id_of_name, insert_name, lemma_id_of_name,
    next_id, rename_row, renamed, same_rows, sorted_by_name, sorted_copy, NamedRow,
};

verus! {

/// What inserting a project name does: nothing where a project has the
/// name, else one project with it is added at the end, under the next id.
pub open spec fn project_inserted(new: Db, old: Db, name: Seq<char>) -> bool {
    if has_name(old.projects@, name) {
        new.same_as(old)
    } else {
        appended(new.projects@, old.projects@, next_id(old.projects@), name) && new.same_but_projects(old)
    }
}

/// All projects, or a selection of them.
#[derive(Debug)]
pub struct Projects(pub Vec<Project>);

impl Projects {
    pub fn len(&self) -> (r: usize)
        ensures
            r == self.0@.len(),
    {
        self.0.len()
    }

    pub fn default() -> (r: Self)
        ensures
            r.0@.len() == 0,
    {
        Projects(Vec::new())
    }

    pub fn push(&mut self, project: Project)
        ensures
            final(self).0@ == old(self).0@.push(project),
    {
        self.0.push(project)
    }

    /// Every project, ordered by name.
    pub fn all(db: &Db) -> (r: AppResult<Projects>)
        requires
            db.wf(),
        ensures
            r is Ok,
            r matches Ok(ps) ==> same_rows(ps.0@, db.projects@) && sorted_by_name(ps.0@),
    {
        Ok(Projects(sorted_copy(&db.projects)))
    }
}

#[derive(Debug)]
pub struct Project {
    pub id: i32,
    pub name: String,
}

pub struct NewProject {
    pub name: String,
}

impl Clone for Project {
    fn clone(&self) -> (r: Self)
        ensures
            r == *self,
    {
        Project { id: self.id, name: self.name.clone() }
    }
}

impl NamedRow for Project {
    open spec fn row_id(&self) -> i32 {
        self.id
    }

    open spec fn row_name(&self) -> Seq<char> {
        self.name@
    }

    fn id_of(&self) -> (r: i32) {
        self.id
    }

    fn name_of(&self) -> (r: &String) {
        &self.name
    }

    fn make_row(id: i32, name: String) -> (r: Self) {
        Project { id, name }
    }

    fn copy_row(&self) -> (r: Self) {
        self.clone()
    }
}

impl Project {
    /// Makes sure a project with this name exists and returns its id, whether
    /// it was just created or was there before.
    pub fn insert_and_get_id(db: &mut Db, name: &str) -> (r: AppResult<i32>)
        requires
            old(db).wf(),
        ensures
            final(db).wf(),
            r is Ok ==> project_inserted(*final(db), *old(db), name@),
            has_name(old(db).projects@, name@) ==> r == Ok::<i32, AppError>(
                id_of_name(old(db).projects@, name@),
            ) && final(db).same_as(*old(db)),
            !has_name(old(db).projects@, name@) && next_id(old(db).projects@) <= i32::MAX ==> r
                == Ok::<i32, AppError>(next_id(old(db).projects@) as i32) && appended(
                final(db).projects@,
                old(db).projects@,
                next_id(old(db).projects@),
                name@,
            ) && final(db).same_but_projects(*old(db)),
            !has_name(old(db).projects@, name@) && next_id(old(db).projects@) > i32::MAX
                ==> fails_with(r, ErrorKind::Storage) && final(db).same_as(*old(db)),
    {
        Project::insert(db, name)?;
        let project = Project::find_by_name(db, name)?;
        Ok(project.id)
    }

    /// Creates a project with this name unless one exists; returns the number
    /// of rows written.
    pub fn insert(db: &mut Db, name: &str) -> (r: AppResult<usize>)
        requires
            old(db).wf(),
        ensures
            final(db).wf(),
            r is Ok ==> project_inserted(*final(db), *old(db), name@),
            has_name(old(db).projects@, name@) ==> r == Ok::<usize, AppError>(0) && final(db).same_as(*old(db)),
            !has_name(old(db).projects@, name@) && next_id(old(db).projects@) <= i32::MAX ==> r
                == Ok::<usize, AppError>(1) && appended(
                final(db).projects@,
                old(db).projects@,
                next_id(old(db).projects@),
                name@,
            ) && final(db).same_but_projects(*old(db)),
            !has_name(old(db).projects@, name@) && next_id(old(db).projects@) > i32::MAX
                ==> fails_with(r, ErrorKind::Storage) && final(db).same_as(*old(db)),
    {
        let name = name.to_string();
        let r = insert_name(&mut db.projects, &name);
        r
    }

    /// Renames this project. Fails with `NotFound` where no project has this
    /// one's name, and with `Conflict` where another project has the new name.
    pub fn update(&self, db: &mut Db, new_name: &str) -> (r: AppResult<()>)
        requires
            old(db).wf(),
        ensures
            final(db).wf(),
            final(db).same_but_projects(*old(db)),
            !has_name(old(db).projects@, self.name@) ==> fails_with(r, ErrorKind::NotFound)
                && final(db).same_as(*old(db)),
            has_name(old(db).projects@, self.name@) && self.name@ != new_name@ && has_name(
                old(db).projects@,
                new_name@,
            ) ==> fails_with(r, ErrorKind::Conflict) && final(db).same_as(*old(db)),
            has_name(old(db).projects@, self.name@) && (self.name@ == new_name@ || !has_name(
                old(db).projects@,
                new_name@,
            )) ==> r is Ok && renamed(final(db).projects@, old(db).projects@, self.name@, new_name@),
    {
        let new_name = new_name.to_string();
        let r = rename_row(&mut db.projects, &self.name, &new_name);
        r
    }

    /// The project with this name.
    pub fn find_by_name(db: &Db, name: &str) -> (r: AppResult<Project>)
        requires
            db.wf(),
        ensures
            has_name(db.projects@, name@) <==> r is Ok,
            !has_name(db.projects@, name@) ==> fails_with(r, ErrorKind::NotFound),
            r matches Ok(p) ==> db.projects@.contains(p) && p.name@ == name@ && p.id == id_of_name(
                db.projects@,
                name@,
            ),
    {
        let name = name.to_string();
        match find_name(&db.projects, &name) {
            Some(i) => {
                proof {
                    lemma_id_of_name(db.projects@, i as int);
                }
                Ok(db.projects[i].clone())
            },
            None => Err(AppError(ErrorKind::NotFound)),
        }
    }

    /// The project with this id.
    pub fn find(db: &Db, project_id: i32) -> (r: AppResult<Project>)
        requires
            db.wf(),
        ensures
            has_id(db.projects@, project_id) <==> r is Ok,
            !has_id(db.projects@, project_id) ==> fails_with(r, ErrorKind::NotFound),
            r matches Ok(p) ==> db.projects@.contains(p) && p.id == project_id,
    {
        match find_id(&db.projects, project_id) {
            Some(i) => Ok(db.projects[i].clone()),
            None => Err(AppError(ErrorKind::NotFound)),
        }
    }

    /// The project that a timer is linked to: the first link of the timer
    /// names it.
    pub fn for_timer(db: &Db, timer_id: i32) -> (r: AppResult<Project>)
        requires
            db.wf(),
        ensures
            r is Ok <==> (first_owner(db.projects_timers@, timer_id) matches Some(pid) && has_id(
                db.projects@,
                pid,
            )),
            r is Err ==> fails_with(r, ErrorKind::NotFound),
            r matches Ok(p) ==> db.projects@.contains(p) && Some(p.id) == first_owner(
                db.projects_timers@,
                timer_id,
            ),
    {
        match find_owner(&db.projects_timers, timer_id) {
            Some(project_id) => Project::find(db, project_id),
            None => Err(AppError(ErrorKind::NotFound)),
        }
    }
}

} // verus!
