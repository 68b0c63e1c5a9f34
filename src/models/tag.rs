//! Tags: the repository of the tag table.

use vstd::prelude::*;

use crate::db::Db;
use crate::utils::string_views;
use crate::errors::{fails_with, AppError, AppResult, ErrorKind};
use crate::table::{
    find_name, has_name, id_of_name, insert_name, lemma_id_of_name, linked_rows, next_id,
    rename_row, renamed, rows_of_timer, same_rows, sorted_by_name, sorted_copy, appended,
    NamedRow,
};

verus! {

/// The tags whose names occur in the list, in the table's order.
pub open spec fn tags_named(tags: Seq<Tag>, names: Seq<Seq<char>>) -> Seq<Tag> {
    tags.filter(|t: Tag| names.contains(t.name@))
}

/// Each tag so selected is a tag of the table, with a listed name.
pub proof fn lemma_tags_named_member(tags: Seq<Tag>, names: Seq<Seq<char>>, k: int)
    requires
        0 <= k < tags_named(tags, names).len(),
    ensures
        tags.contains(tags_named(tags, names)[k]),
        names.contains(tags_named(tags, names)[k].name@),
{
    broadcast use vstd::seq_lib::group_filter_ensures;

    let f = |t: Tag| names.contains(t.name@);
    let x = tags.filter(f)[k];
    assert(tags.filter(f).contains(x));
    tags.lemma_filter_contains_rev(f, x);
}

/// The names of the tags, in order.
pub open spec fn names_of_tags(tags: Seq<Tag>) -> Seq<Seq<char>> {
    Seq::new(tags.len(), |i: int| tags[i].name@)
}

/// The ids of the tags, in order.
pub open spec fn ids_of_tags(tags: Seq<Tag>) -> Seq<i32> {
    tags.map_values(|t: Tag| t.id)
}

/// Whether the name occurs in the list.
pub fn is_listed(names: &Vec<String>, name: &String) -> (r: bool)
    ensures
        r == string_views(names@).contains(name@),
{
    let mut k: usize = 0;
    while k < names.len()
        invariant
            k <= names.len(),
            forall|j: int| 0 <= j < k ==> names@[j]@ != name@,
        decreases names.len() - k,
    {
        if names[k] == *name {
            assert(string_views(names@)[k as int] == name@);
            return true;
        }
        k += 1;
    }
    false
}

/// What inserting a batch of tag names does: the tags table keeps its rows
/// and gains, at its end, a row for each listed name it lacked; every listed
/// name then has a tag, and the ids are those of the tags so named.
pub open spec fn tags_batch_inserted(new: Db, old: Db, names: Seq<Seq<char>>, ids: Seq<i32>) -> bool {
    &&& new.tags@.len() >= old.tags@.len()
    &&& new.tags@.take(old.tags@.len() as int) == old.tags@
    &&& forall|k: int|
        old.tags@.len() <= k < new.tags@.len() ==> names.contains(#[trigger] new.tags@[k].name@)
            && !has_name(old.tags@, new.tags@[k].name@)
    &&& forall|j: int| 0 <= j < names.len() ==> has_name(new.tags@, #[trigger] names[j])
    &&& ids == ids_of_tags(tags_named(new.tags@, names))
}

/// Tags, as a list.
#[derive(Debug)]
pub struct Tags(pub Vec<Tag>);

impl Tags {
    pub fn len(&self) -> (r: usize)
        ensures
            r == self.0@.len(),
    {
        self.0.len()
    }

    /// The ids of the tags, in order.
    pub fn ids(&self) -> (r: AppResult<Vec<i32>>)
        ensures
            r matches Ok(ids) && ids@ == ids_of_tags(self.0@),
    {
        let mut ids: Vec<i32> = Vec::new();
        let mut i: usize = 0;
        while i < self.0.len()
            invariant
                i <= self.0@.len(),
                ids@ == ids_of_tags(self.0@.take(i as int)),
            decreases self.0@.len() - i,
        {
            ids.push(self.0[i].id);
            assert(self.0@.take(i as int + 1) =~= self.0@.take(i as int).push(self.0@[i as int]));
            assert(ids@ =~= ids_of_tags(self.0@.take(i as int + 1)));
            i += 1;
        }
        assert(self.0@.take(i as int) =~= self.0@);
        Ok(ids)
    }

    /// The names of the tags, in order.
    pub fn names(self) -> (r: Vec<String>)
        ensures
            r@.len() == self.0@.len(),
            forall|i: int| 0 <= i < r@.len() ==> r@[i] == #[trigger] self.0@[i].name,
    {
        let mut names: Vec<String> = Vec::new();
        let mut i: usize = 0;
        while i < self.0.len()
            invariant
                i <= self.0@.len(),
                names@.len() == i,
                forall|j: int| 0 <= j < i ==> names@[j] == #[trigger] self.0@[j].name,
            decreases self.0@.len() - i,
        {
            names.push(self.0[i].name.clone());
            i += 1;
        }
        names
    }

    pub fn new(tags: Vec<Tag>) -> (r: Self)
        ensures
            r.0 == tags,
    {
        Tags(tags)
    }

    pub fn default() -> (r: Self)
        ensures
            r.0@.len() == 0,
    {
        Tags(Vec::new())
    }

    /// Every tag, ordered by name.
    pub fn all(db: &Db) -> (r: AppResult<Self>)
        requires
            db.wf(),
        ensures
            r is Ok,
            r matches Ok(ts) ==> same_rows(ts.0@, db.tags@) && sorted_by_name(ts.0@),
    {
        Ok(Tags(sorted_copy(&db.tags)))
    }

    /// The tags whose names occur in `names`, in the table's order.
    pub fn load(db: &Db, names: Vec<String>) -> (r: AppResult<Self>)
        requires
            db.wf(),
        ensures
            r matches Ok(ts) && ts.0@ == tags_named(db.tags@, string_views(names@)),
    {
        let ghost f = |t: Tag| string_views(names@).contains(t.name@);
        let mut out: Vec<Tag> = Vec::new();
        let mut i: usize = 0;
        while i < db.tags.len()
            invariant
                i <= db.tags@.len(),
                f == (|t: Tag| string_views(names@).contains(t.name@)),
                out@ == db.tags@.take(i as int).filter(f),
            decreases db.tags@.len() - i,
        {
            let ghost taken = db.tags@.take(i as int);
            assert(db.tags@.take(i as int + 1) =~= taken.push(db.tags@[i as int]));
            proof {
                taken.lemma_filter_push(db.tags@[i as int], f);
            }
            if is_listed(&names, &db.tags[i].name) {
                out.push(db.tags[i].clone());
            }
            i += 1;
        }
        assert(db.tags@.take(i as int) =~= db.tags@);
        Ok(Tags::new(out))
    }

    /// The tags linked to a timer, one for each of its links, in the link
    /// table's order.
    pub fn for_timer(db: &Db, timer_id: i32) -> (r: AppResult<Self>)
        requires
            db.wf(),
        ensures
            r matches Ok(ts) && ts.0@ == rows_of_timer(db.tags@, db.tags_timers@, timer_id),
    {
        Ok(Tags(linked_rows(&db.tags, &db.tags_timers, timer_id)))
    }
}

#[derive(Debug)]
pub struct Tag {
    pub id: i32,
    pub name: String,
}

impl Clone for Tag {
    fn clone(&self) -> (r: Self)
        ensures
            r == *self,
    {
        Tag { id: self.id, name: self.name.clone() }
    }
}

impl NamedRow for Tag {
    open spec fn row_id(&self) -> i32 {
        self.id
    }

    open spec fn row_name(&self) -> Seq<char> {
        self.name@
    }

    fn id_of(&self) -> (r: i32) {
        self.id
    }

    fn name_of(&self) -> (r: &String) {
        &self.name
    }

    fn make_row(id: i32, name: String) -> (r: Self) {
        Tag { id, name }
    }

    fn copy_row(&self) -> (r: Self) {
        self.clone()
    }
}

impl Tag {
    /// Creates, all at once, a tag for each listed name that has none, then
    /// returns the ids of the tags so named (in the table's order). Fails with
    /// `Storage`, writing nothing, where the ids run out.
    pub fn batch_insert(db: &mut Db, names: Vec<String>) -> (r: AppResult<Vec<i32>>)
        requires
            old(db).wf(),
        ensures
            final(db).wf(),
            final(db).same_but_tags(*old(db)),
            next_id(old(db).tags@) + names@.len() <= i32::MAX + 1 ==> r is Ok,
            r is Err ==> fails_with(r, ErrorKind::Storage) && final(db).same_as(*old(db)),
            r matches Ok(ids) ==> tags_batch_inserted(*final(db), *old(db), string_views(names@), ids@),
    {
        let ghost start = db.tags@;
        let old_len = db.tags.len();
        let mut i: usize = 0;
        while i < names.len()
            invariant
                i <= names@.len(),
                old_len == start.len(),
                old(db).wf(),
                db.wf(),
                db.same_but_tags(*old(db)),
                start == old(db).tags@,
                db.tags@.len() >= old_len,
                db.tags@.len() - old_len <= i,
                db.tags@.take(old_len as int) == start,
                forall|k: int|
                    old_len <= k < db.tags@.len() ==> #[trigger] db.tags@[k].id == next_id(start) + (k
                        - old_len),
                forall|k: int|
                    old_len <= k < db.tags@.len() ==> string_views(names@).contains(#[trigger] db.tags@[k].name@)
                        && !has_name(start, db.tags@[k].name@),
                forall|j: int| 0 <= j < i ==> has_name(db.tags@, #[trigger] string_views(names@)[j]),
            decreases names@.len() - i,
        {
            let ghost before = db.tags@;
            assert(next_id(before) == next_id(start) + (before.len() - old_len)) by {
                if before.len() > old_len {
                    assert(before.last() == before[before.len() - 1]);
                } else {
                    assert(before =~= before.take(old_len as int));
                }
            }
            match insert_name(&mut db.tags, &names[i]) {
                Ok(_) => {},
                Err(e) => {
                    db.tags.truncate(old_len);
                    assert(db.tags@ =~= start);
                    proof {
                        Db::lemma_wf_same(*db, *old(db));
                    }
                    return Err(e);
                },
            }
            proof {
                if db.tags@ != before {
                    assert(db.tags@.drop_last() == before);
                    assert forall|k: int| 0 <= k < before.len() implies db.tags@[k] == before[k] by {
                        assert(db.tags@.drop_last()[k] == db.tags@[k]);
                    }
                    assert(db.tags@.take(old_len as int) =~= start);
                    let n = db.tags@.last();
                    assert(string_views(names@).contains(n.name@)) by {
                        assert(string_views(names@)[i as int] == n.name@);
                    }
                    assert(!has_name(start, n.name@)) by {
                        if has_name(start, n.name@) {
                            let w = choose|w: int| 0 <= w < start.len() && start[w].row_name() == n.name@;
                            assert(before.take(old_len as int)[w] == before[w]);
                        }
                    }
                    assert forall|k: int| old_len <= k < db.tags@.len() implies #[trigger] db.tags@[k].id
                        == next_id(start) + (k - old_len) && string_views(names@).contains(db.tags@[k].name@)
                        && !has_name(start, db.tags@[k].name@) by {
                        if k < before.len() {
                            assert(db.tags@[k] == before[k]);
                        }
                    }
                    assert forall|j: int| 0 <= j < i + 1 implies has_name(db.tags@, #[trigger] string_views(names@)[j]) by {
                        if j < i {
                            let w = choose|w: int| 0 <= w < before.len() && before[w].row_name() == string_views(names@)[j];
                            assert(db.tags@[w] == before[w]);
                        } else {
                            assert(db.tags@[db.tags@.len() - 1].row_name() == string_views(names@)[j]);
                        }
                    }
                } else {
                    assert(has_name(db.tags@, string_views(names@)[i as int]));
                }
            }
            i += 1;
        }
        let tags = Tags::load(db, names)?;
        tags.ids()
    }

    /// Creates a tag with this name unless one exists; returns the number
    /// of rows written.
    pub fn insert(db: &mut Db, name: &str) -> (r: AppResult<usize>)
        requires
            old(db).wf(),
        ensures
            final(db).wf(),
            has_name(old(db).tags@, name@) ==> r == Ok::<usize, AppError>(0) && final(db).same_as(*old(db)),
            !has_name(old(db).tags@, name@) && next_id(old(db).tags@) <= i32::MAX ==> r
                == Ok::<usize, AppError>(1) && appended(
                final(db).tags@,
                old(db).tags@,
                next_id(old(db).tags@),
                name@,
            ) && final(db).same_but_tags(*old(db)),
            !has_name(old(db).tags@, name@) && next_id(old(db).tags@) > i32::MAX
                ==> fails_with(r, ErrorKind::Storage) && final(db).same_as(*old(db)),
    {
        let name = name.to_string();
        let r = insert_name(&mut db.tags, &name);
        r
    }

    /// Renames this tag. Fails with `NotFound` where no tag has this
    /// one's name, and with `Conflict` where another tag has the new name.
    pub fn update(&self, db: &mut Db, new_name: &str) -> (r: AppResult<()>)
        requires
            old(db).wf(),
        ensures
            final(db).wf(),
            final(db).same_but_tags(*old(db)),
            !has_name(old(db).tags@, self.name@) ==> fails_with(r, ErrorKind::NotFound)
                && final(db).same_as(*old(db)),
            has_name(old(db).tags@, self.name@) && self.name@ != new_name@ && has_name(
                old(db).tags@,
                new_name@,
            ) ==> fails_with(r, ErrorKind::Conflict) && final(db).same_as(*old(db)),
            has_name(old(db).tags@, self.name@) && (self.name@ == new_name@ || !has_name(
                old(db).tags@,
                new_name@,
            )) ==> r is Ok && renamed(final(db).tags@, old(db).tags@, self.name@, new_name@),
    {
        let new_name = new_name.to_string();
        let r = rename_row(&mut db.tags, &self.name, &new_name);
        r
    }

    /// The tag with this name.
    pub fn find_by_name(db: &Db, name: &str) -> (r: AppResult<Tag>)
        requires
            db.wf(),
        ensures
            has_name(db.tags@, name@) <==> r is Ok,
            !has_name(db.tags@, name@) ==> fails_with(r, ErrorKind::NotFound),
            r matches Ok(p) ==> db.tags@.contains(p) && p.name@ == name@ && p.id == id_of_name(
                db.tags@,
                name@,
            ),
    {
        let name = name.to_string();
        match find_name(&db.tags, &name) {
            Some(i) => {
                proof {
                    lemma_id_of_name(db.tags@, i as int);
                }
                Ok(db.tags[i].clone())
            },
            None => Err(AppError(ErrorKind::NotFound)),
        }
    }
}

} // verus!
