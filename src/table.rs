//! Tables of rows keyed by an id and a unique name, and the operations
//! that projects and tags share: lookup, insert-if-absent, rename, removal
//! and listing by name.

use vstd::prelude::*;

use crate::errors::{fails_with, AppError, AppResult, ErrorKind};

verus! {

/// A row of a table keyed by a surrogate id and by a unique name: a project
/// or a tag.
pub trait NamedRow: Sized {
    spec fn row_id(&self) -> i32;

    spec fn row_name(&self) -> Seq<char>;

    fn id_of(&self) -> (r: i32)
        ensures
            r == self.row_id(),
    ;

    fn name_of(&self) -> (r: &String)
        ensures
            r@ == self.row_name(),
    ;

    fn make_row(id: i32, name: String) -> (r: Self)
        ensures
            r.row_id() == id,
            r.row_name() == name@,
    ;

    fn copy_row(&self) -> (r: Self)
        ensures
            r == *self,
    ;
}

/// Ids grow strictly from the first row to the last, as a store hands them out.
pub open spec fn ids_ascending<T: NamedRow>(rows: Seq<T>) -> bool {
    forall|i: int, j: int| 0 <= i < j < rows.len() ==> rows[i].row_id() < rows[j].row_id()
}

/// No two rows share a name.
pub open spec fn names_unique<T: NamedRow>(rows: Seq<T>) -> bool {
    forall|i: int, j: int|
        0 <= i < rows.len() && 0 <= j < rows.len() && i != j ==> rows[i].row_name()
            != rows[j].row_name()
}

pub open spec fn table_wf<T: NamedRow>(rows: Seq<T>) -> bool {
    ids_ascending(rows) && names_unique(rows)
}

pub open spec fn has_name<T: NamedRow>(rows: Seq<T>, name: Seq<char>) -> bool {
    exists|i: int| 0 <= i < rows.len() && rows[i].row_name() == name
}

pub open spec fn has_id<T: NamedRow>(rows: Seq<T>, id: i32) -> bool {
    exists|i: int| 0 <= i < rows.len() && rows[i].row_id() == id
}

/// The id the next inserted row receives: one past the largest id in use.
pub open spec fn next_id<T: NamedRow>(rows: Seq<T>) -> int {
    if rows.len() == 0 {
        1
    } else {
        rows.last().row_id() + 1
    }
}

/// `new` is `old` with one more row at the end, with the given id and name.
pub open spec fn appended<T: NamedRow>(new: Seq<T>, old: Seq<T>, id: int, name: Seq<char>) -> bool {
    &&& new.len() == old.len() + 1
    &&& new.drop_last() == old
    &&& new.last().row_id() == id
    &&& new.last().row_name() == name
}

/// Exactly one row has the name.
pub open spec fn named_once<T: NamedRow>(rows: Seq<T>, name: Seq<char>) -> bool {
    exists|i: int|
        0 <= i < rows.len() && rows[i].row_name() == name && forall|j: int|
            0 <= j < rows.len() && rows[j].row_name() == name ==> j == i
}

/// A name that some row has, in a table with unique names, is had once.
pub proof fn lemma_named_once<T: NamedRow>(rows: Seq<T>, name: Seq<char>)
    requires
        names_unique(rows),
        has_name(rows, name),
    ensures
        named_once(rows, name),
{
    let i = choose|i: int| 0 <= i < rows.len() && rows[i].row_name() == name;
    assert forall|j: int| 0 <= j < rows.len() && rows[j].row_name() == name implies j == i by {
        if j != i {
            assert(rows[j].row_name() != rows[i].row_name());
        }
    }
}

/// The id of the row with the given name (meaningful where there is one).
pub open spec fn id_of_name<T: NamedRow>(rows: Seq<T>, name: Seq<char>) -> i32 {
    rows[choose|i: int| 0 <= i < rows.len() && rows[i].row_name() == name].row_id()
}

pub proof fn lemma_id_of_name<T: NamedRow>(rows: Seq<T>, i: int)
    requires
        names_unique(rows),
        0 <= i < rows.len(),
    ensures
        has_name(rows, rows[i].row_name()),
        id_of_name(rows, rows[i].row_name()) == rows[i].row_id(),
{
    let name = rows[i].row_name();
    assert(has_name(rows, name));
    let k = choose|k: int| 0 <= k < rows.len() && rows[k].row_name() == name;
    assert(k == i);
}

/// The position of the row with the given name.
pub fn find_name<T: NamedRow>(rows: &Vec<T>, name: &String) -> (r: Option<usize>)
    ensures
        match r {
            Some(i) => i < rows.len() && rows@[i as int].row_name() == name@,
            None => !has_name(rows@, name@),
        },
{
    let mut i: usize = 0;
    while i < rows.len()
        invariant
            i <= rows.len(),
            forall|j: int| 0 <= j < i ==> rows@[j].row_name() != name@,
        decreases rows.len() - i,
    {
        if *rows[i].name_of() == *name {
            return Some(i);
        }
        i += 1;
    }
    None
}

/// The position of the row with the given id.
pub fn find_id<T: NamedRow>(rows: &Vec<T>, id: i32) -> (r: Option<usize>)
    ensures
        match r {
            Some(i) => i < rows.len() && rows@[i as int].row_id() == id,
            None => !has_id(rows@, id),
        },
{
    let mut i: usize = 0;
    while i < rows.len()
        invariant
            i <= rows.len(),
            forall|j: int| 0 <= j < i ==> rows@[j].row_id() != id,
        decreases rows.len() - i,
    {
        if rows[i].id_of() == id {
            return Some(i);
        }
        i += 1;
    }
    None
}

/// The id one past the last row's, or `None` where it would not fit an `i32`.
pub fn fresh_id<T: NamedRow>(rows: &Vec<T>) -> (r: Option<i32>)
    ensures
        match r {
            Some(id) => id == next_id(rows@),
            None => next_id(rows@) > i32::MAX,
        },
{
    if rows.len() == 0 {
        Some(1)
    } else {
        let last = rows[rows.len() - 1].id_of();
        if last == i32::MAX {
            None
        } else {
            Some(last + 1)
        }
    }
}

/// Inserts a row with the given name unless one exists; returns how many rows
/// were written.
pub fn insert_name<T: NamedRow>(rows: &mut Vec<T>, name: &String) -> (r: AppResult<usize>)
    requires
        table_wf(old(rows)@),
    ensures
        table_wf(final(rows)@),
        has_name(old(rows)@, name@) ==> r == Ok::<usize, AppError>(0) && final(rows)@ == old(rows)@,
        !has_name(old(rows)@, name@) && next_id(old(rows)@) <= i32::MAX ==> r == Ok::<usize, AppError>(1)
            && appended(final(rows)@, old(rows)@, next_id(old(rows)@), name@),
        !has_name(old(rows)@, name@) && next_id(old(rows)@) > i32::MAX ==> fails_with(r, ErrorKind::Storage)
            && final(rows)@ == old(rows)@,
{
    match find_name(rows, name) {
        Some(_) => Ok(0),
        None => match fresh_id(rows) {
            None => Err(AppError(ErrorKind::Storage)),
            Some(id) => {
                let ghost before = rows@;
                rows.push(T::make_row(id, name.clone()));
                assert(rows@.drop_last() =~= before);
                Ok(1)
            },
        },
    }
}

/// `new` is `old` with the row named `from` renamed to `to`, all else kept.
pub open spec fn renamed<T: NamedRow>(new: Seq<T>, old: Seq<T>, from: Seq<char>, to: Seq<char>) -> bool {
    exists|i: int|
        0 <= i < old.len() && old[i].row_name() == from && new.len() == old.len() && new[i].row_id()
            == old[i].row_id() && new[i].row_name() == to && forall|j: int|
            0 <= j < old.len() && j != i ==> new[j] == old[j]
}

/// Gives the row named `old_name` the name `new_name`. Fails with `NotFound`
/// where no row has the old name, and with `Conflict` where another row already
/// has the new one.
pub fn rename_row<T: NamedRow>(rows: &mut Vec<T>, old_name: &String, new_name: &String) -> (r: AppResult<()>)
    requires
        table_wf(old(rows)@),
    ensures
        table_wf(final(rows)@),
        !has_name(old(rows)@, old_name@) ==> fails_with(r, ErrorKind::NotFound) && final(rows)@ == old(rows)@,
        has_name(old(rows)@, old_name@) && old_name@ != new_name@ && has_name(old(rows)@, new_name@)
            ==> fails_with(r, ErrorKind::Conflict) && final(rows)@ == old(rows)@,
        has_name(old(rows)@, old_name@) && (old_name@ == new_name@ || !has_name(old(rows)@, new_name@))
            ==> r is Ok && renamed(final(rows)@, old(rows)@, old_name@, new_name@),
{
    let i = match find_name(rows, old_name) {
        None => return Err(AppError(ErrorKind::NotFound)),
        Some(i) => i,
    };
    if *old_name != *new_name {
        if find_name(rows, new_name).is_some() {
            return Err(AppError(ErrorKind::Conflict));
        }
    }
    let ghost before = rows@;
    let row = T::make_row(rows[i].id_of(), new_name.clone());
    rows.set(i, row);
    assert(renamed(rows@, before, old_name@, new_name@)) by {
        assert(0 <= i < before.len() && before[i as int].row_name() == old_name@);
    }
    assert(names_unique(rows@)) by {
        assert forall|a: int, b: int|
            0 <= a < rows@.len() && 0 <= b < rows@.len() && a != b implies rows@[a].row_name()
            != rows@[b].row_name() by {
            if a == i {
                assert(rows@[b] == before[b]);
            } else if b == i {
                assert(rows@[a] == before[a]);
            }
        }
    }
    Ok(())
}

/// `a` and `b` agree before place `k`, and there `a` ends while `b` goes on, or
/// `a` holds the smaller character.
pub open spec fn differ_first_at(a: Seq<char>, b: Seq<char>, k: int) -> bool {
    &&& 0 <= k <= a.len()
    &&& k <= b.len()
    &&& forall|j: int| 0 <= j < k ==> a[j] == b[j]
    &&& (k == a.len() && k < b.len()) || (k < a.len() && k < b.len() && (a[k] as int) < (
    b[k] as int))
}

/// `a` comes before `b` in code-point order: at the first place where they
/// differ `a` holds the smaller character, or `a` is a proper prefix of `b`.
pub open spec fn name_lt(a: Seq<char>, b: Seq<char>) -> bool {
    exists|k: int| differ_first_at(a, b, k)
}

proof fn lemma_name_lt_at(a: Seq<char>, b: Seq<char>, k: int)
    requires
        differ_first_at(a, b, k),
    ensures
        name_lt(a, b),
{
}

/// Orders two names by code point, as a byte-wise comparison of their UTF-8
/// encodings does.
pub fn compare_names(a: &String, b: &String) -> (r: core::cmp::Ordering)
    ensures
        r == core::cmp::Ordering::Less ==> name_lt(a@, b@),
        r == core::cmp::Ordering::Greater ==> name_lt(b@, a@),
        r == core::cmp::Ordering::Equal <==> a@ == b@,
{
    let la = a.as_str().unicode_len();
    let lb = b.as_str().unicode_len();
    let mut i: usize = 0;
    while i < la && i < lb
        invariant
            la == a@.len(),
            lb == b@.len(),
            i <= la,
            i <= lb,
            forall|j: int| 0 <= j < i ==> a@[j] == b@[j],
        decreases la - i,
    {
        let ca = a.as_str().get_char(i);
        let cb = b.as_str().get_char(i);
        if ca != cb {
            if (ca as u32) < (cb as u32) {
                assert((ca as int) < (cb as int));
                proof {
                    lemma_name_lt_at(a@, b@, i as int);
                }
                return core::cmp::Ordering::Less;
            } else {
                assert((cb as int) < (ca as int));
                proof {
                    lemma_name_lt_at(b@, a@, i as int);
                }
                return core::cmp::Ordering::Greater;
            }
        }
        i += 1;
    }
    if la < lb {
        proof {
            lemma_name_lt_at(a@, b@, i as int);
        }
        core::cmp::Ordering::Less
    } else if lb < la {
        proof {
            lemma_name_lt_at(b@, a@, i as int);
        }
        core::cmp::Ordering::Greater
    } else {
        assert(a@ =~= b@);
        core::cmp::Ordering::Equal
    }
}

/// Each row's name comes before the next one's.
pub open spec fn sorted_by_name<T: NamedRow>(rows: Seq<T>) -> bool {
    forall|i: int| 0 <= i < rows.len() - 1 ==> name_lt(#[trigger] rows[i].row_name(), rows[i + 1].row_name())
}

pub open spec fn same_row<T: NamedRow>(a: T, b: T) -> bool {
    a.row_id() == b.row_id() && a.row_name() == b.row_name()
}

pub open spec fn holds_row<T: NamedRow>(rows: Seq<T>, x: T) -> bool {
    exists|i: int| 0 <= i < rows.len() && same_row(rows[i], x)
}

/// The two sequences hold the same rows, each once.
pub open spec fn same_rows<T: NamedRow>(a: Seq<T>, b: Seq<T>) -> bool {
    &&& a.len() == b.len()
    &&& forall|i: int| 0 <= i < a.len() ==> holds_row(b, #[trigger] a[i])
    &&& forall|j: int| 0 <= j < b.len() ==> holds_row(a, #[trigger] b[j])
}

/// Copies of the rows, ordered by name.
pub fn sorted_copy<T: NamedRow>(rows: &Vec<T>) -> (r: Vec<T>)
    requires
        names_unique(rows@),
    ensures
        same_rows(r@, rows@),
        sorted_by_name(r@),
{
    let mut out: Vec<T> = Vec::new();
    let mut k: usize = 0;
    while k < rows.len()
        invariant
            k <= rows.len(),
            out.len() == k,
            names_unique(rows@),
            sorted_by_name(out@),
            forall|i: int| 0 <= i < out.len() ==> holds_row(rows@.take(k as int), #[trigger] out@[i]),
            forall|j: int| 0 <= j < k ==> holds_row(out@, #[trigger] rows@[j]),
        decreases rows.len() - k,
    {
        let x = rows[k].copy_row();
        let mut p: usize = 0;
        loop
            invariant
                p <= out.len(),
                p > 0 ==> name_lt(out@[p - 1].row_name(), x.row_name()),
            ensures
                p <= out.len(),
                p > 0 ==> name_lt(out@[p - 1].row_name(), x.row_name()),
                p < out.len() ==> name_lt(x.row_name(), out@[p as int].row_name())
                    || x.row_name() == out@[p as int].row_name(),
            decreases out.len() - p,
        {
            if p == out.len() {
                break;
            }
            let c = compare_names(out[p].name_of(), x.name_of());
            match c {
                core::cmp::Ordering::Less => {
                    p += 1;
                },
                _ => {
                    break;
                },
            }
        }
        if p < out.len() {
            assert(x.row_name() != out@[p as int].row_name()) by {
                let i = p as int;
                let j = choose|j: int| 0 <= j < k && same_row(rows@.take(k as int)[j], out@[i]);
                assert(holds_row(rows@.take(k as int), out@[i]));
                assert(rows@[j].row_name() != rows@[k as int].row_name());
            }
        }
        let ghost before = out@;
        out.insert(p, x);
        proof {
            before.insert_ensures(p as int, x);
            let take1 = rows@.take(k as int + 1);
            assert forall|i: int| 0 <= i < out.len() implies holds_row(take1, #[trigger] out@[i]) by {
                if i == p {
                    assert(same_row(take1[k as int], out@[i]));
                } else {
                    let o = if i < p { i } else { i - 1 };
                    assert(out@[i] == before[o]);
                    assert(holds_row(rows@.take(k as int), before[o]));
                    let j = choose|j: int| 0 <= j < k && same_row(rows@.take(k as int)[j], before[o]);
                    assert(same_row(take1[j], out@[i]));
                }
            }
            assert forall|j: int| 0 <= j < k + 1 implies holds_row(out@, #[trigger] rows@[j]) by {
                if j == k {
                    assert(same_row(out@[p as int], rows@[j]));
                } else {
                    assert(holds_row(before, rows@[j]));
                    let o = choose|o: int| 0 <= o < before.len() && same_row(before[o], rows@[j]);
                    if o < p {
                        assert(same_row(out@[o], rows@[j]));
                    } else {
                        assert(same_row(out@[o + 1], rows@[j]));
                    }
                }
            }
            assert forall|i: int| 0 <= i < out.len() - 1 implies name_lt(
                #[trigger] out@[i].row_name(),
                out@[i + 1].row_name(),
            ) by {
                if i + 1 < p {
                    assert(name_lt(before[i].row_name(), before[i + 1].row_name()));
                } else if i + 1 == p {
                } else if i == p {
                } else {
                    assert(name_lt(before[i - 1].row_name(), before[i].row_name()));
                }
            }
        }
        k += 1;
    }
    assert(rows@.take(rows.len() as int) =~= rows@);
    out
}

/// The row with the given id, if there is one.
pub open spec fn row_by_id<T: NamedRow>(rows: Seq<T>, id: i32) -> Option<T> {
    if has_id(rows, id) {
        Some(rows[choose|i: int| 0 <= i < rows.len() && rows[i].row_id() == id])
    } else {
        None
    }
}

pub proof fn lemma_row_by_id<T: NamedRow>(rows: Seq<T>, i: int)
    requires
        ids_ascending(rows),
        0 <= i < rows.len(),
    ensures
        row_by_id(rows, rows[i].row_id()) == Some(rows[i]),
{
    let id = rows[i].row_id();
    assert(has_id(rows, id));
    let k = choose|k: int| 0 <= k < rows.len() && rows[k].row_id() == id;
    if k < i {
        assert(rows[k].row_id() < rows[i].row_id());
    } else if i < k {
        assert(rows[i].row_id() < rows[k].row_id());
    }
}

/// What a link table yields for one timer: for each link of the timer, in
/// the table's order, the row it points to, where that row exists.
pub open spec fn rows_of_timer<T: NamedRow>(rows: Seq<T>, links: Seq<(i32, i32)>, timer_id: i32) -> Seq<T>
    decreases links.len(),
{
    if links.len() == 0 {
        Seq::empty()
    } else {
        let rest = rows_of_timer(rows, links.drop_last(), timer_id);
        let l = links.last();
        if l.1 == timer_id {
            match row_by_id(rows, l.0) {
                Some(row) => rest.push(row),
                None => rest,
            }
        } else {
            rest
        }
    }
}

/// The rows that the links of one timer point to.
pub fn linked_rows<T: NamedRow>(rows: &Vec<T>, links: &Vec<(i32, i32)>, timer_id: i32) -> (r: Vec<T>)
    requires
        ids_ascending(rows@),
    ensures
        r@ == rows_of_timer(rows@, links@, timer_id),
{
    let mut out: Vec<T> = Vec::new();
    let mut i: usize = 0;
    while i < links.len()
        invariant
            i <= links.len(),
            ids_ascending(rows@),
            out@ == rows_of_timer(rows@, links@.take(i as int), timer_id),
        decreases links.len() - i,
    {
        let (owner, timer) = links[i];
        assert(links@.take(i as int + 1).drop_last() =~= links@.take(i as int));
        if timer == timer_id {
            match find_id(rows, owner) {
                Some(k) => {
                    proof {
                        lemma_row_by_id(rows@, k as int);
                    }
                    out.push(rows[k].copy_row());
                },
                None => {},
            }
        }
        i += 1;
    }
    assert(links@.take(links.len() as int) =~= links@);
    out
}

/// Removes the row at position `i`.
pub fn remove_row<T: NamedRow>(rows: &mut Vec<T>, i: usize)
    requires
        table_wf(old(rows)@),
        i < old(rows)@.len(),
    ensures
        table_wf(final(rows)@),
        final(rows)@ == old(rows)@.remove(i as int),
{
    let ghost before = rows@;
    rows.remove(i);
    proof {
        before.remove_ensures(i as int);
        assert forall|a: int, b: int| 0 <= a < b < rows@.len() implies rows@[a].row_id()
            < rows@[b].row_id() by {
            let a0 = if a < i { a } else { a + 1 };
            let b0 = if b < i { b } else { b + 1 };
            assert(rows@[a] == before[a0]);
            assert(rows@[b] == before[b0]);
        }
        assert forall|a: int, b: int|
            0 <= a < rows@.len() && 0 <= b < rows@.len() && a != b implies rows@[a].row_name()
            != rows@[b].row_name() by {
            let a0 = if a < i { a } else { a + 1 };
            let b0 = if b < i { b } else { b + 1 };
            assert(rows@[a] == before[a0]);
            assert(rows@[b] == before[b0]);
        }
    }
}

/// Whether the rows keep the table's rules.
pub fn check_table<T: NamedRow>(rows: &Vec<T>) -> (r: bool)
    ensures
        r == table_wf(rows@),
{
    let n = rows.len();
    let mut a: usize = 0;
    while a < n
        invariant
            n == rows@.len(),
            a <= n,
            forall|x: int, y: int|
                0 <= x < a && x < y < n ==> rows@[x].row_id() < rows@[y].row_id() && rows@[x].row_name()
                    != rows@[y].row_name(),
        decreases n - a,
    {
        let mut b: usize = a + 1;
        while b < n
            invariant
                n == rows@.len(),
                a < n,
                a + 1 <= b <= n,
                forall|x: int, y: int|
                    0 <= x < a && x < y < n ==> rows@[x].row_id() < rows@[y].row_id()
                        && rows@[x].row_name() != rows@[y].row_name(),
                forall|y: int|
                    a < y < b ==> rows@[a as int].row_id() < rows@[y].row_id() && rows@[a as int].row_name()
                        != rows@[y].row_name(),
            decreases n - b,
        {
            if rows[a].id_of() >= rows[b].id_of() {
                return false;
            }
            if *rows[a].name_of() == *rows[b].name_of() {
                return false;
            }
            b += 1;
        }
        a += 1;
    }
    assert forall|x: int, y: int|
        0 <= x < n && 0 <= y < n && x != y implies rows@[x].row_name() != rows@[y].row_name() by {
        if x < y {
        } else {
            assert(rows@[y].row_name() != rows@[x].row_name());
        }
    }
    true
}

} // verus!
