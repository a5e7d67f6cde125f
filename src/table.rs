//! A keyed collection of text rows, kept in storage order, whose keys are
//! unique. Each write reports the single row-level change it made, which is
//! the statement a backing store runs to stay in step.

use vstd::prelude::*;

verus! {

/// One row as the contracts see it: its key and its value.
pub type RowView = (Seq<char>, Seq<char>);

/// No two rows share a key.
pub open spec fn keys_unique(s: Seq<RowView>) -> bool {
    forall|i: int, j: int| 0 <= i < j < s.len() ==> s[i].0 != s[j].0
}

/// Some row has key `k`.
pub open spec fn has_key(s: Seq<RowView>, k: Seq<char>) -> bool {
    exists|i: int| 0 <= i < s.len() && #[trigger] s[i].0 == k
}

/// The position of a row with key `k` (meaningful where `has_key(s, k)`).
pub open spec fn index_of(s: Seq<RowView>, k: Seq<char>) -> int {
    choose|i: int| 0 <= i < s.len() && #[trigger] s[i].0 == k
}

/// The value stored under `k`, if any.
pub open spec fn lookup(s: Seq<RowView>, k: Seq<char>) -> Option<Seq<char>> {
    if has_key(s, k) {
        Some(s[index_of(s, k)].1)
    } else {
        None
    }
}

/// Insert-or-overwrite: a present row keeps its place and takes the new
/// value; an absent key is appended.
pub open spec fn upserted(s: Seq<RowView>, k: Seq<char>, v: Seq<char>) -> Seq<RowView> {
    if has_key(s, k) {
        s.update(index_of(s, k), (k, v))
    } else {
        s.push((k, v))
    }
}

/// Insert-or-ignore: an absent key is appended; a present row is untouched.
pub open spec fn inserted_if_absent(s: Seq<RowView>, k: Seq<char>, v: Seq<char>) -> Seq<RowView> {
    if has_key(s, k) {
        s
    } else {
        s.push((k, v))
    }
}

/// The row with key `k` taken out, if there is one.
pub open spec fn removed(s: Seq<RowView>, k: Seq<char>) -> Seq<RowView> {
    if has_key(s, k) {
        s.remove(index_of(s, k))
    } else {
        s
    }
}

/// In a collection with unique keys, the row at `i` is the one found for its key.
pub proof fn lemma_index_of_unique(s: Seq<RowView>, i: int)
    requires
        keys_unique(s),
        0 <= i < s.len(),
    ensures
        has_key(s, s[i].0),
        index_of(s, s[i].0) == i,
{
    let k = s[i].0;
    assert(s[i].0 == k);
    let j = index_of(s, k);
    assert(s[j].0 == k);
}

/// A row-level change to a collection.
pub enum Change {
    /// A new row was appended.
    Insert(String, String),
    /// The row with this key now holds this value.
    Update(String, String),
    /// The row with this key was removed.
    Delete(String),
    /// Nothing changed.
    Unchanged,
}

/// What a change does to a collection's rows.
pub open spec fn applied(s: Seq<RowView>, c: Change) -> Seq<RowView> {
    match c {
        Change::Insert(k, v) => s.push((k@, v@)),
        Change::Update(k, v) => s.update(index_of(s, k@), (k@, v@)),
        Change::Delete(k) => s.remove(index_of(s, k@)),
        Change::Unchanged => s,
    }
}

/// The rows of a vector as the contracts see them.
pub open spec fn rows_view(rows: Seq<(String, String)>) -> Seq<RowView> {
    rows.map_values(|r: (String, String)| (r.0@, r.1@))
}

/// An optional text as the contracts see it.
pub open spec fn opt_view(o: Option<String>) -> Option<Seq<char>> {
    match o {
        Some(x) => Some(x@),
        None => None,
    }
}

/// `c` is the change that an insert-or-overwrite of `(k, v)` makes on `s`.
pub open spec fn is_upsert_change(s: Seq<RowView>, k: Seq<char>, v: Seq<char>, c: Change) -> bool {
    if has_key(s, k) {
        c matches Change::Update(a, b) && a@ == k && b@ == v
    } else {
        c matches Change::Insert(a, b) && a@ == k && b@ == v
    }
}

/// `c` is the change that an insert-or-ignore of `(k, v)` makes on `s`.
pub open spec fn is_insert_change(s: Seq<RowView>, k: Seq<char>, v: Seq<char>, c: Change) -> bool {
    if has_key(s, k) {
        c is Unchanged
    } else {
        c matches Change::Insert(a, b) && a@ == k && b@ == v
    }
}

/// `c` is the change that removing key `k` makes on `s`.
pub open spec fn is_delete_change(s: Seq<RowView>, k: Seq<char>, c: Change) -> bool {
    if has_key(s, k) {
        c matches Change::Delete(a) && a@ == k
    } else {
        c is Unchanged
    }
}

/// A collection of rows with unique keys, in storage order.
pub struct Table {
    rows: Vec<(String, String)>,
}

impl View for Table {
    type V = Seq<RowView>;

    closed spec fn view(&self) -> Seq<RowView> {
        rows_view(self.rows@)
    }
}

impl Table {
    pub open spec fn wf(&self) -> bool {
        keys_unique(self@)
    }

    /// An empty collection.
    pub fn new() -> (t: Table)
        ensures
            t.wf(),
            t@ == Seq::<RowView>::empty(),
    {
        let t = Table { rows: Vec::new() };
        assert(t@ =~= Seq::<RowView>::empty());
        t
    }

    /// The number of rows.
    pub fn len(&self) -> (n: usize)
        ensures
            n == self@.len(),
    {
        self.rows.len()
    }

    /// Insert-or-overwrite of `(k, v)`, as one change.
    pub fn upsert(&mut self, k: &str, v: &str) -> (c: Change)
        requires
            old(self).wf(),
        ensures
            final(self).wf(),
            final(self)@ == upserted(old(self)@, k@, v@),
            final(self)@ == applied(old(self)@, c),
            is_upsert_change(old(self)@, k@, v@, c),
    {
        let key = k.to_owned();
        let val = v.to_owned();
        match self.find(&key) {
            Some(i) => {
                self.rows.set(i, (key.clone(), val.clone()));
                assert(self@ =~= old(self)@.update(i as int, (k@, v@)));
                Change::Update(key, val)
            },
            None => {
                self.rows.push((key.clone(), val.clone()));
                assert(self@ =~= old(self)@.push((k@, v@)));
                Change::Insert(key, val)
            },
        }
    }

    /// Insert-or-ignore of `(k, v)`, as one change: a present key keeps its
    /// row as it is.
    pub fn insert_if_absent(&mut self, k: &str, v: &str) -> (c: Change)
        requires
            old(self).wf(),
        ensures
            final(self).wf(),
            final(self)@ == inserted_if_absent(old(self)@, k@, v@),
            final(self)@ == applied(old(self)@, c),
            is_insert_change(old(self)@, k@, v@, c),
    {
        let key = k.to_owned();
        let val = v.to_owned();
        match self.find(&key) {
            Some(_) => Change::Unchanged,
            None => {
                self.rows.push((key.clone(), val.clone()));
                assert(self@ =~= old(self)@.push((k@, v@)));
                Change::Insert(key, val)
            },
        }
    }

    /// Removes the row with key `k`, as one change; an absent key changes
    /// nothing.
    pub fn remove(&mut self, k: &str) -> (c: Change)
        requires
            old(self).wf(),
        ensures
            final(self).wf(),
            final(self)@ == removed(old(self)@, k@),
            final(self)@ == applied(old(self)@, c),
            is_delete_change(old(self)@, k@, c),
    {
        let key = k.to_owned();
        match self.find(&key) {
            Some(i) => {
                self.rows.remove(i);
                assert(self@ =~= old(self)@.remove(i as int));
                Change::Delete(key)
            },
            None => Change::Unchanged,
        }
    }

    /// The value stored under `k`, if any.
    pub fn get(&self, k: &str) -> (r: Option<String>)
        requires
            self.wf(),
        ensures
            opt_view(r) == lookup(self@, k@),
    {
        let key = k.to_owned();
        match self.find(&key) {
            Some(i) => Some(self.rows[i].1.clone()),
            None => None,
        }
    }

    /// Every row, in storage order.
    pub fn entries(&self) -> (r: Vec<(String, String)>)
        ensures
            rows_view(r@) == self@,
    {
        let mut r: Vec<(String, String)> = Vec::new();
        let mut i: usize = 0;
        while i < self.rows.len()
            invariant
                0 <= i <= self@.len(),
                rows_view(r@) == self@.take(i as int),
            decreases self@.len() - i,
        {
            let k = self.rows[i].0.clone();
            let v = self.rows[i].1.clone();
            let ghost before = r@;
            r.push((k, v));
            assert(r@ == before.push((k, v)));
            assert(self@[i as int] == (k@, v@));
            assert(rows_view(r@) =~= rows_view(before).push((k@, v@)));
            assert(rows_view(r@) =~= self@.take(i + 1));
            i = i + 1;
        }
        assert(self@.take(i as int) =~= self@);
        r
    }

    /// The collection holding `rows` in this order, or `None` where two of
    /// them share a key.
    pub fn from_rows(rows: Vec<(String, String)>) -> (r: Option<Table>)
        ensures
            r is Some <==> keys_unique(rows_view(rows@)),
            r matches Some(t) ==> t.wf() && t@ == rows_view(rows@),
    {
        let ghost s = rows_view(rows@);
        let mut i: usize = 0;
        while i < rows.len()
            invariant
                s == rows_view(rows@),
                0 <= i <= rows@.len(),
                forall|a: int, b: int| 0 <= a < b < i ==> s[a].0 != s[b].0,
            decreases rows@.len() - i,
        {
            let mut j: usize = 0;
            while j < i
                invariant
                    s == rows_view(rows@),
                    0 <= j <= i < rows@.len(),
                    forall|a: int| 0 <= a < j ==> s[a].0 != s[i as int].0,
                decreases i - j,
            {
                if rows[j].0 == rows[i].0 {
                    assert(s[j as int].0 == s[i as int].0);
                    return None;
                }
                j = j + 1;
            }
            i = i + 1;
        }
        Some(Table { rows })
    }

    /// The position of the row with key `k`, if there is one.
    fn find(&self, k: &String) -> (r: Option<usize>)
        requires
            self.wf(),
        ensures
            r.is_none() <==> !has_key(self@, k@),
            r matches Some(i) ==> i == index_of(self@, k@) && self@[i as int].0 == k@,
    {
        let mut i: usize = 0;
        while i < self.rows.len()
            invariant
                self.wf(),
                0 <= i <= self@.len(),
                forall|j: int| 0 <= j < i ==> self@[j].0 != k@,
            decreases self@.len() - i,
        {
            if self.rows[i].0 == *k {
                assert(self@[i as int].0 == k@);
                let ghost c = index_of(self@, k@);
                assert(self@[c].0 == k@);
                assert(c == i);
                return Some(i);
            }
            i = i + 1;
        }
        assert forall|j: int| 0 <= j < self@.len() implies #[trigger] self@[j].0 != k@ by {}
        None
    }
}

} // verus!
