use vstd::prelude::*;
use crate::text::str_eq;

verus! {

/// Rows of one kind keyed by a unique string, in insertion order.
pub struct Table<T> {
    keys: Vec<String>,
    rows: Vec<T>,
}

impl<T: View> Table<T> {
    /// The keys in row order.
    pub closed spec fn key_seq(&self) -> Seq<Seq<char>> {
        self.keys@.map_values(|s: String| s@)
    }

    /// The row contents in row order.
    pub closed spec fn row_seq(&self) -> Seq<T::V> {
        self.rows@.map_values(|r: T| r@)
    }

    /// One row per key.
    pub closed spec fn wf(&self) -> bool {
        &&& self.keys@.len() == self.rows@.len()
        &&& self.key_seq().no_duplicates()
    }

    /// The rows by key.
    pub closed spec fn view(&self) -> Map<Seq<char>, T::V> {
        Map::new(
            |k: Seq<char>| self.key_seq().contains(k),
            |k: Seq<char>| self.rows@[self.key_seq().index_of(k)]@,
        )
    }

    /// Row `i` is the row under its key.
    pub proof fn lemma_at(&self, i: int)
        requires
            self.wf(),
            0 <= i < self.key_seq().len(),
        ensures
            self.view().contains_key(self.key_seq()[i]),
            self.view()[self.key_seq()[i]] == self.row_seq()[i],
    {
        let k = self.key_seq()[i];
        assert(self.key_seq().contains(k));
        let j = self.key_seq().index_of(k);
        assert(self.key_seq()[j] == k);
    }

    /// The key sequence and row sequence describe the map.
    pub proof fn lemma_rows(&self)
        requires
            self.wf(),
        ensures
            self.key_seq().len() == self.row_seq().len(),
            self.view().dom() == self.key_seq().to_set(),
            forall|i: int| 0 <= i < self.key_seq().len()
                ==> #[trigger] self.view()[self.key_seq()[i]] == self.row_seq()[i],
            self.view().dom().len() == self.key_seq().len(),
    {
        assert forall|i: int| 0 <= i < self.key_seq().len()
            implies #[trigger] self.view()[self.key_seq()[i]] == self.row_seq()[i] by {
            self.lemma_at(i);
        }
        assert(self.view().dom() =~= self.key_seq().to_set());
        self.key_seq().unique_seq_to_set();
    }

    pub fn new() -> (r: Self)
        ensures
            r.wf(),
            r.view() == Map::<Seq<char>, T::V>::empty(),
            r.key_seq() == Seq::<Seq<char>>::empty(),
    {
        let r = Table { keys: Vec::new(), rows: Vec::new() };
        assert(r.key_seq() =~= Seq::<Seq<char>>::empty());
        assert(r.view() =~= Map::<Seq<char>, T::V>::empty());
        r
    }

    pub fn len(&self) -> (r: usize)
        requires
            self.wf(),
        ensures
            r == self.key_seq().len(),
            r == self.view().dom().len(),
    {
        proof {
            self.lemma_rows();
        }
        self.keys.len()
    }

    /// The key of row `i`.
    pub fn key(&self, i: usize) -> (r: &String)
        requires
            self.wf(),
            i < self.key_seq().len(),
        ensures
            r@ == self.key_seq()[i as int],
    {
        &self.keys[i]
    }

    /// Row `i`.
    pub fn row(&self, i: usize) -> (r: &T)
        requires
            self.wf(),
            i < self.key_seq().len(),
        ensures
            r@ == self.row_seq()[i as int],
            r@ == self.view()[self.key_seq()[i as int]],
    {
        proof {
            self.lemma_at(i as int);
        }
        &self.rows[i]
    }

    /// The position of the row under `key`.
    pub fn find(&self, key: &str) -> (r: Option<usize>)
        requires
            self.wf(),
        ensures
            match r {
                Some(i) => i < self.key_seq().len() && self.key_seq()[i as int] == key@,
                None => !self.view().contains_key(key@),
            },
    {
        let n = self.keys.len();
        let mut i: usize = 0;
        while i < n
            invariant
                self.wf(),
                n == self.key_seq().len(),
                i <= n,
                forall|j: int| 0 <= j < i ==> self.key_seq()[j] != key@,
            decreases n - i,
        {
            if str_eq(self.keys[i].as_str(), key) {
                return Some(i);
            }
            i = i + 1;
        }
        None
    }

    /// The row under `key`.
    pub fn get(&self, key: &str) -> (r: Option<&T>)
        requires
            self.wf(),
        ensures
            match r {
                Some(x) => self.view().contains_key(key@) && self.view()[key@] == x@,
                None => !self.view().contains_key(key@),
            },
    {
        match self.find(key) {
            Some(i) => Some(self.row(i)),
            None => None,
        }
    }

    /// Replaces row `i`, keeping its key.
    pub fn set_row(&mut self, i: usize, row: T)
        requires
            old(self).wf(),
            i < old(self).key_seq().len(),
        ensures
            final(self).wf(),
            final(self).key_seq() == old(self).key_seq(),
            final(self).row_seq() == old(self).row_seq().update(i as int, row@),
            final(self).view() == old(self).view().insert(old(self).key_seq()[i as int], row@),
    {
        let ghost old_self = *self;
        let ghost k = self.key_seq()[i as int];
        self.rows.set(i, row);
        proof {
            assert(self.key_seq() =~= old_self.key_seq());
            assert(self.row_seq() =~= old_self.row_seq().update(i as int, row@));
            assert forall|q: Seq<char>| #[trigger] self.view().contains_key(q)
                implies self.view()[q] == old_self.view().insert(k, row@)[q] by {
                let j = self.key_seq().index_of(q);
                assert(self.key_seq()[j] == q);
                if q != k {
                    old_self.lemma_at(j);
                }
            }
            assert(self.view() =~= old_self.view().insert(k, row@));
        }
    }

    /// Inserts or replaces the row under `key`.
    pub fn upsert(&mut self, key: String, row: T)
        requires
            old(self).wf(),
        ensures
            final(self).wf(),
            final(self).view() == old(self).view().insert(key@, row@),
            old(self).view().contains_key(key@) ==> final(self).key_seq() == old(self).key_seq(),
    {
        match self.find(key.as_str()) {
            Some(i) => {
                self.set_row(i, row);
            },
            None => {
                let ghost old_self = *self;
                let ghost k = key@;
                self.keys.push(key);
                self.rows.push(row);
                proof {
                    assert(self.key_seq() =~= old_self.key_seq().push(k));
                    assert(!old_self.key_seq().contains(k));
                    assert forall|q: Seq<char>| #[trigger] self.view().contains_key(q)
                        implies self.view()[q] == old_self.view().insert(k, row@)[q] by {
                        let j = self.key_seq().index_of(q);
                        assert(self.key_seq()[j] == q);
                        if q != k {
                            assert(j < old_self.key_seq().len());
                            old_self.lemma_at(j);
                        } else {
                            assert(self.key_seq()[old_self.key_seq().len() as int] == k);
                        }
                    }
                    assert forall|q: Seq<char>| #[trigger] self.key_seq().contains(q)
                        == (old_self.key_seq().contains(q) || q == k) by {
                        if old_self.key_seq().contains(q) {
                            let j = old_self.key_seq().index_of(q);
                            assert(self.key_seq()[j] == q);
                        }
                        if q == k {
                            assert(self.key_seq()[old_self.key_seq().len() as int] == k);
                        }
                        if self.key_seq().contains(q) {
                            let j = self.key_seq().index_of(q);
                            if j < old_self.key_seq().len() {
                                assert(old_self.key_seq()[j] == q);
                            }
                        }
                    }
                    assert(self.view() =~= old_self.view().insert(k, row@));
                }
            },
        }
    }

    /// Removes every row.
    pub fn clear(&mut self)
        ensures
            final(self).wf(),
            final(self).view() == Map::<Seq<char>, T::V>::empty(),
    {
        *self = Table::new();
    }
}

} // verus!
