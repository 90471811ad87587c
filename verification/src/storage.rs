//! The embedded single-writer transactional key-value store that holds all
//! operator state. A table maps raw byte keys to raw byte values; a
//! transaction owns a set of tables and supports commit-and-renew: the
//! current contents become the durable snapshot and the transaction stays
//! open for further writes.

use vstd::prelude::*;

use crate::types::Database;

verus! {

/// Compares two byte vectors by contents.
pub fn bytes_eq(a: &Vec<u8>, b: &Vec<u8>) -> (r: bool)
    ensures
        r <==> a@ == b@,
{
    if a.len() != b.len() {
        return false;
    }
    let mut i: usize = 0;
    while i < a.len()
        invariant
            a@.len() == b@.len(),
            i <= a@.len(),
            forall|j: int| 0 <= j < i ==> a@[j] == b@[j],
        decreases a@.len() - i,
    {
        if a[i] != b[i] {
            return false;
        }
        i += 1;
    }
    assert(a@ =~= b@);
    true
}

/// Copies a byte vector.
pub fn clone_bytes(a: &Vec<u8>) -> (r: Vec<u8>)
    ensures
        r@ == a@,
{
    let mut out: Vec<u8> = Vec::new();
    let mut i: usize = 0;
    while i < a.len()
        invariant
            i <= a@.len(),
            out@ == a@.subrange(0, i as int),
        decreases a@.len() - i,
    {
        out.push(a[i]);
        assert(a@.subrange(0, i + 1) =~= a@.subrange(0, i as int).push(a@[i as int]));
        i += 1;
    }
    assert(out@ =~= a@);
    out
}

/// No two entries carry the same key.
pub open spec fn spec_entries_unique(s: Seq<(Vec<u8>, Vec<u8>)>) -> bool {
    forall|i: int, j: int| 0 <= i < j < s.len() ==> (#[trigger] s[i]).0@ != (#[trigger] s[j]).0@
}

/// The map denoted by an entry list.
pub open spec fn spec_entries_map(s: Seq<(Vec<u8>, Vec<u8>)>) -> Map<Seq<u8>, Seq<u8>>
    decreases s.len(),
{
    if s.len() == 0 {
        Map::empty()
    } else {
        spec_entries_map(s.drop_last()).insert(s.last().0@, s.last().1@)
    }
}

/// With unique keys, the entry list and its map agree: every key of the map
/// stands in the list, and every entry's key maps to that entry's value.
pub proof fn lemma_entries_map_props(s: Seq<(Vec<u8>, Vec<u8>)>)
    requires
        spec_entries_unique(s),
    ensures
        forall|k: Seq<u8>| #[trigger] spec_entries_map(s).contains_key(k) ==> exists|i: int|
            0 <= i < s.len() && (#[trigger] s[i]).0@ == k,
        forall|i: int| 0 <= i < s.len() ==> spec_entries_map(s).contains_key((#[trigger] s[i]).0@),
        forall|i: int| 0 <= i < s.len() ==> spec_entries_map(s)[(#[trigger] s[i]).0@] == s[i].1@,
    decreases s.len(),
{
    if s.len() > 0 {
        let s0 = s.drop_last();
        let e = s.last();
        let m0 = spec_entries_map(s0);
        let m = spec_entries_map(s);
        assert(spec_entries_unique(s0));
        lemma_entries_map_props(s0);
        assert forall|k: Seq<u8>| #[trigger] m.contains_key(k) implies exists|i: int|
            0 <= i < s.len() && (#[trigger] s[i]).0@ == k by {
            if k == e.0@ {
                assert(0 <= s.len() - 1 < s.len() && s[s.len() - 1].0@ == k);
            } else {
                assert(m0.contains_key(k));
                let i = choose|i: int| 0 <= i < s0.len() && (#[trigger] s0[i]).0@ == k;
                assert(0 <= i < s.len() && s[i].0@ == k);
            }
        }
        assert forall|i: int| 0 <= i < s.len() implies m.contains_key((#[trigger] s[i]).0@)
            && m[s[i].0@] == s[i].1@ by {
            if i == s.len() - 1 {
                assert(m.contains_key(e.0@) && m[e.0@] == e.1@);
            } else {
                assert(s0[i] == s[i]);
                assert(s[i].0@ != e.0@);
                assert(m.contains_key(s[i].0@) && m[s[i].0@] == s0[i].1@);
            }
        }
    }
}

/// Removing the entry at `i` removes exactly its key from the map.
pub proof fn lemma_entries_map_remove(s: Seq<(Vec<u8>, Vec<u8>)>, i: int)
    requires
        spec_entries_unique(s),
        0 <= i < s.len(),
    ensures
        spec_entries_unique(s.remove(i)),
        spec_entries_map(s.remove(i)) == spec_entries_map(s).remove(s[i].0@),
    decreases s.len(),
{
    s.remove_ensures(i);
    let r = s.remove(i);
    let k = s[i].0@;
    assert forall|a: int, b: int| 0 <= a < b < r.len() implies (#[trigger] r[a]).0@ != (
    #[trigger] r[b]).0@ by {
        let a2: int = if a < i {
            a
        } else {
            a + 1
        };
        let b2: int = if b < i {
            b
        } else {
            b + 1
        };
        assert(r[a] == s[a2] && r[b] == s[b2] && a2 < b2);
    }
    if i == s.len() - 1 {
        let s0 = s.drop_last();
        assert(spec_entries_unique(s0));
        lemma_entries_map_props(s0);
        assert(r =~= s0);
        if spec_entries_map(s0).contains_key(k) {
            let j = choose|j: int| 0 <= j < s0.len() && (#[trigger] s0[j]).0@ == k;
            assert(s[j].0@ == s[i].0@ && j < i);
            assert(false);
        }
        assert(spec_entries_map(s) == spec_entries_map(s0).insert(k, s.last().1@));
        assert(spec_entries_map(s).remove(k) =~= spec_entries_map(s0));
    } else {
        let s0 = s.drop_last();
        let e = s.last();
        assert(spec_entries_unique(s0));
        assert(s0[i] == s[i]);
        lemma_entries_map_remove(s0, i);
        assert(r.drop_last() =~= s0.remove(i)) by {
            s0.remove_ensures(i);
        }
        assert(r.last() == e);
        assert(r.len() > 0);
        assert(spec_entries_map(r) == spec_entries_map(s0.remove(i)).insert(e.0@, e.1@));
        assert(k != e.0@);
        assert(spec_entries_map(s0).remove(k).insert(e.0@, e.1@) =~= spec_entries_map(s0).insert(
            e.0@, e.1@).remove(k));
        assert(spec_entries_map(s) == spec_entries_map(s0).insert(e.0@, e.1@));
    }
}

/// One durable table: a list of key/value entries with unique keys, seen in
/// contracts as the map it denotes.
pub struct Table {
    pub entries: Vec<(Vec<u8>, Vec<u8>)>,
}

impl View for Table {
    type V = Map<Seq<u8>, Seq<u8>>;

    open spec fn view(&self) -> Map<Seq<u8>, Seq<u8>> {
        spec_entries_map(self.entries@)
    }
}

impl Table {
    pub open spec fn wf(self) -> bool {
        spec_entries_unique(self.entries@)
    }

    /// The position of `key` in the entry list, if present.
    fn find(&self, key: &Vec<u8>) -> (r: Option<usize>)
        ensures
            match r {
                Option::Some(i) => i < self.entries@.len() && self.entries@[i as int].0@ == key@,
                Option::None => forall|j: int| 0 <= j < self.entries@.len() ==> (
                #[trigger] self.entries@[j]).0@ != key@,
            },
    {
        let mut i: usize = 0;
        while i < self.entries.len()
            invariant
                i <= self.entries@.len(),
                forall|j: int| 0 <= j < i ==> (#[trigger] self.entries@[j]).0@ != key@,
            decreases self.entries@.len() - i,
        {
            if bytes_eq(&self.entries[i].0, key) {
                return Option::Some(i);
            }
            i += 1;
        }
        Option::None
    }

    /// Binds `key` to `value`, replacing any earlier binding.
    pub fn put(&mut self, key: Vec<u8>, value: Vec<u8>)
        requires
            old(self).wf(),
        ensures
            final(self).wf(),
            final(self)@ == old(self)@.insert(key@, value@),
    {
        let ghost s_old = self.entries@;
        let found = self.find(&key);
        match found {
            Option::Some(i) => {
                proof {
                    lemma_entries_map_remove(s_old, i as int);
                }
                self.entries.remove(i);
                proof {
                    s_old.remove_ensures(i as int);
                    assert forall|j: int| 0 <= j < self.entries@.len() implies (
                    #[trigger] self.entries@[j]).0@ != key@ by {
                        let j2: int = if j < i {
                            j
                        } else {
                            j + 1
                        };
                        assert(self.entries@[j] == s_old[j2]);
                        if s_old[j2].0@ == key@ {
                            assert(s_old[i as int].0@ == key@);
                            assert(j2 != i);
                            assert(false);
                        }
                    }
                }
                self.push_absent(key, value);
                proof {
                    assert(spec_entries_map(s_old).remove(key@).insert(key@, value@)
                        =~= spec_entries_map(s_old).insert(key@, value@));
                }
            },
            Option::None => {
                self.push_absent(key, value);
            },
        }
    }

    /// Appends a binding whose key is absent from the list.
    fn push_absent(&mut self, key: Vec<u8>, value: Vec<u8>)
        requires
            old(self).wf(),
            forall|j: int| 0 <= j < old(self).entries@.len() ==> (
            #[trigger] old(self).entries@[j]).0@ != key@,
        ensures
            final(self).wf(),
            final(self)@ == old(self)@.insert(key@, value@),
    {
        let ghost s_old = self.entries@;
        self.entries.push((key, value));
        proof {
        let s_new = self.entries@;
            assert(s_new.drop_last() =~= s_old);
            assert forall|a: int, b: int| 0 <= a < b < s_new.len() implies (
            #[trigger] s_new[a]).0@ != (#[trigger] s_new[b]).0@ by {
                if b == s_new.len() - 1 {
                    assert(s_new[a] == s_old[a]);
                } else {
                    assert(s_new[a] == s_old[a] && s_new[b] == s_old[b]);
                }
            }
        }
    }

    /// The value bound to `key`, if any.
    pub fn get(&self, key: &Vec<u8>) -> (r: Option<Vec<u8>>)
        requires
            self.wf(),
        ensures
            match r {
                Option::Some(v) => self@.contains_key(key@) && v@ == self@[key@],
                Option::None => !self@.contains_key(key@),
            },
    {
        proof {
            lemma_entries_map_props(self.entries@);
        }
        let found = self.find(key);
        match found {
            Option::Some(i) => {
                let v = clone_bytes(&self.entries[i].1);
                Option::Some(v)
            },
            Option::None => {
                proof {
                    if self@.contains_key(key@) {
                        let j = choose|j: int| 0 <= j < self.entries@.len() && (
                        #[trigger] self.entries@[j]).0@ == key@;
                        assert(false);
                    }
                }
                Option::None
            },
        }
    }

    /// Drops the binding of `key`, if any.
    pub fn del(&mut self, key: &Vec<u8>)
        requires
            old(self).wf(),
        ensures
            final(self).wf(),
            final(self)@ == old(self)@.remove(key@),
    {
        let ghost s_old = self.entries@;
        let found = self.find(key);
        match found {
            Option::Some(i) => {
                proof {
                    lemma_entries_map_remove(s_old, i as int);
                }
                self.entries.remove(i);
            },
            Option::None => {
                proof {
                    lemma_entries_map_props(s_old);
                    if self@.contains_key(key@) {
                        let j = choose|j: int| 0 <= j < s_old.len() && (#[trigger] s_old[j]).0@
                            == key@;
                        assert(false);
                    }
                    assert(spec_entries_map(s_old).remove(key@) =~= spec_entries_map(s_old));
                }
            },
        }
    }
}

/// One write transaction over a set of tables. The view is the sequence of
/// table maps as currently written; `committed()` is the durable snapshot as
/// of the last commit-and-renew.
pub struct Transaction {
    pub tables: Vec<Table>,
    pub committed: Ghost<Seq<Map<Seq<u8>, Seq<u8>>>>,
}

impl View for Transaction {
    type V = Seq<Map<Seq<u8>, Seq<u8>>>;

    open spec fn view(&self) -> Seq<Map<Seq<u8>, Seq<u8>>> {
        self.tables@.map_values(|t: Table| t@)
    }
}

impl Transaction {
    pub open spec fn wf(self) -> bool {
        forall|i: int| 0 <= i < self.tables@.len() ==> (#[trigger] self.tables@[i]).wf()
    }

    /// The durable contents as of the last commit-and-renew.
    pub open spec fn committed(self) -> Seq<Map<Seq<u8>, Seq<u8>>> {
        self.committed@
    }

    /// An empty store: no tables, and an empty durable snapshot.
    pub fn new() -> (r: Self)
        ensures
            r.wf(),
            r@ =~= Seq::<Map<Seq<u8>, Seq<u8>>>::empty(),
            r.committed() =~= Seq::<Map<Seq<u8>, Seq<u8>>>::empty(),
    {
        let tables: Vec<Table> = Vec::new();
        Transaction { tables, committed: Ghost(Seq::empty()) }
    }

    /// Adds one empty table and hands back its handle.
    pub fn create_database(&mut self) -> (db: Database)
        requires
            old(self).wf(),
        ensures
            final(self).wf(),
            db.id == old(self)@.len(),
            final(self)@ == old(self)@.push(Map::<Seq<u8>, Seq<u8>>::empty()),
            final(self).committed() == old(self).committed(),
    {
        let id = self.tables.len();
        let entries: Vec<(Vec<u8>, Vec<u8>)> = Vec::new();
        self.tables.push(Table { entries });
        proof {
            assert(self@ =~= old(self)@.push(Map::<Seq<u8>, Seq<u8>>::empty()));
        }
        Database { id }
    }

    /// Binds `key` to `value` in the given table.
    pub fn put(&mut self, db: Database, key: Vec<u8>, value: Vec<u8>)
        requires
            old(self).wf(),
            db.id < old(self)@.len(),
        ensures
            final(self).wf(),
            final(self)@ == old(self)@.update(db.id as int, old(self)@[db.id as int].insert(
                key@, value@)),
            final(self).committed() == old(self).committed(),
    {
        let ghost kv = key@;
        let ghost vv = value@;
        let t = &mut self.tables[db.id];
        t.put(key, value);
        proof {
            assert(self@ =~= old(self)@.update(db.id as int, old(self)@[db.id as int].insert(
                kv, vv)));
        }
    }

    /// The value bound to `key` in the given table, if any.
    pub fn get(&self, db: Database, key: &Vec<u8>) -> (r: Option<Vec<u8>>)
        requires
            self.wf(),
            db.id < self@.len(),
        ensures
            match r {
                Option::Some(v) => self@[db.id as int].contains_key(key@) && v@
                    == self@[db.id as int][key@],
                Option::None => !self@[db.id as int].contains_key(key@),
            },
    {
        let t = &self.tables[db.id];
        t.get(key)
    }

    /// Drops the binding of `key` in the given table, if any.
    pub fn del(&mut self, db: Database, key: &Vec<u8>)
        requires
            old(self).wf(),
            db.id < old(self)@.len(),
        ensures
            final(self).wf(),
            final(self)@ == old(self)@.update(db.id as int, old(self)@[db.id as int].remove(key@)),
            final(self).committed() == old(self).committed(),
    {
        let t = &mut self.tables[db.id];
        t.del(key);
        proof {
            assert(self@ =~= old(self)@.update(db.id as int, old(self)@[db.id as int].remove(
                key@)));
        }
    }

    /// Commits the current contents and atomically opens the next
    /// transaction on the same tables: the durable snapshot becomes exactly
    /// what is written, and the tables remain writable.
    pub fn commit_and_renew(&mut self)
        requires
            old(self).wf(),
        ensures
            final(self).wf(),
            final(self)@ == old(self)@,
            final(self).committed() == old(self)@,
    {
        self.committed = Ghost(self@);
    }
}

} // verus!
