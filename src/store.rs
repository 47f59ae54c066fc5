//! String-keyed tables that hold the ledger's persistent state.
//!
//! A table is modelled as an association list of `(key, count)` pairs with
//! pairwise distinct keys. Reading an absent key yields the zero value.
use vstd::prelude::*;

verus! {

/// Abstract contents of a count table.
pub type Entries = Seq<(Seq<char>, nat)>;

/// No key occurs twice.
pub open spec fn keys_unique(s: Entries) -> bool {
    forall|a: int, b: int|
        0 <= a < s.len() && 0 <= b < s.len() && #[trigger] s[a].0 == #[trigger] s[b].0 ==> a == b
}

pub open spec fn has_key(s: Entries, k: Seq<char>) -> bool {
    exists|j: int| 0 <= j < s.len() && #[trigger] s[j].0 == k
}

/// Position of `k` in `s` (meaningful only when `has_key(s, k)`).
pub open spec fn key_index(s: Entries, k: Seq<char>) -> int {
    choose|j: int| 0 <= j < s.len() && #[trigger] s[j].0 == k
}

/// Value stored under `k`, zero when absent.
pub open spec fn count_of(s: Entries, k: Seq<char>) -> nat {
    if has_key(s, k) {
        s[key_index(s, k)].1
    } else {
        0
    }
}

/// The table after writing `v` under `k`.
pub open spec fn put(s: Entries, k: Seq<char>, v: nat) -> Entries {
    if has_key(s, k) {
        s.update(key_index(s, k), (k, v))
    } else {
        s.push((k, v))
    }
}

/// Sum of all stored values.
pub open spec fn total(s: Entries) -> nat
    decreases s.len(),
{
    if s.len() == 0 {
        0
    } else {
        total(s.drop_last()) + s.last().1
    }
}

proof fn lemma_total_update(s: Entries, i: int, e: (Seq<char>, nat))
    requires
        0 <= i < s.len(),
    ensures
        total(s.update(i, e)) + s[i].1 == total(s) + e.1,
    decreases s.len(),
{
    let t = s.update(i, e);
    if i == s.len() - 1 {
        assert(t.drop_last() =~= s.drop_last());
    } else {
        assert(t.drop_last() =~= s.drop_last().update(i, e));
        lemma_total_update(s.drop_last(), i, e);
    }
}

/// Reading back after a write, uniqueness of keys and the new sum.
pub proof fn lemma_put(s: Entries, k: Seq<char>, v: nat)
    requires
        keys_unique(s),
    ensures
        keys_unique(put(s, k, v)),
        forall|k2: Seq<char>| #[trigger]
            count_of(put(s, k, v), k2) == if k2 == k {
                v
            } else {
                count_of(s, k2)
            },
        total(put(s, k, v)) + count_of(s, k) == total(s) + v,
{
    let t = put(s, k, v);
    if has_key(s, k) {
        let i = key_index(s, k);
        assert(forall|j: int| 0 <= j < s.len() ==> #[trigger] t[j].0 == s[j].0);
        assert forall|k2: Seq<char>| #[trigger]
            count_of(t, k2) == if k2 == k {
                v
            } else {
                count_of(s, k2)
            } by {
            if has_key(s, k2) {
                let j = key_index(s, k2);
                assert(t[j].0 == k2);
                assert(has_key(t, k2));
            } else {
                if has_key(t, k2) {
                    let j = key_index(t, k2);
                    assert(s[j].0 == k2);
                }
            }
        }
        lemma_total_update(s, i, (k, v));
    } else {
        assert(t.drop_last() =~= s);
        assert forall|k2: Seq<char>| #[trigger]
            count_of(t, k2) == if k2 == k {
                v
            } else {
                count_of(s, k2)
            } by {
            assert(t[s.len() as int].0 == k);
            if has_key(s, k2) {
                let j = key_index(s, k2);
                assert(t[j].0 == k2);
                assert(has_key(t, k2));
            } else if has_key(t, k2) {
                let j = key_index(t, k2);
                if j < s.len() {
                    assert(s[j].0 == k2);
                }
            }
        }
    }
}

/// A table of unsigned counts keyed by strings; absent keys read as zero.
pub struct CountTable {
    entries: Vec<(String, u64)>,
}

impl View for CountTable {
    type V = Entries;

    closed spec fn view(&self) -> Entries {
        self.entries@.map_values(|e: (String, u64)| (e.0@, e.1 as nat))
    }
}

impl CountTable {
    /// Keys are pairwise distinct.
    pub open spec fn wf(&self) -> bool {
        keys_unique(self@)
    }

    /// Every stored count fits in a `u64`.
    pub proof fn lemma_bounded(&self, k: Seq<char>)
        requires
            self.wf(),
        ensures
            count_of(self@, k) <= u64::MAX,
    {
        if has_key(self@, k) {
            let j = key_index(self@, k);
            assert(self@[j] == (self.entries@[j].0@, self.entries@[j].1 as nat));
        }
    }

    pub fn new() -> (r: CountTable)
        ensures
            r.wf(),
            r@ == Seq::<(Seq<char>, nat)>::empty(),
    {
        let r = CountTable { entries: Vec::new() };
        assert(r@ =~= Seq::<(Seq<char>, nat)>::empty());
        r
    }

    fn find(&self, k: &String) -> (r: Option<usize>)
        requires
            self.wf(),
        ensures
            match r {
                Some(i) => i < self@.len() && has_key(self@, k@) && key_index(self@, k@) == i
                    && self@[i as int].0 == k@,
                None => !has_key(self@, k@),
            },
    {
        let mut i: usize = 0;
        while i < self.entries.len()
            invariant
                self.wf(),
                i <= self.entries@.len(),
                forall|j: int| 0 <= j < i ==> (#[trigger] self@[j]).0 != k@,
            decreases self.entries@.len() - i,
        {
            if self.entries[i].0 == *k {
                assert(self@[i as int].0 == k@);
                assert(has_key(self@, k@));
                return Some(i);
            }
            i = i + 1;
        }
        None
    }

    /// Value under `k`, zero when absent.
    pub fn get(&self, k: &String) -> (r: u64)
        requires
            self.wf(),
        ensures
            r as nat == count_of(self@, k@),
    {
        match self.find(k) {
            Some(i) => self.entries[i].1,
            None => 0,
        }
    }

    /// Writes `v` under `k`.
    pub fn set(&mut self, k: String, v: u64)
        requires
            old(self).wf(),
        ensures
            final(self).wf(),
            final(self)@ == put(old(self)@, k@, v as nat),
    {
        proof {
            lemma_put(self@, k@, v as nat);
        }
        match self.find(&k) {
            Some(i) => {
                let ghost kv = k@;
                self.entries.set(i, (k, v));
                assert(self@ =~= put(old(self)@, kv, v as nat));
            },
            None => {
                let ghost kv = k@;
                self.entries.push((k, v));
                assert(self@ =~= put(old(self)@, kv, v as nat));
            },
        }
    }
}

/// A set of string keys whose flag is raised; absent keys read as false.
pub struct FlagSet {
    members: Vec<String>,
}

impl View for FlagSet {
    type V = Seq<Seq<char>>;

    closed spec fn view(&self) -> Seq<Seq<char>> {
        self.members@.map_values(|s: String| s@)
    }
}

impl FlagSet {
    /// No key is recorded twice.
    pub open spec fn wf(&self) -> bool {
        self@.no_duplicates()
    }

    pub fn new() -> (r: FlagSet)
        ensures
            r.wf(),
            r@ == Seq::<Seq<char>>::empty(),
    {
        let r = FlagSet { members: Vec::new() };
        assert(r@ =~= Seq::<Seq<char>>::empty());
        r
    }

    /// Whether the flag of `k` is raised.
    pub fn contains(&self, k: &String) -> (r: bool)
        ensures
            r == self@.contains(k@),
    {
        let mut i: usize = 0;
        while i < self.members.len()
            invariant
                i <= self.members@.len(),
                forall|j: int| 0 <= j < i ==> #[trigger] self@[j] != k@,
            decreases self.members@.len() - i,
        {
            if self.members[i] == *k {
                assert(self@[i as int] == k@);
                return true;
            }
            i = i + 1;
        }
        false
    }

    /// Raises the flag of `k`, which must not be raised yet.
    pub fn insert(&mut self, k: String)
        requires
            old(self).wf(),
            !old(self)@.contains(k@),
        ensures
            final(self).wf(),
            final(self)@ == old(self)@.push(k@),
    {
        let ghost kv = k@;
        self.members.push(k);
        assert(self@ =~= old(self)@.push(kv));
    }
}

} // verus!
