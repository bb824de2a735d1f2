//! Counters keyed by a player name or by a cause of death. Each tally is a
//! sequence of (key, count) entries with distinct keys, kept in the order in
//! which the keys first came.
use vstd::prelude::*;

use crate::means::MeansOfDeath;

verus! {

/// The first position at or after `i` whose key is `k`.
pub open spec fn position_from<K>(s: Seq<(K, nat)>, k: K, i: int) -> Option<int>
    decreases s.len() - i,
{
    if i < 0 || i >= s.len() {
        None
    } else if s[i].0 == k {
        Some(i)
    } else {
        position_from(s, k, i + 1)
    }
}

/// The position of the entry for `k`, if there is one.
pub open spec fn position_of<K>(s: Seq<(K, nat)>, k: K) -> Option<int> {
    position_from(s, k, 0)
}

/// The count held for `k`, if there is an entry for it.
pub open spec fn count_of<K>(s: Seq<(K, nat)>, k: K) -> Option<nat> {
    match position_of(s, k) {
        Some(i) => Some(s[i].1),
        None => None,
    }
}

/// `s` with the count of `k` raised by one; a new entry of 1 at the end where
/// `k` had none.
pub open spec fn bump<K>(s: Seq<(K, nat)>, k: K) -> Seq<(K, nat)> {
    match position_of(s, k) {
        Some(i) => s.update(i, (k, s[i].1 + 1)),
        None => s.push((k, 1)),
    }
}

/// `s` with the count of `k` lowered by one, but not below zero; unchanged
/// where `k` has no entry.
pub open spec fn lower<K>(s: Seq<(K, nat)>, k: K) -> Seq<(K, nat)> {
    match position_of(s, k) {
        Some(i) => s.update(i, (k, if s[i].1 > 0 { (s[i].1 - 1) as nat } else { 0 })),
        None => s,
    }
}

/// No key has two entries.
pub open spec fn distinct_keys<K>(s: Seq<(K, nat)>) -> bool {
    forall|i: int, j: int| 0 <= i < j < s.len() ==> s[i].0 != s[j].0
}

/// The sum of all counts.
pub open spec fn total<K>(s: Seq<(K, nat)>) -> nat
    decreases s.len(),
{
    if s.len() == 0 {
        0
    } else {
        total(s.drop_last()) + s.last().1
    }
}

proof fn lemma_position_from<K>(s: Seq<(K, nat)>, k: K, i: int)
    requires
        0 <= i,
    ensures
        match position_from(s, k, i) {
            Some(j) => i <= j < s.len() && s[j].0 == k && forall|t: int|
                i <= t < j ==> s[t].0 != k,
            None => forall|t: int| i <= t < s.len() ==> s[t].0 != k,
        },
    decreases s.len() - i,
{
    if i < s.len() && s[i].0 != k {
        lemma_position_from(s, k, i + 1);
    }
}

/// The entry that `position_of` finds is the first that holds `k`; where it
/// finds none, no entry does.
pub proof fn lemma_position_of<K>(s: Seq<(K, nat)>, k: K)
    ensures
        match position_of(s, k) {
            Some(j) => 0 <= j < s.len() && s[j].0 == k && forall|t: int|
                0 <= t < j ==> s[t].0 != k,
            None => forall|t: int| 0 <= t < s.len() ==> s[t].0 != k,
        },
{
    lemma_position_from(s, k, 0);
}

/// The first entry that holds `k` is the one `position_of` finds.
pub proof fn lemma_first_key<K>(s: Seq<(K, nat)>, k: K, i: int)
    requires
        0 <= i < s.len(),
        s[i].0 == k,
        forall|t: int| 0 <= t < i ==> s[t].0 != k,
    ensures
        position_of(s, k) == Some(i),
{
    lemma_first_key_from(s, k, i, 0);
}

proof fn lemma_first_key_from<K>(s: Seq<(K, nat)>, k: K, i: int, j: int)
    requires
        0 <= j <= i < s.len(),
        s[i].0 == k,
        forall|t: int| 0 <= t < i ==> s[t].0 != k,
    ensures
        position_from(s, k, j) == Some(i),
    decreases i - j,
{
    if j < i {
        lemma_first_key_from(s, k, i, j + 1);
    }
}

/// Changing the count of one entry changes the sum by the difference.
pub proof fn lemma_total_update<K>(s: Seq<(K, nat)>, i: int, e: (K, nat))
    requires
        0 <= i < s.len(),
    ensures
        total(s.update(i, e)) + s[i].1 == total(s) + e.1,
    decreases s.len(),
{
    if i < s.len() - 1 {
        lemma_total_update(s.drop_last(), i, e);
        assert(s.update(i, e).drop_last() =~= s.drop_last().update(i, e));
    } else {
        assert(s.update(i, e).drop_last() =~= s.drop_last());
    }
}

/// Raising a count raises the sum by one.
pub proof fn lemma_total_bump<K>(s: Seq<(K, nat)>, k: K)
    ensures
        total(bump(s, k)) == total(s) + 1,
{
    lemma_position_of(s, k);
    match position_of(s, k) {
        Some(i) => lemma_total_update(s, i, (k, s[i].1 + 1)),
        None => assert(s.push((k, 1)).drop_last() =~= s),
    }
}

/// No single count exceeds the sum.
pub proof fn lemma_count_le_total<K>(s: Seq<(K, nat)>, i: int)
    requires
        0 <= i < s.len(),
    ensures
        s[i].1 <= total(s),
    decreases s.len(),
{
    if i < s.len() - 1 {
        lemma_count_le_total(s.drop_last(), i);
    }
}

/// Raising a count keeps the keys distinct, and keeps every entry that was
/// there before it in its place with its key.
pub proof fn lemma_bump_keys<K>(s: Seq<(K, nat)>, k: K)
    requires
        distinct_keys(s),
    ensures
        distinct_keys(bump(s, k)),
        count_of(bump(s, k), k) is Some,
        forall|j: int| 0 <= j < s.len() ==> #[trigger] bump(s, k)[j].0 == s[j].0,
{
    lemma_position_of(s, k);
    lemma_position_of(bump(s, k), k);
    match position_of(s, k) {
        Some(i) => assert(bump(s, k)[i].0 == k),
        None => assert(bump(s, k)[s.len() as int].0 == k),
    }
}

/// Lowering a count leaves the keys as they were.
pub proof fn lemma_lower_keys<K>(s: Seq<(K, nat)>, k: K)
    ensures
        lower(s, k).len() == s.len(),
        forall|j: int| 0 <= j < s.len() ==> #[trigger] lower(s, k)[j].0 == s[j].0,
{
    lemma_position_of(s, k);
}

/// Kills credited to each player, by name.
#[derive(Clone, Debug, PartialEq, Eq)]
pub struct KillTally {
    entries: Vec<(String, u32)>,
}

impl View for KillTally {
    type V = Seq<(Seq<char>, nat)>;

    closed spec fn view(&self) -> Seq<(Seq<char>, nat)> {
        self.entries@.map_values(|e: (String, u32)| (e.0@, e.1 as nat))
    }
}

impl KillTally {
    /// A tally with no entries.
    pub fn new() -> (r: KillTally)
        ensures
            r@ == Seq::<(Seq<char>, nat)>::empty(),
    {
        let r = KillTally { entries: Vec::new() };
        assert(r@ =~= Seq::<(Seq<char>, nat)>::empty());
        r
    }

    /// The number of players with an entry.
    pub fn len(&self) -> (r: usize)
        ensures
            r == self@.len(),
    {
        self.entries.len()
    }

    /// The entry at position `i`.
    pub fn entry(&self, i: usize) -> (r: (String, u32))
        requires
            i < self@.len(),
        ensures
            r.0@ == self@[i as int].0,
            r.1 == self@[i as int].1,
    {
        (self.entries[i].0.clone(), self.entries[i].1)
    }

    fn position(&self, name: &String) -> (r: Option<usize>)
        ensures
            match r {
                Some(i) => position_of(self@, name@) == Some(i as int) && i < self.entries@.len(),
                None => position_of(self@, name@) is None,
            },
    {
        let mut i: usize = 0;
        while i < self.entries.len()
            invariant
                i <= self.entries.len(),
                position_from(self@, name@, i as int) == position_of(self@, name@),
            decreases self.entries.len() - i,
        {
            assert(self@[i as int].0 == self.entries@[i as int].0@);
            if self.entries[i].0.eq(name) {
                return Some(i);
            }
            i = i + 1;
        }
        None
    }

    /// The kills credited to `name`, where it has an entry.
    pub fn get(&self, name: &str) -> (r: Option<u32>)
        ensures
            match r {
                Some(c) => count_of(self@, name@) == Some(c as nat),
                None => count_of(self@, name@) is None,
            },
    {
        let key = name.to_owned();
        match self.position(&key) {
            Some(i) => Some(self.entries[i].1),
            None => None,
        }
    }

    /// Credits `name` with one more kill, creating its entry at 1.
    pub fn increment(&mut self, name: &str)
        requires
            count_of(old(self)@, name@) matches Some(c) ==> c < u32::MAX,
        ensures
            final(self)@ == bump(old(self)@, name@),
    {
        let key = name.to_owned();
        match self.position(&key) {
            Some(i) => {
                let c = self.entries[i].1;
                self.entries.set(i, (key, c + 1));
            },
            None => {
                self.entries.push((key, 1));
            },
        }
        assert(final(self)@ =~= bump(old(self)@, name@));
    }

    /// Takes one kill from `name`, not below zero; no entry is created.
    pub fn decrement(&mut self, name: &str)
        ensures
            final(self)@ == lower(old(self)@, name@),
    {
        proof {
            lemma_position_of(old(self)@, name@);
        }
        let key = name.to_owned();
        match self.position(&key) {
            Some(i) => {
                let c = self.entries[i].1;
                if c > 0 {
                    self.entries.set(i, (key, c - 1));
                }
            },
            None => {},
        }
        assert(final(self)@ =~= lower(old(self)@, name@));
    }
}

/// Kills counted by cause of death.
#[derive(Clone, Debug, PartialEq, Eq)]
pub struct CauseTally {
    entries: Vec<(MeansOfDeath, u32)>,
}

impl View for CauseTally {
    type V = Seq<(MeansOfDeath, nat)>;

    closed spec fn view(&self) -> Seq<(MeansOfDeath, nat)> {
        self.entries@.map_values(|e: (MeansOfDeath, u32)| (e.0, e.1 as nat))
    }
}

impl CauseTally {
    /// A tally with no entries.
    pub fn new() -> (r: CauseTally)
        ensures
            r@ == Seq::<(MeansOfDeath, nat)>::empty(),
    {
        let r = CauseTally { entries: Vec::new() };
        assert(r@ =~= Seq::<(MeansOfDeath, nat)>::empty());
        r
    }

    /// The number of causes with an entry.
    pub fn len(&self) -> (r: usize)
        ensures
            r == self@.len(),
    {
        self.entries.len()
    }

    /// The entry at position `i`.
    pub fn entry(&self, i: usize) -> (r: (MeansOfDeath, u32))
        requires
            i < self@.len(),
        ensures
            r.0 == self@[i as int].0,
            r.1 == self@[i as int].1,
    {
        self.entries[i]
    }

    fn position(&self, m: MeansOfDeath) -> (r: Option<usize>)
        ensures
            match r {
                Some(i) => position_of(self@, m) == Some(i as int) && i < self.entries@.len(),
                None => position_of(self@, m) is None,
            },
    {
        let mut i: usize = 0;
        while i < self.entries.len()
            invariant
                i <= self.entries.len(),
                position_from(self@, m, i as int) == position_of(self@, m),
            decreases self.entries.len() - i,
        {
            if self.entries[i].0 == m {
                return Some(i);
            }
            i = i + 1;
        }
        None
    }

    /// The kills counted for `m`, where it has an entry.
    pub fn get(&self, m: &MeansOfDeath) -> (r: Option<u32>)
        ensures
            match r {
                Some(c) => count_of(self@, *m) == Some(c as nat),
                None => count_of(self@, *m) is None,
            },
    {
        match self.position(*m) {
            Some(i) => Some(self.entries[i].1),
            None => None,
        }
    }

    /// Counts one more kill by `m`, creating its entry at 1.
    pub fn increment(&mut self, m: MeansOfDeath)
        requires
            count_of(old(self)@, m) matches Some(c) ==> c < u32::MAX,
        ensures
            final(self)@ == bump(old(self)@, m),
    {
        match self.position(m) {
            Some(i) => {
                let c = self.entries[i].1;
                self.entries.set(i, (m, c + 1));
            },
            None => {
                self.entries.push((m, 1));
            },
        }
        assert(final(self)@ =~= bump(old(self)@, m));
    }
}

} // verus!
