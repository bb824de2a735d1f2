//! The aggregate of one match: kill count, players, kills per player and
//! kills per cause.
use vstd::prelude::*;

use crate::means::MeansOfDeath;
use crate::tally::{
    bump,
    count_of,
    distinct_keys,
    lower,
    lemma_bump_keys,
    lemma_lower_keys,
    lemma_position_of,
    CauseTally,
    KillTally,
};
use crate::text::{chars_of, equal_chars};

verus! {

/// The name the server gives to kills by the environment.
pub open spec fn world() -> Seq<char> {
    "<world>"@
}

/// A match aggregate as values: counts as natural numbers, names as
/// sequences of characters.
pub struct MatchView {
    pub total_kills: nat,
    pub players: Seq<Seq<char>>,
    pub kills: Seq<(Seq<char>, nat)>,
    pub kills_by_means: Seq<(MeansOfDeath, nat)>,
}

/// The aggregate of a match in which nothing has happened yet.
pub open spec fn empty_match() -> MatchView {
    MatchView {
        total_kills: 0,
        players: Seq::empty(),
        kills: Seq::empty(),
        kills_by_means: Seq::empty(),
    }
}

/// `ps` with `p` appended, unless `p` is in it already.
pub open spec fn add_once(ps: Seq<Seq<char>>, p: Seq<char>) -> Seq<Seq<char>> {
    if ps.contains(p) {
        ps
    } else {
        ps.push(p)
    }
}

/// `m` after one kill of `victim` by `killer` through `cause`. The kill is
/// counted, in total and by cause, and the victim joins the players. A kill by
/// the world takes one kill from the victim, where the victim has an entry
/// and not below zero. Any other killer joins the players after the victim
/// and is credited with the kill.
pub open spec fn record_kill_spec(
    m: MatchView,
    killer: Seq<char>,
    victim: Seq<char>,
    cause: MeansOfDeath,
) -> MatchView {
    let players = add_once(m.players, victim);
    if killer == world() {
        MatchView {
            total_kills: m.total_kills + 1,
            players,
            kills: lower(m.kills, victim),
            kills_by_means: bump(m.kills_by_means, cause),
        }
    } else {
        MatchView {
            total_kills: m.total_kills + 1,
            players: add_once(players, killer),
            kills: bump(m.kills, killer),
            kills_by_means: bump(m.kills_by_means, cause),
        }
    }
}

impl MatchView {
    /// No player is listed twice, each tally has distinct keys, and every
    /// player with a kill entry is listed.
    pub open spec fn well_formed(&self) -> bool {
        &&& self.players.no_duplicates()
        &&& distinct_keys(self.kills)
        &&& distinct_keys(self.kills_by_means)
        &&& forall|i: int|
            0 <= i < self.kills.len() ==> self.players.contains(#[trigger] self.kills[i].0)
    }

    /// No counter is at the largest `u32`, so one more kill can be counted.
    pub open spec fn has_room(&self) -> bool {
        &&& self.total_kills < u32::MAX
        &&& forall|i: int| 0 <= i < self.kills.len() ==> #[trigger] self.kills[i].1 < u32::MAX
        &&& forall|i: int|
            0 <= i < self.kills_by_means.len() ==> #[trigger] self.kills_by_means[i].1 < u32::MAX
    }
}

/// Recording a kill keeps an aggregate well formed.
pub proof fn lemma_record_kill_well_formed(
    m: MatchView,
    killer: Seq<char>,
    victim: Seq<char>,
    cause: MeansOfDeath,
)
    requires
        m.well_formed(),
    ensures
        record_kill_spec(m, killer, victim, cause).well_formed(),
{
    let r = record_kill_spec(m, killer, victim, cause);
    let ps = add_once(m.players, victim);
    assert(ps.no_duplicates());
    assert(forall|p: Seq<char>| m.players.contains(p) ==> ps.contains(p)) by {
        assert forall|p: Seq<char>| m.players.contains(p) implies ps.contains(p) by {
            let i = choose|i: int| 0 <= i < m.players.len() && m.players[i] == p;
            assert(ps[i] == p);
        }
    }
    lemma_bump_keys(m.kills_by_means, cause);
    if killer == world() {
        lemma_lower_keys(m.kills, victim);
        assert forall|i: int| 0 <= i < r.kills.len() implies r.players.contains(
            #[trigger] r.kills[i].0,
        ) by {
            assert(r.kills[i].0 == m.kills[i].0);
            assert(m.players.contains(m.kills[i].0));
        }
        assert(distinct_keys(r.kills)) by {
            assert forall|i: int, j: int| 0 <= i < j < r.kills.len() implies r.kills[i].0
                != r.kills[j].0 by {
                assert(r.kills[i].0 == m.kills[i].0);
                assert(r.kills[j].0 == m.kills[j].0);
            }
        }
    } else {
        let ps2 = add_once(ps, killer);
        assert(ps2.no_duplicates());
        assert(ps2.contains(killer)) by {
            if ps.contains(killer) {
                let i = choose|i: int| 0 <= i < ps.len() && ps[i] == killer;
                assert(ps2[i] == killer);
            } else {
                assert(ps2[ps.len() as int] == killer);
            }
        }
        lemma_bump_keys(m.kills, killer);
        lemma_position_of(m.kills, killer);
        assert forall|i: int| 0 <= i < r.kills.len() implies r.players.contains(
            #[trigger] r.kills[i].0,
        ) by {
            if i < m.kills.len() {
                assert(r.kills[i].0 == m.kills[i].0);
                assert(m.players.contains(m.kills[i].0));
                assert(ps.contains(m.kills[i].0));
                let j = choose|j: int| 0 <= j < ps.len() && ps[j] == m.kills[i].0;
                assert(ps2[j] == m.kills[i].0);
            }
        }
    }
}

/// The aggregate of one match.
#[derive(Clone, Debug, PartialEq, Eq)]
pub struct GameMatch {
    pub total_kills: u32,
    pub players: Vec<String>,
    pub kills: KillTally,
    pub kills_by_means: CauseTally,
}

impl View for GameMatch {
    type V = MatchView;

    open spec fn view(&self) -> MatchView {
        MatchView {
            total_kills: self.total_kills as nat,
            players: self.players@.map_values(|p: String| p@),
            kills: self.kills@,
            kills_by_means: self.kills_by_means@,
        }
    }
}

impl GameMatch {
    /// An empty aggregate.
    pub fn new() -> (r: GameMatch)
        ensures
            r@ == empty_match(),
    {
        let r = GameMatch {
            total_kills: 0,
            players: Vec::new(),
            kills: KillTally::new(),
            kills_by_means: CauseTally::new(),
        };
        assert(r@.players =~= Seq::<Seq<char>>::empty());
        r
    }

    /// Counts one more kill in the total.
    pub fn increase_total_kills(&mut self)
        requires
            old(self).total_kills < u32::MAX,
        ensures
            final(self)@ == (MatchView { total_kills: old(self)@.total_kills + 1, ..old(self)@ }),
    {
        self.total_kills = self.total_kills + 1;
    }

    /// Lists `player_name` among the players, unless it is listed already.
    pub fn add_player(&mut self, player_name: &str)
        ensures
            final(self)@ == (MatchView {
                players: add_once(old(self)@.players, player_name@),
                ..old(self)@
            }),
    {
        let key = player_name.to_owned();
        let ghost ps = old(self)@.players;
        let mut i: usize = 0;
        while i < self.players.len()
            invariant
                *self == *old(self),
                key@ == player_name@,
                ps == self@.players,
                i <= self.players.len(),
                forall|j: int| 0 <= j < i ==> ps[j] != player_name@,
            decreases self.players.len() - i,
        {
            assert(ps[i as int] == self.players@[i as int]@);
            if self.players[i] == key {
                assert(ps[i as int] == player_name@);
                return;
            }
            i = i + 1;
        }
        assert(!ps.contains(player_name@));
        self.players.push(key);
        assert(final(self)@.players =~= ps.push(player_name@));
    }

    /// Credits `player_name` with one more kill, creating its entry at 1.
    pub fn increase_player_kills(&mut self, player_name: &str)
        requires
            count_of(old(self)@.kills, player_name@) matches Some(c) ==> c < u32::MAX,
        ensures
            final(self)@ == (MatchView {
                kills: bump(old(self)@.kills, player_name@),
                ..old(self)@
            }),
    {
        self.kills.increment(player_name);
    }

    /// Takes one kill from `player_name` where it has an entry, not below
    /// zero; creates no entry.
    pub fn decrease_player_kills(&mut self, player_name: &str)
        ensures
            final(self)@ == (MatchView {
                kills: lower(old(self)@.kills, player_name@),
                ..old(self)@
            }),
    {
        self.kills.decrement(player_name);
    }

    /// Counts one more kill by `mean`, creating its entry at 1.
    pub fn increase_kill_by_mean(&mut self, mean: MeansOfDeath)
        requires
            count_of(old(self)@.kills_by_means, mean) matches Some(c) ==> c < u32::MAX,
        ensures
            final(self)@ == (MatchView {
                kills_by_means: bump(old(self)@.kills_by_means, mean),
                ..old(self)@
            }),
    {
        self.kills_by_means.increment(mean);
    }

    /// Applies one kill of `victim` by `killer` through `cause`.
    pub fn record_kill(&mut self, killer: &str, victim: &str, cause: MeansOfDeath)
        requires
            old(self)@.has_room(),
        ensures
            final(self)@ == record_kill_spec(old(self)@, killer@, victim@, cause),
    {
        proof {
            lemma_position_of(old(self)@.kills, killer@);
            lemma_position_of(old(self)@.kills_by_means, cause);
        }
        self.increase_total_kills();
        self.add_player(victim);
        self.increase_kill_by_mean(cause);
        if equal_chars(&chars_of(killer), "<world>") {
            self.decrease_player_kills(victim);
        } else {
            self.add_player(killer);
            self.increase_player_kills(killer);
        }
    }
}

} // verus!
