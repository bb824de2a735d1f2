//! Properties of reading a log, proved over the functions' specifications.
use vstd::prelude::*;

use crate::error::Fault;
use crate::game::{
    after_line,
    counts_agree,
    divider,
    is_boundary,
    is_kill_line,
    kill_fields,
    kill_marker,
    lemma_scan_halts,
    lemma_scan_invariant,
    run_spec,
    scan,
    KillFields,
};
use crate::game_match::{add_once, empty_match, record_kill_spec, world, MatchView};
use crate::means::{cause_of, MeansOfDeath};
use crate::tally::{count_of, lemma_first_key, lemma_lower_keys, lemma_position_of, position_of, total};
use crate::text::contains;

verus! {

/// A line that is no boundary and either lacks the kill marker or holds a
/// divider changes neither the current aggregate nor the history.
pub proof fn law_ignored_line(line: Seq<char>, pos: int, cur: MatchView, hist: Seq<MatchView>)
    requires
        !is_boundary(line),
        !contains(line, kill_marker()) || contains(line, divider()),
    ensures
        after_line(line, pos, cur, hist) == Ok::<(MatchView, Seq<MatchView>), Fault>((cur, hist)),
{
}

/// A boundary among the first three lines changes nothing; a later one adds
/// the current aggregate to the history, exactly once, and starts an empty
/// one.
pub proof fn law_boundary(line: Seq<char>, pos: int, cur: MatchView, hist: Seq<MatchView>)
    requires
        is_boundary(line),
    ensures
        pos <= 2 ==> after_line(line, pos, cur, hist) == Ok::<
            (MatchView, Seq<MatchView>),
            Fault,
        >((cur, hist)),
        pos > 2 ==> (after_line(line, pos, cur, hist) matches Ok((c, h)) && h.len() == hist.len()
            + 1 && h.last() == cur && h.subrange(0, hist.len() as int) == hist && c
            == empty_match()),
{
    if pos > 2 {
        assert(hist.push(cur).subrange(0, hist.len() as int) =~= hist);
    }
}

/// In every match of the history, the kill total is the sum of the kills
/// counted by cause.
pub proof fn law_total_is_sum_of_causes(lines: Seq<Seq<char>>)
    ensures
        forall|i: int|
            0 <= i < run_spec(lines).0.len() ==> (#[trigger] run_spec(lines).0[i]).total_kills
                == total(run_spec(lines).0[i].kills_by_means),
{
    lemma_history_invariant(lines);
}

/// In every match of the history, no player is listed twice.
pub proof fn law_players_distinct(lines: Seq<Seq<char>>)
    ensures
        forall|i: int|
            0 <= i < run_spec(lines).0.len() ==> (
            #[trigger] run_spec(lines).0[i]).players.no_duplicates(),
{
    lemma_history_invariant(lines);
}

proof fn lemma_history_invariant(lines: Seq<Seq<char>>)
    ensures
        forall|i: int|
            0 <= i < run_spec(lines).0.len() ==> (#[trigger] run_spec(lines).0[i]).well_formed()
                && counts_agree(run_spec(lines).0[i]),
{
    lemma_scan_invariant(lines, lines.len());
    if let Ok((c, h)) = scan(lines, lines.len()) {
        assert forall|i: int| 0 <= i < h.push(c).len() implies (#[trigger] h.push(
            c,
        )[i]).well_formed() && counts_agree(h.push(c)[i]) by {
            if i < h.len() {
                assert(h.push(c)[i] == h[i]);
            }
        }
    }
}

/// Players keep the order in which they were first seen: a kill keeps the
/// list as it was and appends the victim, then the killer unless it is the
/// world, each only where not listed yet.
pub proof fn law_players_first_seen(
    m: MatchView,
    killer: Seq<char>,
    victim: Seq<char>,
    cause: MeansOfDeath,
)
    requires
        m.players.no_duplicates(),
    ensures
        record_kill_spec(m, killer, victim, cause).players == if killer == world() {
            add_once(m.players, victim)
        } else {
            add_once(add_once(m.players, victim), killer)
        },
        record_kill_spec(m, killer, victim, cause).players.no_duplicates(),
        record_kill_spec(m, killer, victim, cause).players.subrange(0, m.players.len() as int)
            == m.players,
{
    let ps = add_once(m.players, victim);
    let r = record_kill_spec(m, killer, victim, cause).players;
    assert(ps.no_duplicates());
    assert(ps.subrange(0, m.players.len() as int) =~= m.players);
    if killer != world() {
        assert(add_once(ps, killer).no_duplicates());
        assert(add_once(ps, killer).subrange(0, m.players.len() as int) =~= m.players);
    }
}

/// A kill by the world creates no kill entry and lowers the victim's entry,
/// where there is one, by one but not below zero.
pub proof fn law_world_kill(m: MatchView, victim: Seq<char>, cause: MeansOfDeath)
    ensures
        record_kill_spec(m, world(), victim, cause).kills.len() == m.kills.len(),
        forall|j: int|
            0 <= j < m.kills.len() ==> #[trigger] record_kill_spec(
                m,
                world(),
                victim,
                cause,
            ).kills[j].0 == m.kills[j].0,
        count_of(m.kills, victim) is None ==> record_kill_spec(m, world(), victim, cause).kills
            == m.kills,
        count_of(m.kills, victim) matches Some(c) ==> (count_of(
            record_kill_spec(m, world(), victim, cause).kills,
            victim,
        ) == Some(if c > 0 { (c - 1) as nat } else { 0nat })),
{
    lemma_lower_keys(m.kills, victim);
    lemma_position_of(m.kills, victim);
    let r = record_kill_spec(m, world(), victim, cause).kills;
    lemma_position_of(r, victim);
    if let Some(i) = position_of(m.kills, victim) {
        assert(position_of(r, victim) == Some(i)) by {
            assert forall|t: int| 0 <= t < i implies r[t].0 != victim by {
                assert(r[t].0 == m.kills[t].0);
            }
            lemma_first_key(r, victim, i);
        }
    }
}

/// A kill line whose cause token is outside the vocabulary is a hard error
/// that carries the token.
pub proof fn law_unknown_cause(line: Seq<char>, pos: int, cur: MatchView, hist: Seq<MatchView>)
    requires
        !is_boundary(line),
        is_kill_line(line),
        kill_fields(line) matches KillFields::Fields(_, _, t) && cause_of(t) is None,
    ensures
        kill_fields(line) matches KillFields::Fields(_, _, t) && after_line(line, pos, cur, hist)
            == Err::<(MatchView, Seq<MatchView>), Fault>(Fault::UnrecognizedCause(t)),
{
}

/// After a hard error no further line is applied: the result of the whole
/// reading is the history at the failing line and its fault.
pub proof fn law_error_halts(lines: Seq<Seq<char>>, n: nat)
    requires
        n <= lines.len(),
        scan(lines, n) is Err,
    ensures
        scan(lines, n) matches Err((h, f)) && run_spec(lines) == (h, Err::<(), Fault>(f)),
{
    lemma_scan_halts(lines, n, lines.len());
}

/// At the end of the input the match still open is appended to the history,
/// whether or not a boundary closed it and even if it is empty.
pub proof fn law_end_appends_open_match(lines: Seq<Seq<char>>)
    ensures
        scan(lines, lines.len()) matches Ok((c, h)) ==> (run_spec(lines).0 == h.push(c)
            && run_spec(lines).1 is Ok),
        lines.len() == 0 ==> run_spec(lines) == (
        seq![empty_match()],
        Ok::<(), Fault>(()),
        ),
{
    if lines.len() == 0 {
        assert(Seq::<MatchView>::empty().push(empty_match()) =~= seq![empty_match()]);
    }
}

} // verus!
