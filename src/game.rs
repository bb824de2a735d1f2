//! Reading a log: each line is classified as a match boundary, a kill or
//! something else, and applied in order to the match being built and to the
//! history of finished matches.
use vstd::prelude::*;

use crate::error::{Fault, LogError};
use crate::game_match::{
    empty_match,
    lemma_record_kill_well_formed,
    record_kill_spec,
    GameMatch,
    MatchView,
};
use crate::means::{cause_of, MeansOfDeath};
use crate::tally::{
    lemma_count_le_total,
    lemma_position_of,
    lemma_total_bump,
    total,
};
use crate::text::{
    after_last,
    after_last_start,
    chars_of,
    contains,
    ends_with_char,
    find_in,
    lemma_find_from,
    split_once,
    starts_with,
    starts_with_range,
    trim,
    trim_range,
};

verus! {

/// Marks the start of a match.
pub open spec fn boundary_marker() -> Seq<char> {
    "InitGame:"@
}

/// Marks a kill line.
pub open spec fn kill_marker() -> Seq<char> {
    "Kill"@
}

/// A run of dashes: a divider row, never a kill.
pub open spec fn divider() -> Seq<char> {
    "---"@
}

/// Separates the killer clause from the rest of a kill line.
pub open spec fn killed_word() -> Seq<char> {
    "killed"@
}

/// Separates the victim from the cause of death.
pub open spec fn by_word() -> Seq<char> {
    "by"@
}

/// The line opens a new match.
pub open spec fn is_boundary(line: Seq<char>) -> bool {
    contains(line, boundary_marker())
}

/// The line reports a kill: it holds the kill marker and no divider.
pub open spec fn is_kill_line(line: Seq<char>) -> bool {
    contains(line, kill_marker()) && !contains(line, divider())
}

/// What a kill line yields once taken apart.
pub enum KillFields {
    /// No killer clause can be cut off.
    Malformed,
    /// The killer or the victim is empty: the line is passed over.
    Skipped,
    /// Both names are there but no cause follows the victim.
    MissingCause,
    /// Killer, victim and the cause token.
    Fields(Seq<char>, Seq<char>, Seq<char>),
}

/// A kill line taken apart. It is cut at the first "killed"; both parts are
/// trimmed. A killer clause that ends with ':' or a rest that begins with
/// "by" means an empty name. The killer is what follows the last ':' of its
/// clause; the rest is cut at its first "by" into victim and cause token; all
/// three are trimmed.
pub open spec fn kill_fields(line: Seq<char>) -> KillFields {
    match split_once(line, killed_word()) {
        None => KillFields::Malformed,
        Some((a, b)) => {
            let killer_raw = trim(a);
            let rest = trim(b);
            if ends_with_char(killer_raw, ':') || starts_with(rest, by_word()) {
                KillFields::Skipped
            } else {
                match split_once(rest, by_word()) {
                    None => KillFields::MissingCause,
                    Some((v, c)) => KillFields::Fields(
                        trim(after_last(killer_raw, ':')),
                        trim(v),
                        trim(c),
                    ),
                }
            }
        },
    }
}

/// The current aggregate and the history after the line `line` at position
/// `pos`, or the fault that stops the reading. A boundary after the first
/// three lines closes the current match into the history and starts an empty
/// one; a boundary among the first three lines changes nothing.
pub open spec fn after_line(
    line: Seq<char>,
    pos: int,
    cur: MatchView,
    hist: Seq<MatchView>,
) -> Result<(MatchView, Seq<MatchView>), Fault> {
    if is_boundary(line) {
        if pos > 2 {
            Ok((empty_match(), hist.push(cur)))
        } else {
            Ok((cur, hist))
        }
    } else if !is_kill_line(line) {
        Ok((cur, hist))
    } else {
        match kill_fields(line) {
            KillFields::Malformed => Err(Fault::MalformedKillLine),
            KillFields::Skipped => Ok((cur, hist)),
            KillFields::MissingCause => Err(Fault::MissingCauseOfDeath),
            KillFields::Fields(k, v, c) => match cause_of(c) {
                Some(m) => Ok((record_kill_spec(cur, k, v, m), hist)),
                None => Err(Fault::UnrecognizedCause(c)),
            },
        }
    }
}

/// The aggregates of a history, as values.
pub open spec fn history_view(games: Seq<GameMatch>) -> Seq<MatchView> {
    games.map_values(|g: GameMatch| g@)
}

/// The lines of a log, as values.
pub open spec fn lines_view(lines: Seq<String>) -> Seq<Seq<char>> {
    lines.map_values(|l: String| l@)
}

/// The state after the first `n` lines: the current aggregate and the
/// history, or the history at the failing line and its fault.
pub open spec fn scan(lines: Seq<Seq<char>>, n: nat) -> Result<
    (MatchView, Seq<MatchView>),
    (Seq<MatchView>, Fault),
>
    decreases n,
{
    if n == 0 {
        Ok((empty_match(), Seq::empty()))
    } else {
        match scan(lines, (n - 1) as nat) {
            Err(e) => Err(e),
            Ok((c, h)) => match after_line(lines[n - 1], n - 1, c, h) {
                Ok(s) => Ok(s),
                Err(f) => Err((h, f)),
            },
        }
    }
}

/// The history that reading all of `lines` gives, with the match still open
/// at the end appended, or the history up to the failing line and its fault.
pub open spec fn run_spec(lines: Seq<Seq<char>>) -> (Seq<MatchView>, Result<(), Fault>) {
    match scan(lines, lines.len()) {
        Ok((c, h)) => (h.push(c), Ok(())),
        Err((h, f)) => (h, Err(f)),
    }
}

/// The counters of `m` agree: the total is the sum of the counts by cause,
/// and no player holds more kills than the total.
pub open spec fn counts_agree(m: MatchView) -> bool {
    &&& m.total_kills == total(m.kills_by_means)
    &&& forall|i: int| 0 <= i < m.kills.len() ==> #[trigger] m.kills[i].1 <= m.total_kills
}

/// Recording a kill keeps the counters in agreement.
pub proof fn lemma_record_kill_counts(
    m: MatchView,
    killer: Seq<char>,
    victim: Seq<char>,
    cause: MeansOfDeath,
)
    requires
        counts_agree(m),
    ensures
        counts_agree(record_kill_spec(m, killer, victim, cause)),
{
    lemma_total_bump(m.kills_by_means, cause);
    lemma_position_of(m.kills, victim);
    lemma_position_of(m.kills, killer);
    let r = record_kill_spec(m, killer, victim, cause);
    assert forall|i: int| 0 <= i < r.kills.len() implies #[trigger] r.kills[i].1
        <= r.total_kills by {
        if i < m.kills.len() {
            assert(m.kills[i].1 <= m.total_kills);
        }
    }
}

/// Every aggregate that the first `n` lines build, the current one and each
/// in the history, is well formed and its counters agree; the current one
/// holds at most `n` kills.
pub proof fn lemma_scan_invariant(lines: Seq<Seq<char>>, n: nat)
    requires
        n <= lines.len(),
    ensures
        match scan(lines, n) {
            Ok((c, h)) => {
                &&& c.well_formed()
                &&& counts_agree(c)
                &&& c.total_kills <= n
                &&& forall|i: int|
                    0 <= i < h.len() ==> (#[trigger] h[i]).well_formed() && counts_agree(h[i])
            },
            Err((h, _)) => forall|i: int|
                0 <= i < h.len() ==> (#[trigger] h[i]).well_formed() && counts_agree(h[i]),
        },
    decreases n,
{
    if n == 0 {
        assert(empty_match().players.no_duplicates());
    } else {
        lemma_scan_invariant(lines, (n - 1) as nat);
        match scan(lines, (n - 1) as nat) {
            Err(_) => {},
            Ok((c, h)) => {
                let line = lines[n - 1];
                if !is_boundary(line) && is_kill_line(line) {
                    if let KillFields::Fields(k, v, t) = kill_fields(line) {
                        if let Some(m) = cause_of(t) {
                            lemma_record_kill_well_formed(c, k, v, m);
                            lemma_record_kill_counts(c, k, v, m);
                        }
                    }
                } else if is_boundary(line) && n - 1 > 2 {
                    assert(empty_match().players.no_duplicates());
                    assert forall|i: int| 0 <= i < h.push(c).len() implies (#[trigger] h.push(
                        c,
                    )[i]).well_formed() && counts_agree(h.push(c)[i]) by {
                        if i < h.len() {
                            assert(h.push(c)[i] == h[i]);
                        }
                    }
                }
            },
        }
    }
}

/// Once a line has failed, the lines after it change nothing.
pub proof fn lemma_scan_halts(lines: Seq<Seq<char>>, n: nat, m: nat)
    requires
        n <= m,
        scan(lines, n) is Err,
    ensures
        scan(lines, m) == scan(lines, n),
    decreases m,
{
    if m > n {
        lemma_scan_halts(lines, n, (m - 1) as nat);
    }
}

/// A log source.
pub struct Game {
    filename: String,
}

impl Game {
    /// The name of the file the log is read from.
    pub closed spec fn source(&self) -> Seq<char> {
        self.filename@
    }

    /// A log source reading from `filename`.
    pub fn new(filename: &str) -> (r: Game)
        ensures
            r.source() == filename@,
    {
        Game { filename: filename.to_owned() }
    }

    /// The name of the file the log is read from.
    pub fn filename(&self) -> (r: &str)
        ensures
            r@ == self.source(),
    {
        self.filename.as_str()
    }

    /// Applies the line `line` at position `index` to the current aggregate
    /// and the history: a boundary closes the match (after the first three
    /// lines), a kill is recorded, a kill line with an empty name and any
    /// other line are passed over. On a hard error neither changes.
    pub fn handle_line(
        line: &str,
        current_game: &mut GameMatch,
        games: &mut Vec<GameMatch>,
        index: usize,
    ) -> (r: Result<(), LogError>)
        requires
            old(current_game)@.has_room(),
        ensures
            match after_line(line@, index as int, old(current_game)@, history_view(old(games)@)) {
                Ok((c, h)) => r is Ok && final(current_game)@ == c && history_view(final(games)@)
                    == h,
                Err(f) => r is Err && r->Err_0@ == f && *final(current_game) == *old(
                    current_game,
                ),
            },
            is_boundary(line@) && index > 2 ==> final(games)@ == old(games)@.push(
                *old(current_game),
            ),
            !(is_boundary(line@) && index > 2) ==> final(games)@ == old(games)@,
    {
        let v = chars_of(line);
        let n = v.len();
        assert(v@.subrange(0, n as int) =~= line@);
        if find_in(&v, 0, n, &chars_of("InitGame:")).is_some() {
            if index > 2 {
                let mut done = GameMatch::new();
                std::mem::swap(current_game, &mut done);
                games.push(done);
                assert(history_view(games@) =~= history_view(old(games)@).push(done@));
            }
            return Ok(());
        }
        let has_kill = find_in(&v, 0, n, &chars_of("Kill")).is_some();
        let has_divider = find_in(&v, 0, n, &chars_of("---")).is_some();
        if !has_kill || has_divider {
            return Ok(());
        }
        let killed = chars_of("killed");
        let j = match find_in(&v, 0, n, &killed) {
            None => {
                return Err(LogError::MalformedKillLine);
            },
            Some(j) => j,
        };
        proof {
            lemma_find_from(line@, killed@, 0);
            assert(line@.subrange(0, j as int) == v@.subrange(0, j as int));
        }
        let (ka, kb) = trim_range(&v, 0, j);
        let (ra, rb) = trim_range(&v, j + killed.len(), n);
        let by = chars_of("by");
        // An empty killer or victim: the line is passed over.
        let bad_killer = kb > ka && v[kb - 1] == ':';
        if bad_killer || starts_with_range(&v, ra, rb, &by) {
            return Ok(());
        }
        let q = match find_in(&v, ra, rb, &by) {
            None => {
                return Err(LogError::MissingCauseOfDeath);
            },
            Some(q) => q,
        };
        let ghost rest = v@.subrange(ra as int, rb as int);
        proof {
            lemma_find_from(rest, by@, 0);
            assert(rest.subrange(0, q as int) =~= v@.subrange(ra as int, ra + q));
            assert(rest.subrange(q + by.len(), rest.len() as int) =~= v@.subrange(
                ra + q + by.len(),
                rb as int,
            ));
        }
        let ks = after_last_start(&v, ka, kb, ':');
        let (k0, k1) = trim_range(&v, ks, kb);
        let (v0, v1) = trim_range(&v, ra, ra + q);
        let (c0, c1) = trim_range(&v, ra + q + by.len(), rb);
        let cause = match MeansOfDeath::from_token(line.substring_char(c0, c1)) {
            Ok(m) => m,
            Err(e) => {
                return Err(e);
            },
        };
        current_game.record_kill(line.substring_char(k0, k1), line.substring_char(v0, v1), cause);
        Ok(())
    }

    /// Reads `lines` in order. Returns the history, with the match still open
    /// at the end appended, and `Ok`; or, at the first hard error, the history
    /// closed so far and the error.
    pub fn run(lines: &Vec<String>) -> (r: (Vec<GameMatch>, Result<(), LogError>))
        requires
            lines.len() < u32::MAX,
        ensures
            history_view(r.0@) == run_spec(lines_view(lines@)).0,
            match run_spec(lines_view(lines@)).1 {
                Ok(_) => r.1 is Ok,
                Err(f) => r.1 is Err && r.1->Err_0@ == f,
            },
    {
        let ghost lv = lines_view(lines@);
        let mut games: Vec<GameMatch> = Vec::new();
        let mut current = GameMatch::new();
        let mut i: usize = 0;
        assert(history_view(games@) =~= Seq::<MatchView>::empty());
        while i < lines.len()
            invariant
                lines.len() < u32::MAX,
                lv == lines_view(lines@),
                i <= lines.len(),
                scan(lv, i as nat) == Ok::<(MatchView, Seq<MatchView>), (Seq<MatchView>, Fault)>(
                    (current@, history_view(games@)),
                ),
            decreases lines.len() - i,
        {
            proof {
                lemma_scan_invariant(lv, i as nat);
                assert forall|k: int| 0 <= k < current@.kills_by_means.len() implies #[trigger] current@.kills_by_means[k].1 < u32::MAX by {
                    lemma_count_le_total(current@.kills_by_means, k);
                }
                assert forall|k: int| 0 <= k < current@.kills.len() implies #[trigger] current@.kills[k].1 < u32::MAX by {
                    assert(current@.kills[k].1 <= current@.total_kills);
                }
                assert(lv[i as int] == lines@[i as int]@);
            }
            match Game::handle_line(lines[i].as_str(), &mut current, &mut games, i) {
                Ok(()) => {},
                Err(e) => {
                    proof {
                        lemma_scan_halts(lv, (i + 1) as nat, lv.len());
                    }
                    return (games, Err(e));
                },
            }
            i = i + 1;
        }
        let ghost closed = history_view(games@);
        let ghost open = current@;
        games.push(current);
        assert(history_view(games@) =~= closed.push(open));
        (games, Ok(()))
    }
}

} // verus!
