//! Tallying a football tournament: each input line names two teams and a
//! result (win, loss or draw), the table accumulates per-team statistics,
//! and the output renders the table sorted by points, ties broken by name.

use itertools::Itertools;
use vstd::prelude::*;

verus! {

use core::cmp::Ordering;
use vstd::string::*;
use crate::decimal::{dec_digits, u64_to_string};
use crate::splitter::{spec_split_on, split_on};
use crate::grep::str_eq;

/// One team's accumulated record.
#[derive(Clone, Copy, PartialEq, Eq, Structural, Debug)]
pub struct TeamStats {
    pub matches_won: i32,
    pub matches_drawn: i32,
    pub matches_lost: i32,
}

/// Three points for a win, one for a draw.
pub open spec fn points_of(s: TeamStats) -> int {
    3 * s.matches_won + s.matches_drawn
}

/// How many matches the team has played.
pub open spec fn total_of(s: TeamStats) -> int {
    s.matches_won + s.matches_drawn + s.matches_lost
}

/// Every counter lies between zero and `b`.
pub open spec fn stats_bounded(s: TeamStats, b: int) -> bool {
    0 <= s.matches_won <= b && 0 <= s.matches_drawn <= b && 0 <= s.matches_lost <= b
}

impl TeamStats {
    pub fn new() -> (r: Self)
        ensures
            r.matches_won == 0,
            r.matches_drawn == 0,
            r.matches_lost == 0,
    {
        TeamStats { matches_won: 0, matches_lost: 0, matches_drawn: 0 }
    }

    pub fn calc_team_points(&self) -> (r: i32)
        requires
            stats_bounded(*self, 0x1fff_ffff),
        ensures
            r == points_of(*self),
    {
        self.matches_won * 3 + self.matches_drawn
    }

    pub fn calc_total_matches(&self) -> (r: i32)
        requires
            stats_bounded(*self, 0x1fff_ffff),
        ensures
            r == total_of(*self),
    {
        self.matches_won + self.matches_lost + self.matches_drawn
    }

    pub fn add_win(stats: &TeamStats) -> (r: TeamStats)
        requires
            stats.matches_won < i32::MAX,
        ensures
            r == (TeamStats { matches_won: (stats.matches_won + 1) as i32, ..*stats }),
    {
        TeamStats { matches_won: stats.matches_won + 1, ..*stats }
    }

    pub fn add_draw(stats: &TeamStats) -> (r: TeamStats)
        requires
            stats.matches_drawn < i32::MAX,
        ensures
            r == (TeamStats { matches_drawn: (stats.matches_drawn + 1) as i32, ..*stats }),
    {
        TeamStats { matches_drawn: stats.matches_drawn + 1, ..*stats }
    }

    pub fn add_loss(stats: &TeamStats) -> (r: TeamStats)
        requires
            stats.matches_lost < i32::MAX,
        ensures
            r == (TeamStats { matches_lost: (stats.matches_lost + 1) as i32, ..*stats }),
    {
        TeamStats { matches_lost: stats.matches_lost + 1, ..*stats }
    }
}

/// What one parsed line contributes to one team's record.
#[derive(Clone, Copy, PartialEq, Eq, Structural, Debug)]
pub enum Outcome {
    Win,
    Loss,
    Draw,
}

/// `stats` with the counter named by `outcome` stepped once.
pub open spec fn apply_outcome(s: TeamStats, o: Outcome) -> TeamStats {
    match o {
        Outcome::Win => TeamStats { matches_won: (s.matches_won + 1) as i32, ..s },
        Outcome::Loss => TeamStats { matches_lost: (s.matches_lost + 1) as i32, ..s },
        Outcome::Draw => TeamStats { matches_drawn: (s.matches_drawn + 1) as i32, ..s },
    }
}

/// The table as a mathematical value: each entry a team name and its record.
pub open spec fn entries_view(t: Seq<(String, TeamStats)>) -> Seq<(Seq<char>, TeamStats)> {
    Seq::new(t.len(), |i: int| (t[i].0@, t[i].1))
}

/// The first index whose entry carries `name`, scanning from `i`, or -1.
pub open spec fn find_team_from(t: Seq<(Seq<char>, TeamStats)>, name: Seq<char>, i: int) -> int
    decreases t.len() - i,
{
    if i < 0 || i >= t.len() {
        -1
    } else if t[i].0 == name {
        i
    } else {
        find_team_from(t, name, i + 1)
    }
}

/// The table after applying `outcome` to `name`: the named entry's record
/// is stepped, or a fresh entry is appended for a team not seen before.
pub open spec fn spec_update(
    t: Seq<(Seq<char>, TeamStats)>,
    name: Seq<char>,
    o: Outcome,
) -> Seq<(Seq<char>, TeamStats)> {
    let i = find_team_from(t, name, 0);
    if i >= 0 {
        t.update(i, (name, apply_outcome(t[i].1, o)))
    } else {
        t.push((name, apply_outcome(TeamStats { matches_won: 0, matches_drawn: 0, matches_lost: 0 }, o)))
    }
}

/// The accumulated table of a competition, one entry per team.
pub struct CompetitionResult {
    pub table: Vec<(String, TeamStats)>,
}

impl CompetitionResult {
    pub open spec fn view_of(&self) -> Seq<(Seq<char>, TeamStats)> {
        entries_view(self.table@)
    }

    /// No two entries carry the same team name.
    pub open spec fn wf(&self) -> bool {
        forall|i: int, j: int|
            0 <= i < j < self.view_of().len() ==> (#[trigger] self.view_of()[i]).0 != (
            #[trigger] self.view_of()[j]).0
    }

    /// Every record's counters lie between zero and `b`.
    pub open spec fn bounded(&self, b: int) -> bool {
        forall|i: int| 0 <= i < self.view_of().len() ==> stats_bounded(
            (#[trigger] self.view_of()[i]).1,
            b,
        )
    }

    pub fn new() -> (r: Self)
        ensures
            r.view_of() == Seq::<(Seq<char>, TeamStats)>::empty(),
            r.wf(),
            r.bounded(0),
    {
        let r = CompetitionResult { table: Vec::new() };
        proof {
            assert(r.view_of() =~= Seq::<(Seq<char>, TeamStats)>::empty());
        }
        r
    }

    /// Step the record of `team` by `outcome`, appending a fresh entry for
    /// a team not seen before.
    pub fn update_team(self, team: &String, outcome: Outcome) -> (r: CompetitionResult)
        requires
            self.wf(),
            self.bounded(i32::MAX - 1),
        ensures
            r.view_of() == spec_update(self.view_of(), team@, outcome),
            r.wf(),
            forall|b: int|
                0 <= b < i32::MAX && self.bounded(b) ==> r.bounded(b + 1),
    {
        let ghost t = self.view_of();
        let mut mutable_self = self;
        let n = mutable_self.table.len();
        let mut i: usize = 0;
        let mut idx: usize = n;
        while i < n
            invariant
                n == mutable_self.table@.len(),
                i <= n,
                t == entries_view(mutable_self.table@),
                idx <= n,
                idx == n ==> find_team_from(t, team@, 0) == find_team_from(t, team@, i as int),
                idx == n ==> forall|j: int| 0 <= j < i ==> (#[trigger] t[j]).0 != team@,
                idx < n ==> find_team_from(t, team@, 0) == idx && t[idx as int].0 == team@,
            decreases n - i,
        {
            if idx == n && str_eq(mutable_self.table[i].0.as_str(), team.as_str()) {
                idx = i;
                proof {
                    assert(find_team_from(t, team@, i as int) == i);
                }
            }
            i += 1;
        }
        if idx < n {
            let updated = match outcome {
                Outcome::Win => TeamStats::add_win(&mutable_self.table[idx].1),
                Outcome::Loss => TeamStats::add_loss(&mutable_self.table[idx].1),
                Outcome::Draw => TeamStats::add_draw(&mutable_self.table[idx].1),
            };
            let name = String::from_str(team.as_str());
            let ghost old_table = mutable_self.table@;
            mutable_self.table.remove(idx);
            mutable_self.table.insert(idx, (name, updated));
            proof {
                assert(mutable_self.table@ =~= old_table.update(
                    idx as int,
                    (mutable_self.table@[idx as int].0, updated),
                ));
                assert(entries_view(mutable_self.table@) =~~= spec_update(t, team@, outcome));
                assert forall|j1: int, j2: int|
                    0 <= j1 < j2 < entries_view(mutable_self.table@).len() implies (
                #[trigger] entries_view(mutable_self.table@)[j1]).0 != (#[trigger] entries_view(
                    mutable_self.table@,
                )[j2]).0 by {
                    assert((t[j1]).0 != (t[j2]).0);
                    assert(entries_view(mutable_self.table@)[j1].0 == t[j1].0);
                    assert(entries_view(mutable_self.table@)[j2].0 == t[j2].0);
                }
            }
            mutable_self
        } else {
            let name = String::from_str(team.as_str());
            let fresh = match outcome {
                Outcome::Win => TeamStats::add_win(&TeamStats::new()),
                Outcome::Loss => TeamStats::add_loss(&TeamStats::new()),
                Outcome::Draw => TeamStats::add_draw(&TeamStats::new()),
            };
            mutable_self.table.push((name, fresh));
            proof {
                assert(find_team_from(t, team@, n as int) == -1);
                assert(name@ == team@);
                assert(fresh == apply_outcome(
                    TeamStats { matches_won: 0, matches_drawn: 0, matches_lost: 0 },
                    outcome,
                ));
                assert(entries_view(mutable_self.table@) =~~= spec_update(t, team@, outcome));
                assert forall|j1: int, j2: int|
                    0 <= j1 < j2 < entries_view(mutable_self.table@).len() implies (
                #[trigger] entries_view(mutable_self.table@)[j1]).0 != (#[trigger] entries_view(
                    mutable_self.table@,
                )[j2]).0 by {
                    if j2 < n {
                        assert((t[j1]).0 != (t[j2]).0);
                    } else {
                        assert((t[j1]).0 != team@);
                    }
                }
            }
            mutable_self
        }
    }

    pub fn add_win(self, team: &String) -> (r: CompetitionResult)
        requires
            self.wf(),
            self.bounded(i32::MAX - 1),
        ensures
            r.view_of() == spec_update(self.view_of(), team@, Outcome::Win),
            r.wf(),
            forall|b: int| 0 <= b < i32::MAX && self.bounded(b) ==> r.bounded(b + 1),
    {
        self.update_team(team, Outcome::Win)
    }

    pub fn add_loss(self, team: &String) -> (r: CompetitionResult)
        requires
            self.wf(),
            self.bounded(i32::MAX - 1),
        ensures
            r.view_of() == spec_update(self.view_of(), team@, Outcome::Loss),
            r.wf(),
            forall|b: int| 0 <= b < i32::MAX && self.bounded(b) ==> r.bounded(b + 1),
    {
        self.update_team(team, Outcome::Loss)
    }

    pub fn add_draw(self, team: &String) -> (r: CompetitionResult)
        requires
            self.wf(),
            self.bounded(i32::MAX - 1),
        ensures
            r.view_of() == spec_update(self.view_of(), team@, Outcome::Draw),
            r.wf(),
            forall|b: int| 0 <= b < i32::MAX && self.bounded(b) ==> r.bounded(b + 1),
    {
        self.update_team(team, Outcome::Draw)
    }
}

/// One parsed input line.
pub enum MatchResult {
    Win { winner: String, loser: String },
    Draw((String, String)),
}

pub fn create_winner_result(winner: &str, loser: &str) -> (r: MatchResult)
    ensures
        r matches MatchResult::Win { winner: w, loser: l } && w@ == winner@ && l@ == loser@,
{
    MatchResult::Win { winner: String::from_str(winner), loser: String::from_str(loser) }
}

pub fn create_draw_result(team1: &str, team2: &str) -> (r: MatchResult)
    ensures
        r matches MatchResult::Draw(p) && p.0@ == team1@ && p.1@ == team2@,
{
    MatchResult::Draw((String::from_str(team1), String::from_str(team2)))
}

/// What one line contributes, read from its semicolon-separated tokens:
/// two team names and whether the match was drawn; for a win or a loss the
/// winner stands first. A line without a readable result contributes
/// nothing.
pub open spec fn spec_parse_match(line: Seq<char>) -> Option<(Seq<char>, Seq<char>, bool)> {
    let toks = spec_split_on(line, ';');
    if toks.len() < 3 {
        None
    } else if toks[2] == "win"@ {
        Some((toks[0], toks[1], false))
    } else if toks[2] == "loss"@ {
        Some((toks[1], toks[0], false))
    } else if toks[2] == "draw"@ {
        Some((toks[0], toks[1], true))
    } else {
        None
    }
}

pub fn parse_match_result(result: &str) -> (r: Option<MatchResult>)
    ensures
        r is None <==> spec_parse_match(result@) is None,
        r matches Some(m) ==> match m {
            MatchResult::Win { winner, loser } => spec_parse_match(result@) == Some(
                (winner@, loser@, false),
            ),
            MatchResult::Draw(p) => spec_parse_match(result@) == Some((p.0@, p.1@, true)),
        },
{
    let split = split_on(result, ';');
    if split.len() < 3 {
        return None;
    }
    proof {
        assert(split.deep_view()[0] == split@[0]@);
        assert(split.deep_view()[1] == split@[1]@);
        assert(split.deep_view()[2] == split@[2]@);
    }
    if str_eq(split[2].as_str(), "win") {
        Some(create_winner_result(split[0].as_str(), split[1].as_str()))
    } else if str_eq(split[2].as_str(), "loss") {
        Some(create_winner_result(split[1].as_str(), split[0].as_str()))
    } else if str_eq(split[2].as_str(), "draw") {
        Some(create_draw_result(split[0].as_str(), split[1].as_str()))
    } else {
        None
    }
}

/// The table accumulated over the first `i` lines: a win steps the winner's
/// and loser's records, a draw both teams' draw counters; the first-named
/// team's record is stepped first.
pub open spec fn spec_table_upto(lines: Seq<Seq<char>>, i: int) -> Seq<(Seq<char>, TeamStats)>
    decreases i,
{
    if i <= 0 {
        Seq::empty()
    } else {
        let prev = spec_table_upto(lines, i - 1);
        match spec_parse_match(lines[i - 1]) {
            None => prev,
            Some(pr) => {
                let first = if pr.2 {
                    Outcome::Draw
                } else {
                    Outcome::Win
                };
                let second = if pr.2 {
                    Outcome::Draw
                } else {
                    Outcome::Loss
                };
                spec_update(spec_update(prev, pr.0, first), pr.1, second)
            },
        }
    }
}

/// The table accumulated over every line of the input.
pub open spec fn spec_parse_results(content: Seq<char>) -> Seq<(Seq<char>, TeamStats)> {
    let lines = spec_split_on(content, '\n');
    spec_table_upto(lines, lines.len() as int)
}

pub fn parse_results(match_results: &str) -> (r: CompetitionResult)
    requires
        spec_split_on(match_results@, '\n').len() <= 0x0800_0000,
    ensures
        r.view_of() == spec_parse_results(match_results@),
        r.wf(),
        r.bounded(2 * spec_split_on(match_results@, '\n').len() as int),
{
    let lines = split_on(match_results, '\n');
    let n = lines.len();
    let mut acc = CompetitionResult::new();
    let mut i: usize = 0;
    while i < n
        invariant
            n == lines@.len(),
            i <= n,
            lines.deep_view() == spec_split_on(match_results@, '\n'),
            n <= 0x0800_0000,
            acc.view_of() == spec_table_upto(lines.deep_view(), i as int),
            acc.wf(),
            acc.bounded(2 * i as int),
        decreases n - i,
    {
        proof {
            assert(lines.deep_view()[i as int] == lines@[i as int]@);
        }
        match parse_match_result(lines[i].as_str()) {
            Some(MatchResult::Win { winner, loser }) => {
                acc = acc.add_win(&winner).add_loss(&loser);
            },
            Some(MatchResult::Draw(pair)) => {
                acc = acc.add_draw(&pair.0).add_draw(&pair.1);
            },
            None => {},
        }
        i += 1;
    }
    acc
}

/// Character-by-character lexicographic comparison.
pub open spec fn lex_cmp(a: Seq<char>, b: Seq<char>) -> Ordering
    decreases a.len(),
{
    if a.len() == 0 && b.len() == 0 {
        Ordering::Equal
    } else if a.len() == 0 {
        Ordering::Less
    } else if b.len() == 0 {
        Ordering::Greater
    } else if a[0] != b[0] {
        if a[0] < b[0] {
            Ordering::Less
        } else {
            Ordering::Greater
        }
    } else {
        lex_cmp(a.drop_first(), b.drop_first())
    }
}

pub fn str_lex_cmp(a: &str, b: &str) -> (r: Ordering)
    ensures
        r == lex_cmp(a@, b@),
{
    let na = a.unicode_len();
    let nb = b.unicode_len();
    proof {
        assert(a@.subrange(0, na as int) =~= a@);
        assert(b@.subrange(0, nb as int) =~= b@);
    }
    let mut i: usize = 0;
    while i < na && i < nb
        invariant
            na == a@.len(),
            nb == b@.len(),
            i <= na,
            i <= nb,
            lex_cmp(a@, b@) == lex_cmp(
                a@.subrange(i as int, na as int),
                b@.subrange(i as int, nb as int),
            ),
        decreases na - i,
    {
        let ca = a.get_char(i);
        let cb = b.get_char(i);
        proof {
            let sa = a@.subrange(i as int, na as int);
            let sb = b@.subrange(i as int, nb as int);
            assert(sa[0] == a@[i as int]);
            assert(sb[0] == b@[i as int]);
            assert(sa.drop_first() =~= a@.subrange(i as int + 1, na as int));
            assert(sb.drop_first() =~= b@.subrange(i as int + 1, nb as int));
        }
        if ca != cb {
            return if ca < cb {
                Ordering::Less
            } else {
                Ordering::Greater
            };
        }
        i += 1;
    }
    proof {
        assert(a@.subrange(i as int, na as int).len() == na - i);
        assert(b@.subrange(i as int, nb as int).len() == nb - i);
    }
    if na == nb {
        Ordering::Equal
    } else if na < nb {
        Ordering::Less
    } else {
        Ordering::Greater
    }
}

/// The table ordering: more points first; equal points ordered by name.
pub open spec fn spec_team_cmp(x: (Seq<char>, TeamStats), y: (Seq<char>, TeamStats)) -> Ordering {
    if points_of(x.1) == points_of(y.1) {
        lex_cmp(x.0, y.0)
    } else if points_of(x.1) < points_of(y.1) {
        Ordering::Greater
    } else {
        Ordering::Less
    }
}

pub fn sort_stats(left: &(String, TeamStats), right: &(String, TeamStats)) -> (r: Ordering)
    requires
        stats_bounded(left.1, 0x1fff_ffff),
        stats_bounded(right.1, 0x1fff_ffff),
    ensures
        r == spec_team_cmp((left.0@, left.1), (right.0@, right.1)),
{
    let pl = left.1.calc_team_points();
    let pr = right.1.calc_team_points();
    if pl == pr {
        str_lex_cmp(left.0.as_str(), right.0.as_str())
    } else if pl < pr {
        Ordering::Greater
    } else {
        Ordering::Less
    }
}

/// `x` inserted behind every entry the table ordering does not place after
/// `x`: where a stable sort puts a later element.
pub open spec fn insert_entry(
    s: Seq<(Seq<char>, TeamStats)>,
    x: (Seq<char>, TeamStats),
) -> Seq<(Seq<char>, TeamStats)>
    decreases s.len(),
{
    if s.len() == 0 {
        seq![x]
    } else if spec_team_cmp(s.last(), x) != Ordering::Greater {
        s.push(x)
    } else {
        insert_entry(s.drop_last(), x).push(s.last())
    }
}

/// The table stably sorted by the table ordering: entries inserted left to
/// right, a later entry never overtaking an equally-ordered earlier one.
pub open spec fn spec_sort_entries(s: Seq<(Seq<char>, TeamStats)>) -> Seq<(Seq<char>, TeamStats)>
    decreases s.len(),
{
    if s.len() == 0 {
        s
    } else {
        insert_entry(spec_sort_entries(s.drop_last()), s.last())
    }
}

proof fn lemma_insert_entry_bounded(
    s: Seq<(Seq<char>, TeamStats)>,
    x: (Seq<char>, TeamStats),
    b: int,
)
    requires
        forall|i: int| 0 <= i < s.len() ==> stats_bounded((#[trigger] s[i]).1, b),
        stats_bounded(x.1, b),
    ensures
        insert_entry(s, x).len() == s.len() + 1,
        forall|i: int|
            0 <= i < insert_entry(s, x).len() ==> stats_bounded(
                (#[trigger] insert_entry(s, x)[i]).1,
                b,
            ),
    decreases s.len(),
{
    if s.len() == 0 {
    } else if spec_team_cmp(s.last(), x) != Ordering::Greater {
    } else {
        assert forall|i: int| 0 <= i < s.drop_last().len() implies stats_bounded(
            (#[trigger] s.drop_last()[i]).1,
            b,
        ) by {
            assert(s.drop_last()[i] == s[i]);
        }
        lemma_insert_entry_bounded(s.drop_last(), x, b);
    }
}

proof fn lemma_sort_entries_bounded(s: Seq<(Seq<char>, TeamStats)>, b: int)
    requires
        forall|i: int| 0 <= i < s.len() ==> stats_bounded((#[trigger] s[i]).1, b),
    ensures
        spec_sort_entries(s).len() == s.len(),
        forall|i: int|
            0 <= i < spec_sort_entries(s).len() ==> stats_bounded(
                (#[trigger] spec_sort_entries(s)[i]).1,
                b,
            ),
    decreases s.len(),
{
    if s.len() > 0 {
        assert forall|i: int| 0 <= i < s.drop_last().len() implies stats_bounded(
            (#[trigger] s.drop_last()[i]).1,
            b,
        ) by {
            assert(s.drop_last()[i] == s[i]);
        }
        lemma_sort_entries_bounded(s.drop_last(), b);
        lemma_insert_entry_bounded(spec_sort_entries(s.drop_last()), s.last(), b);
    }
}

/// Relies on itertools' sorted_by: a stable sort of the entries by the
/// given comparator. The contract states the stable sort directly, as
/// insertion from the left.
#[verifier::external_body]
fn sorted_entries(v: &Vec<(String, TeamStats)>) -> (r: Vec<(String, TeamStats)>)
    requires
        forall|i: int| 0 <= i < v@.len() ==> stats_bounded((#[trigger] v@[i]).1, 0x1fff_ffff),
    ensures
        entries_view(r@) == spec_sort_entries(entries_view(v@)),
{
    v.iter().cloned().sorted_by(|a, b| sort_stats(a, b)).collect()
}

/// `n` spaces.
pub open spec fn spaces(n: int) -> Seq<char> {
    Seq::new(
        if n < 0 {
            0
        } else {
            n as nat
        },
        |i: int| ' ',
    )
}

/// `s` padded with trailing spaces to at least `w` characters.
pub open spec fn pad_right(s: Seq<char>, w: int) -> Seq<char> {
    s + spaces(w - s.len())
}

/// `s` padded with leading spaces to at least `w` characters.
pub open spec fn pad_left(s: Seq<char>, w: int) -> Seq<char> {
    spaces(w - s.len()) + s
}

fn spaces_str(n: usize) -> (r: String)
    ensures
        r@ == spaces(n as int),
{
    proof {
        reveal_strlit(" ");
    }
    let mut s = String::new();
    let mut i: usize = 0;
    while i < n
        invariant
            i <= n,
            s@ == spaces(i as int),
        decreases n - i,
    {
        proof {
            reveal_strlit(" ");
        }
        s.append(" ");
        proof {
            assert(s@ =~= spaces(i as int + 1));
        }
        i += 1;
    }
    s
}

/// One rendered cell: a pipe, a space, then the value right-aligned to two
/// columns.
pub open spec fn cell_fmt(c: Seq<char>) -> Seq<char> {
    seq!['|', ' '] + pad_left(c, 2)
}

/// The rendered cells, joined by single spaces.
pub open spec fn cells_fmt(cells: Seq<Seq<char>>) -> Seq<char>
    decreases cells.len(),
{
    if cells.len() == 0 {
        Seq::empty()
    } else if cells.len() == 1 {
        cell_fmt(cells[0])
    } else {
        cells_fmt(cells.drop_last()) + seq![' '] + cell_fmt(cells.last())
    }
}

/// One table line: the header padded to 31 columns, then the cells.
pub open spec fn spec_table_row(header: Seq<char>, cells: Seq<Seq<char>>) -> Seq<char> {
    pad_right(header, 31) + cells_fmt(cells)
}

pub fn format_table_row(header: &str, cells: &Vec<String>) -> (r: String)
    ensures
        r@ == spec_table_row(header@, cells.deep_view()),
{
    proof {
        reveal_strlit(" ");
        reveal_strlit("| ");
    }
    let hlen = header.unicode_len();
    let mut s = String::from_str(header);
    if hlen < 31 {
        let pad = spaces_str(31 - hlen);
        s.append(pad.as_str());
    }
    proof {
        assert(s@ =~= pad_right(header@, 31));
    }
    let n = cells.len();
    let mut i: usize = 0;
    while i < n
        invariant
            n == cells@.len(),
            i <= n,
            s@ == pad_right(header@, 31) + cells_fmt(cells.deep_view().subrange(0, i as int)),
        decreases n - i,
    {
        proof {
            reveal_strlit(" ");
            reveal_strlit("| ");
            assert(cells.deep_view().subrange(0, i + 1).drop_last() =~= cells.deep_view().subrange(
                0,
                i as int,
            ));
            assert(cells.deep_view().subrange(0, i + 1).last() == cells.deep_view()[i as int]);
            assert(cells.deep_view()[i as int] == cells@[i as int]@);
        }
        if i > 0 {
            s.append(" ");
        }
        s.append("| ");
        let clen = cells[i].as_str().unicode_len();
        if clen < 2 {
            let pad = spaces_str(2 - clen);
            s.append(pad.as_str());
        }
        s.append(cells[i].as_str());
        proof {
            assert(s@ =~= pad_right(header@, 31) + cells_fmt(
                cells.deep_view().subrange(0, i + 1),
            ));
        }
        i += 1;
    }
    proof {
        assert(cells.deep_view().subrange(0, n as int) =~~= cells.deep_view());
    }
    s
}

/// The cell titles of the table's first line.
pub open spec fn header_cells() -> Seq<Seq<char>> {
    seq!["MP"@, "W"@, "D"@, "L"@, "P"@]
}

pub fn format_table_header() -> (r: String)
    ensures
        r@ == spec_table_row("Team"@, header_cells()),
{
    let mut cells: Vec<String> = Vec::new();
    cells.push(String::from_str("MP"));
    cells.push(String::from_str("W"));
    cells.push(String::from_str("D"));
    cells.push(String::from_str("L"));
    cells.push(String::from_str("P"));
    proof {
        assert(cells.deep_view() =~~= header_cells());
    }
    format_table_row("Team", &cells)
}

/// One team's table line: name, then played, won, drawn, lost and points.
pub open spec fn spec_format_team(name: Seq<char>, s: TeamStats) -> Seq<char> {
    spec_table_row(
        name,
        seq![
            dec_digits(total_of(s) as nat),
            dec_digits(s.matches_won as nat),
            dec_digits(s.matches_drawn as nat),
            dec_digits(s.matches_lost as nat),
            dec_digits(points_of(s) as nat),
        ],
    )
}

pub fn format_team_result(team: &String, result: &TeamStats) -> (r: String)
    requires
        stats_bounded(*result, 0x1fff_ffff),
    ensures
        r@ == spec_format_team(team@, *result),
{
    let mut cells: Vec<String> = Vec::new();
    cells.push(u64_to_string(result.calc_total_matches() as u64));
    cells.push(u64_to_string(result.matches_won as u64));
    cells.push(u64_to_string(result.matches_drawn as u64));
    cells.push(u64_to_string(result.matches_lost as u64));
    cells.push(u64_to_string(result.calc_team_points() as u64));
    proof {
        assert(cells.deep_view() =~~= seq![
            dec_digits(total_of(*result) as nat),
            dec_digits(result.matches_won as nat),
            dec_digits(result.matches_drawn as nat),
            dec_digits(result.matches_lost as nat),
            dec_digits(points_of(*result) as nat),
        ]);
    }
    format_table_row(team.as_str(), &cells)
}

/// The rendered lines of the sorted entries, each preceded by a newline.
pub open spec fn spec_row_block(st: Seq<(Seq<char>, TeamStats)>, k: int) -> Seq<char>
    decreases k,
{
    if k <= 0 {
        Seq::empty()
    } else {
        spec_row_block(st, k - 1) + seq!['\n'] + spec_format_team(st[k - 1].0, st[k - 1].1)
    }
}

/// The whole rendered table: the header line, then one line per team,
/// sorted by points and name.
pub open spec fn spec_format_competition(t: Seq<(Seq<char>, TeamStats)>) -> Seq<char> {
    let st = spec_sort_entries(t);
    spec_table_row("Team"@, header_cells()) + spec_row_block(st, st.len() as int)
}

pub fn format_competition_result(result: &CompetitionResult) -> (r: String)
    requires
        result.bounded(0x1fff_ffff),
    ensures
        r@ == spec_format_competition(result.view_of()),
{
    proof {
        lemma_sort_entries_bounded(result.view_of(), 0x1fff_ffff);
        assert forall|i: int| 0 <= i < result.table@.len() implies stats_bounded(
            (#[trigger] result.table@[i]).1,
            0x1fff_ffff,
        ) by {
            assert(result.view_of()[i].1 == result.table@[i].1);
        }
    }
    let rows = sorted_entries(&result.table);
    let ghost st = spec_sort_entries(result.view_of());
    let n = rows.len();
    let mut s = format_table_header();
    let mut k: usize = 0;
    while k < n
        invariant
            n == rows@.len(),
            entries_view(rows@) == st,
            forall|i: int| 0 <= i < st.len() ==> stats_bounded((#[trigger] st[i]).1, 0x1fff_ffff),
            k <= n,
            s@ == spec_table_row("Team"@, header_cells()) + spec_row_block(st, k as int),
        decreases n - k,
    {
        proof {
            reveal_strlit("\n");
            assert(st[k as int].0 == rows@[k as int].0@);
            assert(st[k as int].1 == rows@[k as int].1);
        }
        s.append("\n");
        let pair = &rows[k];
        let line = format_team_result(&pair.0, &pair.1);
        s.append(line.as_str());
        proof {
            assert(s@ =~= spec_table_row("Team"@, header_cells()) + spec_row_block(
                st,
                k as int + 1,
            ));
        }
        k += 1;
    }
    s
}

/// Tally a competition: read one match result per input line and render the
/// standings, sorted by points, ties broken by team name.
pub fn tally(match_results: &str) -> (r: String)
    requires
        spec_split_on(match_results@, '\n').len() <= 0x0800_0000,
    ensures
        r@ == spec_format_competition(spec_parse_results(match_results@)),
{
    let competition_result = parse_results(match_results);
    proof {
        assert forall|i: int| 0 <= i < competition_result.view_of().len() implies stats_bounded(
            (#[trigger] competition_result.view_of()[i]).1,
            0x1fff_ffff,
        ) by {
            assert(stats_bounded(
                competition_result.view_of()[i].1,
                2 * spec_split_on(match_results@, '\n').len() as int,
            ));
        }
    }
    format_competition_result(&competition_result)
}

} // verus!
