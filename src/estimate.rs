use crate::text::{chars_of, texts, trim_spaces_end_bound, trim_spaces_end_of};
use crate::width::{cell_widths, column_widths};
use vstd::prelude::*;

verus! {

/// A sequence of machine integers read as natural numbers.
pub open spec fn nats(v: Seq<usize>) -> Seq<nat> {
    v.map_values(|x: usize| x as nat)
}

/// How many display columns the characters of `s` span, `ws[i]` being the
/// display width of `s[i]`.
pub open spec fn profile_span(s: Seq<char>, ws: Seq<nat>) -> nat
    decreases s.len(),
{
    if s.len() == 0 {
        0
    } else {
        profile_span(s.drop_last(), ws) + ws[s.len() - 1]
    }
}

/// The profile entries of a character `w` columns wide: `v` for its first
/// column, 0 for the others.
pub open spec fn cells(v: nat, w: nat) -> Seq<nat> {
    Seq::new(w, |i: int| if i == 0 { v } else { 0nat })
}

/// Whether `s` holds a character other than a space.
pub open spec fn has_text(s: Seq<char>) -> bool {
    exists|i: int| 0 <= i < s.len() && s[i] != ' '
}

/// The blank profile of a header line: one entry per display column, 1
/// where the header holds a space after its first non-space character, 0
/// elsewhere (every column of a wide glyph is 0; a character of width 0
/// takes no column). `ws[i]` is the display width of `s[i]`.
pub open spec fn header_blanks(s: Seq<char>, ws: Seq<nat>) -> Seq<nat>
    decreases s.len(),
{
    if s.len() == 0 {
        seq![]
    } else {
        let init = s.drop_last();
        let flag = if s.last() == ' ' && has_text(init) {
            1nat
        } else {
            0nat
        };
        header_blanks(init, ws) + cells(flag, ws[s.len() - 1])
    }
}

/// The blank profile `b` after the body line `s` was counted in: every
/// column that is already a candidate (non-zero) and where `s` holds a
/// space (in the space's first display column) goes up by one. `ws[i]` is the display width of `s[i]`.
pub open spec fn tally(b: Seq<nat>, s: Seq<char>, ws: Seq<nat>) -> Seq<nat>
    decreases s.len(),
{
    if s.len() == 0 {
        b
    } else {
        let prev = tally(b, s.drop_last(), ws);
        let k = profile_span(s.drop_last(), ws) as int;
        if s.last() == ' ' && ws[s.len() - 1] >= 1 && k < b.len() && prev[k] > 0 {
            prev.update(k, prev[k] + 1)
        } else {
            prev
        }
    }
}

/// The blank profile of `lines`: built from the header line `lines[header]`
/// and counted over every line after it, each with its trailing spaces
/// taken off. Lines before the header play no part; without a header line
/// the profile is empty. `wss[i][j]` is the display width of `lines[i][j]`.
pub open spec fn profile(lines: Seq<Seq<char>>, wss: Seq<Seq<nat>>, header: nat) -> Seq<nat>
    decreases lines.len(),
{
    if lines.len() <= header {
        seq![]
    } else if lines.len() == header + 1 {
        header_blanks(trim_spaces_end_of(lines[header as int]), wss[header as int])
    } else {
        tally(
            profile(lines.drop_last(), wss, header),
            trim_spaces_end_of(lines.last()),
            wss[lines.len() - 1],
        )
    }
}

/// Where the left-to-right reading of a blank profile stands: the current
/// threshold, the best candidate of the current run of blanks (0 for none)
/// and the separators found so far.
pub struct Reading {
    pub max: nat,
    pub cand: nat,
    pub found: Seq<nat>,
}

/// Reads the blank profile `b` from the left. A non-zero column whose count
/// reaches the threshold becomes the candidate and raises the threshold to its
/// count; a zero column ends the run: its candidate, if any, is a separator,
/// and the threshold falls back to `min_lines`.
pub open spec fn read_blanks(b: Seq<nat>, min_lines: nat) -> Reading
    decreases b.len(),
{
    if b.len() == 0 {
        Reading { max: min_lines, cand: 0, found: seq![] }
    } else {
        let r = read_blanks(b.drop_last(), min_lines);
        let n = (b.len() - 1) as nat;
        let v = b.last();
        let better = v > 0 && v >= r.max;
        let max = if better { v } else { r.max };
        let cand = if better { n } else { r.cand };
        if v == 0 {
            if cand > 0 {
                Reading { max: min_lines, cand: 0, found: r.found.push(cand) }
            } else {
                Reading { max: min_lines, cand: 0, found: r.found }
            }
        } else {
            Reading { max, cand, found: r.found }
        }
    }
}

/// The separator positions that the blank profile `b` gives.
pub open spec fn separators(b: Seq<nat>, min_lines: nat) -> Seq<nat> {
    read_blanks(b, min_lines).found
}

/// The separator positions of `lines` with `lines[header]` as the header,
/// `wss[i][j]` being the display width of `lines[i][j]`.
pub open spec fn measured_positions(
    lines: Seq<Seq<char>>,
    wss: Seq<Seq<nat>>,
    header: nat,
    min_lines: nat,
) -> Seq<nat> {
    separators(profile(lines, wss, header), min_lines)
}

/// The display widths of the characters of each line.
pub open spec fn line_widths(lines: Seq<Seq<char>>) -> Seq<Seq<nat>> {
    lines.map_values(|l: Seq<char>| cell_widths(l))
}

/// The separator positions of `lines` with `lines[header]` as the header.
pub open spec fn positions_of(lines: Seq<Seq<char>>, header: nat, min_lines: nat) -> Seq<nat> {
    measured_positions(lines, line_widths(lines), header, min_lines)
}

/// Whether `s` is strictly increasing.
pub open spec fn strictly_increasing(s: Seq<nat>) -> bool {
    forall|i: int, j: int| 0 <= i < j < s.len() ==> s[i] < s[j]
}

/// The blank profile of the header line `v[..to]`, `ws[i]` being the
/// display width of `v[i]`.
fn lookup_blanks(v: &Vec<char>, ws: &Vec<usize>, to: usize) -> (r: Vec<usize>)
    requires
        to <= v.len(),
        ws.len() == v.len(),
    ensures
        nats(r@) == header_blanks(v@.subrange(0, to as int), nats(ws@)),
        forall|k: int| 0 <= k < r.len() ==> r@[k] <= 1,
{
    let mut blanks: Vec<usize> = Vec::new();
    let mut first = true;
    let mut i: usize = 0;
    while i < to
        invariant
            i <= to <= v.len(),
            ws.len() == v.len(),
            nats(blanks@) == header_blanks(v@.subrange(0, i as int), nats(ws@)),
            first == !has_text(v@.subrange(0, i as int)),
            forall|k: int| 0 <= k < blanks.len() ==> blanks@[k] <= 1,
        decreases to - i,
    {
        let c = v[i];
        let ghost init = v@.subrange(0, i as int);
        let ghost next = v@.subrange(0, i + 1);
        assert(next.drop_last() =~= init);
        assert(next.last() == c);
        if c == ' ' {
            assert(has_text(next) == has_text(init)) by {
                if has_text(next) {
                    let j = choose|j: int| 0 <= j < next.len() && next[j] != ' ';
                    assert(init[j] != ' ');
                }
                if has_text(init) {
                    let j = choose|j: int| 0 <= j < init.len() && init[j] != ' ';
                    assert(next[j] != ' ');
                }
            }
        } else {
            assert(next[i as int] != ' ');
        }
        let flag: usize = if c == ' ' && !first {
            1
        } else {
            0
        };
        let w = ws[i];
        let ghost base = nats(blanks@);
        let mut j: usize = 0;
        while j < w
            invariant
                j <= w,
                i < ws.len(),
                w == ws@[i as int],
                flag <= 1,
                nats(blanks@) == base + cells(flag as nat, w as nat).take(j as int),
                forall|k: int| 0 <= k < blanks.len() ==> blanks@[k] <= 1,
            decreases w - j,
        {
            let x: usize = if j == 0 {
                flag
            } else {
                0
            };
            let ghost before = blanks@;
            blanks.push(x);
            assert(blanks@ == before.push(x));
            assert(nats(blanks@) =~= nats(before).push(x as nat));
            assert(cells(flag as nat, w as nat).take(j + 1) =~= cells(flag as nat, w as nat).take(
                j as int,
            ).push(x as nat));
            assert(nats(blanks@) =~= base + cells(flag as nat, w as nat).take(j + 1));
            j = j + 1;
        }
        assert(cells(flag as nat, w as nat).take(w as int) =~= cells(flag as nat, w as nat));
        if c != ' ' {
            first = false;
        }
        assert(nats(blanks@) =~= header_blanks(next, nats(ws@)));
        i = i + 1;
    }
    blanks
}

/// Counting a line in keeps the length of the profile.
pub proof fn lemma_tally_len(b: Seq<nat>, s: Seq<char>, ws: Seq<nat>)
    ensures
        tally(b, s, ws).len() == b.len(),
    decreases s.len(),
{
    if s.len() > 0 {
        lemma_tally_len(b, s.drop_last(), ws);
    }
}

/// Once a line has run past the end of the profile, its remaining
/// characters count for nothing.
proof fn lemma_tally_settled(b: Seq<nat>, s: Seq<char>, ws: Seq<nat>, i: int, j: int)
    requires
        0 <= i <= j <= s.len(),
        profile_span(s.subrange(0, i), ws) >= b.len(),
    ensures
        tally(b, s.subrange(0, j), ws) == tally(b, s.subrange(0, i), ws),
        profile_span(s.subrange(0, j), ws) >= b.len(),
    decreases j,
{
    if j > i {
        lemma_tally_settled(b, s, ws, i, j - 1);
        assert(s.subrange(0, j).drop_last() =~= s.subrange(0, j - 1));
    }
}

/// Counts the body line `v[..to]` into the blank profile `blanks`, `ws[i]`
/// being the display width of `v[i]`.
fn count_blanks(blanks: &mut Vec<usize>, v: &Vec<char>, ws: &Vec<usize>, to: usize)
    requires
        to <= v.len(),
        ws.len() == v.len(),
        forall|k: int| 0 <= k < old(blanks).len() ==> old(blanks)@[k] < usize::MAX,
    ensures
        nats(final(blanks)@) == tally(nats(old(blanks)@), v@.subrange(0, to as int), nats(ws@)),
        final(blanks).len() == old(blanks).len(),
        forall|k: int|
            0 <= k < final(blanks).len() ==> final(blanks)@[k] <= old(blanks)@[k] + 1,
{
    let ghost b0 = nats(blanks@);
    let mut n: usize = 0;
    let mut i: usize = 0;
    while i < to && n < blanks.len()
        invariant
            i <= to <= v.len(),
            ws.len() == v.len(),
            blanks.len() == old(blanks).len(),
            b0 == nats(old(blanks)@),
            if profile_span(v@.subrange(0, i as int), nats(ws@)) < usize::MAX {
                n as nat == profile_span(v@.subrange(0, i as int), nats(ws@))
            } else {
                n == usize::MAX
            },
            nats(blanks@) == tally(b0, v@.subrange(0, i as int), nats(ws@)),
            forall|k: int| n <= k < blanks.len() ==> blanks@[k] == old(blanks)@[k],
            forall|k: int| 0 <= k < blanks.len() ==> blanks@[k] <= old(blanks)@[k] + 1,
            forall|k: int| 0 <= k < old(blanks).len() ==> old(blanks)@[k] < usize::MAX,
        decreases to - i,
    {
        let c = v[i];
        let ghost init = v@.subrange(0, i as int);
        let ghost next = v@.subrange(0, i + 1);
        assert(next.drop_last() =~= init);
        assert(next.last() == c);
        proof {
            lemma_tally_len(b0, init, nats(ws@));
        }
        if c == ' ' && ws[i] >= 1 && blanks[n] > 0 {
            let x = blanks[n] + 1;
            blanks.set(n, x);
        }
        assert(nats(blanks@) =~= tally(b0, next, nats(ws@)));
        n = n.saturating_add(ws[i]);
        i = i + 1;
    }
    proof {
        if i < to {
            assert(b0.len() == blanks.len());
            assert(v@.subrange(0, to as int).subrange(0, i as int) =~= v@.subrange(0, i as int));
            lemma_tally_settled(b0, v@.subrange(0, to as int), nats(ws@), i as int, to as int);
            assert(v@.subrange(0, to as int).subrange(0, to as int) =~= v@.subrange(
                0,
                to as int,
            ));
        }
    }
}

/// The separator positions that the blank profile `blanks` gives, with
/// `min_lines` as the least count that a separator column must reach.
fn positions_helper(blanks: &Vec<usize>, min_lines: usize) -> (r: Vec<usize>)
    ensures
        nats(r@) == separators(nats(blanks@), min_lines as nat),
{
    let mut max = min_lines;
    let mut p: usize = 0;
    let mut pos: Vec<usize> = Vec::new();
    let mut n: usize = 0;
    assert(nats(blanks@.take(0)) =~= Seq::<nat>::empty());
    assert(nats(pos@) =~= Seq::<nat>::empty());
    while n < blanks.len()
        invariant
            n <= blanks.len(),
            read_blanks(nats(blanks@.take(n as int)), min_lines as nat) == (Reading {
                max: max as nat,
                cand: p as nat,
                found: nats(pos@),
            }),
        decreases blanks.len() - n,
    {
        let v = blanks[n];
        assert(nats(blanks@.take(n + 1)).drop_last() =~= nats(blanks@.take(n as int)));
        if v > 0 && v >= max {
            max = v;
            p = n;
        }
        if v == 0 {
            max = min_lines;
            if p > 0 {
                pos.push(p);
                p = 0;
            }
        }
        assert(nats(pos@) =~= read_blanks(nats(blanks@.take(n + 1)), min_lines as nat).found);
        n = n + 1;
    }
    assert(blanks@.take(n as int) =~= blanks@);
    pos
}

/// The display widths of a table of machine integers, as natural numbers.
pub open spec fn nat_table(v: Seq<Vec<usize>>) -> Seq<Seq<nat>> {
    v.map_values(|r: Vec<usize>| nats(r@))
}

/// The separator positions of `lines`, with `lines[header]` as the header
/// line and `min_lines` as the least count of blank lines that makes a
/// separator column, `widths[i][j]` being the display width of the `j`-th
/// character of `lines[i]`. Lines before the header are left out.
pub fn positions_measured(
    lines: &Vec<String>,
    widths: &Vec<Vec<usize>>,
    header: usize,
    min_lines: usize,
) -> (r: Vec<usize>)
    requires
        widths.len() == lines.len(),
        forall|i: int| 0 <= i < lines.len() ==> #[trigger] widths@[i].len() == lines@[i]@.len(),
    ensures
        nats(r@) == measured_positions(
            texts(lines@),
            nat_table(widths@),
            header as nat,
            min_lines as nat,
        ),
{
    let ghost wss = nat_table(widths@);
    let mut blanks: Vec<usize> = Vec::new();
    let mut n: usize = 0;
    while n < lines.len()
        invariant
            n <= lines.len(),
            widths.len() == lines.len(),
            forall|i: int| 0 <= i < lines.len() ==> #[trigger] widths@[i].len() == lines@[i]@.len(),
            wss == nat_table(widths@),
            nats(blanks@) == profile(texts(lines@).take(n as int), wss, header as nat),
            forall|k: int| 0 <= k < blanks.len() ==> blanks@[k] <= n,
        decreases lines.len() - n,
    {
        let ghost seen = texts(lines@).take(n + 1);
        assert(seen.drop_last() =~= texts(lines@).take(n as int));
        if n >= header {
            let v = chars_of(lines[n].as_str());
            let ws = &widths[n];
            let to = trim_spaces_end_bound(&v);
            assert(seen.last() == v@);
            assert(wss[n as int] == nats(ws@));
            if n == header {
                blanks = lookup_blanks(&v, ws, to);
            } else {
                count_blanks(&mut blanks, &v, ws, to);
            }
        }
        n = n + 1;
    }
    assert(texts(lines@).take(n as int) =~= texts(lines@));
    positions_helper(&blanks, min_lines)
}

/// The separator positions of `lines`, with `lines[header]` as the header
/// line and `min_lines` as the least count of blank lines that makes a
/// separator column. Lines before the header are left out.
pub fn positions(lines: &Vec<String>, header: usize, min_lines: usize) -> (r: Vec<usize>)
    ensures
        nats(r@) == positions_of(texts(lines@), header as nat, min_lines as nat),
        strictly_increasing(nats(r@)),
{
    proof {
        lemma_positions_increasing(texts(lines@), header as nat, min_lines as nat);
    }
    let mut widths: Vec<Vec<usize>> = Vec::new();
    let mut i: usize = 0;
    while i < lines.len()
        invariant
            i <= lines.len(),
            widths.len() == i,
            forall|j: int| 0 <= j < i ==> #[trigger] widths@[j].len() == lines@[j]@.len(),
            nat_table(widths@) == line_widths(texts(lines@)).take(i as int),
        decreases lines.len() - i,
    {
        let v = chars_of(lines[i].as_str());
        let ws = column_widths(&v);
        assert(nats(ws@) =~= cell_widths(v@));
        assert(line_widths(texts(lines@))[i as int] == cell_widths(lines@[i as int]@));
        let ghost before = widths@;
        widths.push(ws);
        assert(widths@ == before.push(ws));
        assert(nat_table(widths@) =~= line_widths(texts(lines@)).take(i + 1));
        i = i + 1;
    }
    assert(nat_table(widths@) =~= line_widths(texts(lines@)));
    positions_measured(lines, &widths, header, min_lines)
}

/// Reading a blank profile finds strictly increasing positions, each a
/// column of the profile after the first whose count is non-zero and at
/// least `min_lines`; a pending candidate lies after all of them.
pub proof fn lemma_read_blanks_ordered(b: Seq<nat>, min_lines: nat)
    ensures
        strictly_increasing(read_blanks(b, min_lines).found),
        forall|i: int|
            0 <= i < read_blanks(b, min_lines).found.len() ==> {
                let p = #[trigger] read_blanks(b, min_lines).found[i];
                &&& 0 < p < b.len()
                &&& b[p as int] > 0
                &&& b[p as int] >= min_lines
            },
        forall|i: int|
            0 <= i < read_blanks(b, min_lines).found.len() && read_blanks(b, min_lines).cand > 0
                ==> read_blanks(b, min_lines).found[i] < read_blanks(b, min_lines).cand,
        read_blanks(b, min_lines).cand > 0 ==> {
            let p = read_blanks(b, min_lines).cand;
            &&& p < b.len()
            &&& b[p as int] > 0
            &&& b[p as int] >= min_lines
        },
        read_blanks(b, min_lines).max >= min_lines,
    decreases b.len(),
{
    if b.len() > 0 {
        lemma_read_blanks_ordered(b.drop_last(), min_lines);
        let r = read_blanks(b.drop_last(), min_lines);
        assert forall|i: int| 0 <= i < r.found.len() implies #[trigger] b[r.found[i] as int]
            == b.drop_last()[r.found[i] as int] by {}
        if r.cand > 0 {
            assert(b[r.cand as int] == b.drop_last()[r.cand as int]);
        }
    }
}

/// The header's blank profile has one entry per display column.
pub proof fn lemma_header_blanks_len(s: Seq<char>, ws: Seq<nat>)
    ensures
        header_blanks(s, ws).len() == profile_span(s, ws),
    decreases s.len(),
{
    if s.len() > 0 {
        lemma_header_blanks_len(s.drop_last(), ws);
    }
}

/// A non-zero entry of the header's blank profile stands at the display
/// column where the header holds a space.
pub proof fn lemma_header_blanks_spaces(s: Seq<char>, ws: Seq<nat>, k: int)
    requires
        0 <= k < header_blanks(s, ws).len(),
        header_blanks(s, ws)[k] > 0,
    ensures
        exists|i: int|
            0 <= i < s.len() && s[i] == ' ' && profile_span(#[trigger] s.subrange(0, i), ws) == k,
    decreases s.len(),
{
    let init = s.drop_last();
    lemma_header_blanks_len(init, ws);
    if k < header_blanks(init, ws).len() {
        lemma_header_blanks_spaces(init, ws, k);
        let i = choose|i: int|
            0 <= i < init.len() && init[i] == ' ' && profile_span(
                #[trigger] init.subrange(0, i),
                ws,
            ) == k;
        assert(init.subrange(0, i) =~= s.subrange(0, i));
    } else {
        assert(s.subrange(0, s.len() - 1) =~= init);
    }
}

/// Counting lines in never makes a zero entry non-zero, nor the reverse.
pub proof fn lemma_tally_positive(b: Seq<nat>, s: Seq<char>, ws: Seq<nat>, k: int)
    requires
        0 <= k < b.len(),
    ensures
        tally(b, s, ws).len() == b.len(),
        tally(b, s, ws)[k] > 0 <==> b[k] > 0,
    decreases s.len(),
{
    if s.len() > 0 {
        lemma_tally_positive(b, s.drop_last(), ws, k);
    }
}

/// The blank profile of `lines` spans the display width of the header
/// (without trailing spaces), and its non-zero entries stand where the
/// header holds a space.
pub proof fn lemma_profile_header(lines: Seq<Seq<char>>, wss: Seq<Seq<nat>>, header: nat, k: int)
    requires
        header < lines.len(),
    ensures
        profile(lines, wss, header).len() == profile_span(
            trim_spaces_end_of(lines[header as int]),
            wss[header as int],
        ),
        0 <= k < profile(lines, wss, header).len() && profile(lines, wss, header)[k] > 0 ==> header_blanks(
            trim_spaces_end_of(lines[header as int]),
            wss[header as int],
        )[k] > 0,
    decreases lines.len(),
{
    let h = trim_spaces_end_of(lines[header as int]);
    lemma_header_blanks_len(h, wss[header as int]);
    if lines.len() > header + 1 {
        let init = lines.drop_last();
        lemma_profile_header(init, wss, header, k);
        assert(init[header as int] == lines[header as int]);
        if 0 <= k < profile(init, wss, header).len() {
            lemma_tally_positive(
                profile(init, wss, header),
                trim_spaces_end_of(lines.last()),
                wss[lines.len() - 1],
                k,
            );
        }
        lemma_tally_len(
            profile(init, wss, header),
            trim_spaces_end_of(lines.last()),
            wss[lines.len() - 1],
        );
    }
}

/// The separator positions found in any lines are strictly increasing; each
/// is a display column after the first and within the header (without
/// trailing spaces), where the header holds a space, and whose count in the
/// blank profile is at least `min_lines`.
pub proof fn lemma_positions_increasing(lines: Seq<Seq<char>>, header: nat, min_lines: nat)
    ensures
        strictly_increasing(positions_of(lines, header, min_lines)),
        forall|i: int|
            0 <= i < positions_of(lines, header, min_lines).len() ==> {
                let p = #[trigger] positions_of(lines, header, min_lines)[i];
                let h = trim_spaces_end_of(lines[header as int]);
                let ws = line_widths(lines)[header as int];
                &&& header < lines.len()
                &&& 0 < p < profile_span(h, ws)
                &&& profile(lines, line_widths(lines), header)[p as int] >= min_lines
                &&& exists|j: int|
                    0 <= j < h.len() && h[j] == ' ' && profile_span(#[trigger] h.subrange(0, j), ws)
                        == p
            },
{
    let wss = line_widths(lines);
    let b = profile(lines, wss, header);
    lemma_read_blanks_ordered(b, min_lines);
    assert forall|i: int| 0 <= i < positions_of(lines, header, min_lines).len() implies {
        let p = #[trigger] positions_of(lines, header, min_lines)[i];
        let h = trim_spaces_end_of(lines[header as int]);
        let ws = line_widths(lines)[header as int];
        &&& header < lines.len()
        &&& 0 < p < profile_span(h, ws)
        &&& profile(lines, line_widths(lines), header)[p as int] >= min_lines
        &&& exists|j: int|
            0 <= j < h.len() && h[j] == ' ' && profile_span(#[trigger] h.subrange(0, j), ws) == p
    } by {
        let p = positions_of(lines, header, min_lines)[i];
        let h = trim_spaces_end_of(lines[header as int]);
        let ws = line_widths(lines)[header as int];
        assert(b.len() > 0);
        assert(header < lines.len());
        lemma_profile_header(lines, wss, header, p as int);
        lemma_header_blanks_len(h, ws);
        assert(b[p as int] > 0);
        assert(header_blanks(h, ws)[p as int] > 0);
        lemma_header_blanks_spaces(h, ws, p as int);
    }
}

} // verus!
