use crate::estimate::{
    lemma_positions_increasing, nats, positions, positions_of, strictly_increasing,
};
use crate::split::{split, split_line};
use crate::text::{texts, trim_end, trim_end_of};
use vstd::prelude::*;

verus! {

/// The lines of `lines`, each without its trailing white space.
pub open spec fn trimmed_lines(lines: Seq<Seq<char>>) -> Seq<Seq<char>> {
    lines.map_values(|l: Seq<char>| trim_end_of(l))
}

/// The rows that `lines` give when each is split at `pos`.
pub open spec fn rows_of(lines: Seq<Seq<char>>, pos: Seq<nat>, trim: bool) -> Seq<
    Seq<Seq<char>>,
> {
    lines.map_values(|l: Seq<char>| split_line(l, pos, trim))
}

/// The texts of a table of strings.
pub open spec fn table_view(rows: Seq<Vec<String>>) -> Seq<Seq<Seq<char>>> {
    rows.map_values(|r: Vec<String>| texts(r@))
}

/// `pos` cut down to its first `limit` positions; a limit of 0 sets no cap.
pub open spec fn limit_positions(pos: Seq<nat>, limit: nat) -> Seq<nat> {
    if limit > 0 && pos.len() > limit {
        pos.take(limit as int)
    } else {
        pos
    }
}

/// `pos` cut down to at most its first `count` positions.
pub open spec fn cap_positions(pos: Seq<nat>, count: nat) -> Seq<nat> {
    if pos.len() > count {
        pos.take(count as int)
    } else {
        pos
    }
}

/// Splits each line of `lines` at `pos`.
fn to_rows(lines: Vec<String>, pos: Vec<usize>, trim_space: bool) -> (r: Vec<Vec<String>>)
    ensures
        table_view(r@) == rows_of(texts(lines@), nats(pos@), trim_space),
{
    let mut rows: Vec<Vec<String>> = Vec::new();
    let mut i: usize = 0;
    while i < lines.len()
        invariant
            i <= lines.len(),
            table_view(rows@) == rows_of(texts(lines@).take(i as int), nats(pos@), trim_space),
        decreases lines.len() - i,
    {
        let columns = split(lines[i].as_str(), &pos, trim_space);
        let ghost row = texts(columns@);
        let ghost before = rows@;
        rows.push(columns);
        assert(rows@ == before.push(columns));
        assert(table_view(rows@) =~= table_view(before).push(row));
        assert(texts(lines@).take(i + 1) =~= texts(lines@).take(i as int).push(lines@[i as int]@));
        assert(table_view(rows@) =~= rows_of(
            texts(lines@).take(i + 1),
            nats(pos@),
            trim_space,
        ));
        i = i + 1;
    }
    assert(texts(lines@).take(i as int) =~= texts(lines@));
    rows
}

/// Splits `lines` into a table, taking the separator positions from the
/// header line `lines[header]` and the lines after it, with a blank column
/// needing two blank lines to count as a separator.
pub fn to_table(lines: Vec<String>, header: usize, trim_space: bool) -> (r: Vec<Vec<String>>)
    ensures
        table_view(r@) == rows_of(
            texts(lines@),
            positions_of(texts(lines@), header as nat, 2),
            trim_space,
        ),
{
    let pos = positions(&lines, header, 2);
    to_rows(lines, pos, trim_space)
}

/// As `to_table`, but keeping only the first `num_split` separator
/// positions, so that a row has at most `num_split + 1` fields.
pub fn to_table_n(lines: Vec<String>, header: usize, num_split: usize, trim_space: bool) -> (r:
    Vec<Vec<String>>)
    ensures
        table_view(r@) == rows_of(
            texts(lines@),
            cap_positions(positions_of(texts(lines@), header as nat, 2), num_split as nat),
            trim_space,
        ),
{
    let mut pos = positions(&lines, header, 2);
    if pos.len() > num_split {
        pos.truncate(num_split);
    }
    proof {
        assert(nats(pos@) =~= cap_positions(
            positions_of(texts(lines@), header as nat, 2),
            num_split as nat,
        ));
    }
    to_rows(lines, pos, trim_space)
}

/// Capping the positions keeps them strictly increasing, so the positions
/// that a reader or a capped table uses are strictly increasing too.
pub proof fn lemma_capped_positions_increasing(
    lines: Seq<Seq<char>>,
    header: nat,
    min_lines: nat,
    limit: nat,
)
    ensures
        strictly_increasing(limit_positions(positions_of(lines, header, min_lines), limit)),
        strictly_increasing(cap_positions(positions_of(lines, header, min_lines), limit)),
{
    lemma_positions_increasing(lines, header, min_lines);
}

/// Row `i` of a table is the split of line `i`, and the rows of lines read
/// in two parts (a buffer, then the rest of the stream) are the rows of the
/// first part followed by the rows of the second.
pub proof fn lemma_rows_follow_lines(
    a: Seq<Seq<char>>,
    b: Seq<Seq<char>>,
    pos: Seq<nat>,
    trim: bool,
)
    ensures
        rows_of(a + b, pos, trim) == rows_of(a, pos, trim) + rows_of(b, pos, trim),
        forall|i: int|
            0 <= i < (a + b).len() ==> #[trigger] rows_of(a + b, pos, trim)[i] == split_line(
                (a + b)[i],
                pos,
                trim,
            ),
        rows_of(a + b, pos, trim).len() == (a + b).len(),
{
    assert(rows_of(a + b, pos, trim) =~= rows_of(a, pos, trim) + rows_of(b, pos, trim));
}

/// Splitting is a function of the text alone: two tables that meet the
/// contract of `to_table` for lines of the same text, with the same header
/// and trimming, are the same table, cut at the same positions.
pub proof fn lemma_table_deterministic(
    lines1: Seq<String>,
    lines2: Seq<String>,
    r1: Seq<Vec<String>>,
    r2: Seq<Vec<String>>,
    header: nat,
    trim: bool,
)
    requires
        texts(lines1) == texts(lines2),
        table_view(r1) == rows_of(texts(lines1), positions_of(texts(lines1), header, 2), trim),
        table_view(r2) == rows_of(texts(lines2), positions_of(texts(lines2), header, 2), trim),
    ensures
        positions_of(texts(lines1), header, 2) == positions_of(texts(lines2), header, 2),
        table_view(r1) == table_view(r2),
{
}

/// The phases of a stream: no line read yet; lines buffered for the scan
/// and still to be handed out; the buffer handed out, fresh lines next.
#[derive(Clone, Copy, Debug, PartialEq, Eq, Structural)]
pub enum Phase {
    Unprimed,
    Primed,
    Draining,
}

/// Reads records from printf-like output: the first `scan_num` lines are
/// buffered to find the separator positions, then every line, buffered or
/// fresh, is split at those positions, in the order of the input.
pub struct GuessWidth {
    /// The separator positions, in display columns.
    pub pos: Vec<usize>,
    /// The lines read for the scan, without trailing white space.
    pub pre_lines: Vec<String>,
    /// How many of the buffered lines have been handed out.
    pub pre_count: usize,
    /// How many lines to read for the scan.
    pub scan_num: usize,
    /// The index of the header line among the scanned lines.
    pub header: usize,
    /// The most separator positions to keep; 0 keeps them all.
    pub limit_split: usize,
    /// The least count of blank lines that makes a column a separator:
    /// 1 with only a header, 2 or more with blank columns in the body.
    pub min_lines: usize,
    /// Whether fields are trimmed of white space.
    pub trim_space: bool,
    /// Where the stream stands.
    pub phase: Phase,
}

impl GuessWidth {
    /// The buffer and the phase agree.
    pub open spec fn wf(&self) -> bool {
        match self.phase {
            Phase::Unprimed => self.pre_lines.len() == 0 && self.pre_count == 0
                && self.pos.len() == 0,
            Phase::Primed => self.pre_count < self.pre_lines.len(),
            Phase::Draining => self.pre_count == self.pre_lines.len(),
        }
    }

    /// The settings of `self` and `other` are the same.
    pub open spec fn same_settings(&self, other: &GuessWidth) -> bool {
        &&& self.scan_num == other.scan_num
        &&& self.header == other.header
        &&& self.limit_split == other.limit_split
        &&& self.min_lines == other.min_lines
        &&& self.trim_space == other.trim_space
    }

    /// The buffered lines not yet handed out.
    pub open spec fn pending(&self) -> Seq<Seq<char>> {
        texts(self.pre_lines@).skip(self.pre_count as int)
    }

    /// The separator positions that scanning `lines` gives under the settings
    /// of `self`.
    pub open spec fn scanned_positions(&self, lines: Seq<Seq<char>>) -> Seq<nat> {
        limit_positions(
            positions_of(trimmed_lines(lines), self.header as nat, self.min_lines as nat),
            self.limit_split as nat,
        )
    }

    /// A reader with the usual settings: 100 lines scanned, the first line as
    /// header, no cap on the positions, two blank lines to make a separator,
    /// fields trimmed.
    pub fn new() -> (r: GuessWidth)
        ensures
            r.wf(),
            r.phase is Unprimed,
            r.scan_num == 100,
            r.header == 0,
            r.limit_split == 0,
            r.min_lines == 2,
            r.trim_space,
    {
        GuessWidth {
            pos: Vec::new(),
            pre_lines: Vec::new(),
            pre_count: 0,
            scan_num: 100,
            header: 0,
            limit_split: 0,
            min_lines: 2,
            trim_space: true,
            phase: Phase::Unprimed,
        }
    }

    /// Buffers `lines`, the first lines of the stream (the caller reads up
    /// to `scan_num` of them), each without trailing white space, and finds
    /// the separator positions from them.
    pub fn scan(&mut self, lines: &Vec<String>)
        requires
            old(self).wf(),
            old(self).phase is Unprimed,
        ensures
            final(self).wf(),
            final(self).same_settings(old(self)),
            texts(final(self).pre_lines@) == trimmed_lines(texts(lines@)),
            final(self).pre_count == 0,
            nats(final(self).pos@) == old(self).scanned_positions(texts(lines@)),
            strictly_increasing(nats(final(self).pos@)),
            final(self).phase == (if lines.len() > 0 {
                Phase::Primed
            } else {
                Phase::Draining
            }),
    {
        let mut i: usize = 0;
        while i < lines.len()
            invariant
                i <= lines.len(),
                texts(self.pre_lines@) == trimmed_lines(texts(lines@).take(i as int)),
                self.same_settings(old(self)),
                self.pre_count == 0,
                self.phase is Unprimed,
            decreases lines.len() - i,
        {
            let line = trim_end(lines[i].as_str());
            let ghost before = self.pre_lines@;
            self.pre_lines.push(line);
            assert(texts(self.pre_lines@) =~= texts(before).push(trim_end_of(lines@[i as int]@)));
            assert(texts(lines@).take(i + 1) =~= texts(lines@).take(i as int).push(
                lines@[i as int]@,
            ));
            assert(texts(self.pre_lines@) =~= trimmed_lines(texts(lines@).take(i + 1)));
            i = i + 1;
        }
        assert(texts(lines@).take(i as int) =~= texts(lines@));
        let mut pos = positions(&self.pre_lines, self.header, self.min_lines);
        if self.limit_split > 0 && pos.len() > self.limit_split {
            pos.truncate(self.limit_split);
        }
        assert(nats(pos@) =~= old(self).scanned_positions(texts(lines@)));
        proof {
            lemma_capped_positions_increasing(
                trimmed_lines(texts(lines@)),
                self.header as nat,
                self.min_lines as nat,
                self.limit_split as nat,
            );
        }
        self.pos = pos;
        if lines.len() > 0 {
            self.phase = Phase::Primed;
        } else {
            self.phase = Phase::Draining;
        }
    }

    /// Hands out the next buffered line, split; `None` once the buffer is
    /// used up, when the caller goes on with fresh lines (`read_line`).
    pub fn read(&mut self) -> (r: Option<Vec<String>>)
        requires
            old(self).wf(),
            !(old(self).phase is Unprimed),
        ensures
            final(self).wf(),
            final(self).same_settings(old(self)),
            final(self).pos == old(self).pos,
            final(self).pre_lines == old(self).pre_lines,
            old(self).phase is Draining ==> {
                &&& r is None
                &&& final(self).pre_count == old(self).pre_count
                &&& final(self).phase is Draining
            },
            old(self).phase is Primed ==> {
                &&& r is Some
                &&& texts(r->0@) == split_line(
                    texts(old(self).pre_lines@)[old(self).pre_count as int],
                    nats(old(self).pos@),
                    old(self).trim_space,
                )
                &&& final(self).pre_count == old(self).pre_count + 1
                &&& final(self).phase == (if final(self).pre_count < old(self).pre_lines.len() {
                    Phase::Primed
                } else {
                    Phase::Draining
                })
            },
    {
        match self.phase {
            Phase::Primed => {
                let row = split(self.pre_lines[self.pre_count].as_str(), &self.pos, self.trim_space);
                self.pre_count = self.pre_count + 1;
                if self.pre_count == self.pre_lines.len() {
                    self.phase = Phase::Draining;
                }
                Some(row)
            },
            _ => None,
        }
    }

    /// Reads all rows: `rest` holds the lines that the stream still yields.
    /// An unprimed reader first scans the first `scan_num` of them; then the
    /// buffered lines not yet handed out and the fresh lines are split, in
    /// the order of the input.
    pub fn read_all(&mut self, rest: Vec<String>) -> (r: Vec<Vec<String>>)
        requires
            old(self).wf(),
        ensures
            final(self).wf(),
            final(self).phase is Draining,
            final(self).same_settings(old(self)),
            old(self).phase is Unprimed ==> {
                let k = if old(self).scan_num < rest.len() {
                    old(self).scan_num as int
                } else {
                    rest.len() as int
                };
                &&& texts(final(self).pre_lines@) == trimmed_lines(texts(rest@).take(k))
                &&& nats(final(self).pos@) == old(self).scanned_positions(texts(rest@).take(k))
                &&& table_view(r@) == rows_of(
                    trimmed_lines(texts(rest@)),
                    nats(final(self).pos@),
                    old(self).trim_space,
                )
            },
            !(old(self).phase is Unprimed) ==> {
                &&& final(self).pos == old(self).pos
                &&& final(self).pre_lines == old(self).pre_lines
                &&& table_view(r@) == rows_of(
                    old(self).pending() + trimmed_lines(texts(rest@)),
                    nats(old(self).pos@),
                    old(self).trim_space,
                )
            },
    {
        let mut fresh_from: usize = 0;
        if let Phase::Unprimed = self.phase {
            let k = if self.scan_num < rest.len() {
                self.scan_num
            } else {
                rest.len()
            };
            let mut head: Vec<String> = Vec::new();
            let mut i: usize = 0;
            while i < k
                invariant
                    i <= k <= rest.len(),
                    head@ == rest@.take(i as int),
                decreases k - i,
            {
                head.push(rest[i].clone());
                assert(head@ =~= rest@.take(i + 1));
                i = i + 1;
            }
            assert(texts(head@) =~= texts(rest@).take(k as int));
            self.scan(&head);
            fresh_from = k;
        }
        let ghost primed = *self;
        let ghost c0 = self.pre_count as int;
        let mut rows: Vec<Vec<String>> = Vec::new();
        assert(table_view(rows@) =~= rows_of(
            texts(self.pre_lines@).subrange(c0, c0),
            nats(self.pos@),
            self.trim_space,
        ));
        while self.pre_count < self.pre_lines.len()
            invariant
                self.wf(),
                !(self.phase is Unprimed),
                self.same_settings(&primed),
                self.pos == primed.pos,
                self.pre_lines == primed.pre_lines,
                0 <= c0 <= self.pre_count,
                table_view(rows@) == rows_of(
                    texts(self.pre_lines@).subrange(c0, self.pre_count as int),
                    nats(self.pos@),
                    self.trim_space,
                ),
            decreases self.pre_lines.len() - self.pre_count,
        {
            let ghost at = self.pre_count as int;
            match self.read() {
                Some(row) => {
                    let ghost before = rows@;
                    rows.push(row);
                    assert(rows@ == before.push(row));
                    assert(table_view(rows@) =~= table_view(before).push(texts(row@)));
                    assert(self.pre_count == at + 1);
                    assert(texts(self.pre_lines@).len() == self.pre_lines.len());
                    assert(texts(self.pre_lines@).subrange(c0, at + 1) =~= texts(
                        self.pre_lines@,
                    ).subrange(c0, at).push(texts(self.pre_lines@)[at]));
                    assert(table_view(rows@) =~= rows_of(
                        texts(self.pre_lines@).subrange(c0, self.pre_count as int),
                        nats(self.pos@),
                        self.trim_space,
                    ));
                },
                None => {},
            }
        }
        assert(texts(self.pre_lines@).subrange(c0, self.pre_count as int) =~= primed.pending());
        let ghost fresh = texts(rest@).skip(fresh_from as int);
        let mut i: usize = fresh_from;
        assert(trimmed_lines(texts(rest@).subrange(fresh_from as int, fresh_from as int))
            =~= Seq::<Seq<char>>::empty());
        assert(primed.pending() + Seq::<Seq<char>>::empty() =~= primed.pending());
        while i < rest.len()
            invariant
                fresh_from <= i <= rest.len(),
                self.wf(),
                self.phase is Draining,
                self.same_settings(&primed),
                self.pos == primed.pos,
                self.pre_lines == primed.pre_lines,
                table_view(rows@) == rows_of(
                    primed.pending() + trimmed_lines(
                        texts(rest@).subrange(fresh_from as int, i as int),
                    ),
                    nats(self.pos@),
                    self.trim_space,
                ),
            decreases rest.len() - i,
        {
            let row = self.read_line(rest[i].as_str());
            let ghost before = rows@;
            rows.push(row);
            assert(rows@ == before.push(row));
            assert(table_view(rows@) =~= table_view(before).push(texts(row@)));
            assert(trimmed_lines(texts(rest@).subrange(fresh_from as int, i + 1)) =~= trimmed_lines(
                texts(rest@).subrange(fresh_from as int, i as int),
            ).push(trim_end_of(rest@[i as int]@)));
            assert(table_view(rows@) =~= rows_of(
                primed.pending() + trimmed_lines(texts(rest@).subrange(fresh_from as int, i + 1)),
                nats(self.pos@),
                self.trim_space,
            ));
            i = i + 1;
        }
        proof {
            if old(self).phase is Unprimed {
                let k = fresh_from as int;
                assert(primed.pending() =~= trimmed_lines(texts(rest@).take(k)));
                assert(primed.pending() + trimmed_lines(
                    texts(rest@).subrange(k, rest.len() as int),
                ) =~= trimmed_lines(texts(rest@)));
            } else {
                assert(texts(rest@).subrange(0, rest.len() as int) =~= texts(rest@));
            }
        }
        rows
    }

    /// Splits a fresh line of the stream, without its trailing white space.
    pub fn read_line(&self, line: &str) -> (r: Vec<String>)
        ensures
            texts(r@) == split_line(trim_end_of(line@), nats(self.pos@), self.trim_space),
    {
        let line = trim_end(line);
        split(line.as_str(), &self.pos, self.trim_space)
    }
}

} // verus!
