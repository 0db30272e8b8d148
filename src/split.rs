use crate::estimate::{nats, strictly_increasing};
use crate::text::{
    chars_of, is_white, is_whitespace, lemma_trim_idempotent, texts, trim_bounds, trim_end_of,
    trim_of, trim_start_of,
};
use crate::width::{cell_widths, column_widths};
use vstd::prelude::*;

verus! {

/// The first index at or after `p` that holds white space, or the end of `s`.
pub open spec fn forward_boundary(s: Seq<char>, p: int) -> int
    decreases s.len() - p,
{
    if p >= s.len() || is_white(s[p]) {
        p
    } else {
        forward_boundary(s, p + 1)
    }
}

/// The last index at or before `p` that holds white space, or 0.
pub open spec fn backward_boundary(s: Seq<char>, p: int) -> int
    decreases p,
{
    if p <= 0 || is_white(s[p]) {
        p
    } else {
        backward_boundary(s, p - 1)
    }
}

/// Where the field that ends at expected position `pos[n]` is cut, when the
/// running width of `s` reaches that position at index `p`. White space at
/// `p` is cut there; a word that covers `p` is kept whole: it goes to the
/// coming field when it starts exactly at `pos[n]`, to the field before when
/// it ends exactly at `pos[n + 1]` or starts between the two positions, and
/// otherwise to the coming field.
pub open spec fn cut_point(s: Seq<char>, p: int, pos: Seq<nat>, n: int) -> int {
    if is_white(s[p]) {
        p
    } else {
        let f = forward_boundary(s, p);
        let b = backward_boundary(s, p);
        if b == pos[n] {
            f
        } else if n + 1 < pos.len() && f == pos[n + 1] {
            b
        } else if n + 1 < pos.len() && pos[n] < b < pos[n + 1] {
            b
        } else {
            f
        }
    }
}

/// A field as it is handed out: trimmed of white space at both ends, or as
/// it stands.
pub open spec fn field_text(t: Seq<char>, trim: bool) -> Seq<char> {
    if trim {
        trim_of(t)
    } else {
        t
    }
}

/// Where the splitting of a line stands: the next expected position, the
/// start of the current field, the running display width, the fields cut so
/// far, and whether an overflow ended the splitting early.
pub struct Walk {
    pub n: nat,
    pub start: nat,
    pub w: nat,
    pub fields: Seq<Seq<char>>,
    pub stopped: bool,
}

/// The splitting of `s` at positions `pos`, after its first `k` characters,
/// `ws[i]` being the display width of `s[i]`.
pub open spec fn walk(s: Seq<char>, ws: Seq<nat>, pos: Seq<nat>, trim: bool, k: nat) -> Walk
    decreases k,
{
    if k == 0 {
        Walk { n: 0, start: 0, w: 0, fields: seq![], stopped: false }
    } else {
        let c = walk(s, ws, pos, trim, (k - 1) as nat);
        let p = k - 1;
        if c.stopped || c.n >= pos.len() {
            c
        } else if pos[c.n as int] <= c.w {
            let end = cut_point(s, p, pos, c.n as int);
            if end < c.start {
                Walk { n: c.n, start: c.start, w: c.w, fields: c.fields, stopped: true }
            } else {
                Walk {
                    n: c.n + 1,
                    start: end as nat,
                    w: c.w + ws[p],
                    fields: c.fields.push(field_text(s.subrange(c.start as int, end), trim)),
                    stopped: false,
                }
            }
        } else {
            Walk {
                n: c.n,
                start: c.start,
                w: c.w + ws[p],
                fields: c.fields,
                stopped: false,
            }
        }
    }
}

/// The fields of the line `s` split at positions `pos`: the fields cut while
/// walking the line, then the rest of the line as the next field, then an
/// empty field for each position that the line ended before (none after an
/// early stop). `ws[i]` is the display width of `s[i]`.
pub open spec fn split_fields(s: Seq<char>, ws: Seq<nat>, pos: Seq<nat>, trim: bool) -> Seq<
    Seq<char>,
> {
    let c = walk(s, ws, pos, trim, s.len());
    let fields = c.fields.push(field_text(s.subrange(c.start as int, s.len() as int), trim));
    if c.stopped {
        fields
    } else {
        fields + empty_fields((pos.len() - c.n) as nat)
    }
}

/// `k` empty fields.
pub open spec fn empty_fields(k: nat) -> Seq<Seq<char>> {
    Seq::new(k, |i: int| Seq::<char>::empty())
}

/// The fields of the line `s` split at positions `pos`, its characters
/// taking the display widths that the Unicode tables give them.
pub open spec fn split_line(s: Seq<char>, pos: Seq<nat>, trim: bool) -> Seq<Seq<char>> {
    split_fields(s, cell_widths(s), pos, trim)
}

/// Where the field ending at `pos[n]` is cut, the running width having
/// reached that position at `lr[p]`.
fn separator_position(lr: &Vec<char>, p: usize, pos: &Vec<usize>, n: usize) -> (r: usize)
    requires
        p < lr.len(),
        n < pos.len(),
    ensures
        r as int == cut_point(lr@, p as int, nats(pos@), n as int),
        r <= lr.len(),
{
    if is_whitespace(lr[p]) {
        return p;
    }
    let mut f = p;
    while f < lr.len() && !is_whitespace(lr[f])
        invariant
            p <= f <= lr.len(),
            forward_boundary(lr@, p as int) == forward_boundary(lr@, f as int),
        decreases lr.len() - f,
    {
        f = f + 1;
    }
    let mut b = p;
    while b > 0 && !is_whitespace(lr[b])
        invariant
            b <= p < lr.len(),
            backward_boundary(lr@, p as int) == backward_boundary(lr@, b as int),
        decreases b,
    {
        b = b - 1;
    }
    if b == pos[n] {
        return f;
    }
    if n < pos.len() - 1 {
        if f == pos[n + 1] {
            return b;
        }
        if b > pos[n] && b < pos[n + 1] {
            return b;
        }
    }
    f
}

/// The field `lr[from..to]` of `line`, trimmed if `trim` is set.
fn field(line: &str, lr: &Vec<char>, from: usize, to: usize, trim: bool) -> (r: String)
    requires
        line@ == lr@,
        from <= to <= lr.len(),
    ensures
        r@ == field_text(lr@.subrange(from as int, to as int), trim),
{
    if trim {
        let (a, b) = trim_bounds(lr, from, to);
        String::from_str(line.substring_char(a, b))
    } else {
        String::from_str(line.substring_char(from, to))
    }
}

/// Once the splitting has stopped or used every position, the rest of the
/// line changes nothing.
proof fn lemma_walk_settled(
    s: Seq<char>,
    ws: Seq<nat>,
    pos: Seq<nat>,
    trim: bool,
    k: nat,
    j: nat,
)
    requires
        k <= j,
        walk(s, ws, pos, trim, k).stopped || walk(s, ws, pos, trim, k).n >= pos.len(),
    ensures
        walk(s, ws, pos, trim, j) == walk(s, ws, pos, trim, k),
    decreases j,
{
    if j > k {
        lemma_walk_settled(s, ws, pos, trim, k, (j - 1) as nat);
    }
}

/// Splits `line` into fields at the display-column positions `pos`, trimming
/// each field of white space if `trim` is set; `widths[i]` is the display
/// width of the `i`-th character of `line`.
pub fn split_measured(line: &str, widths: &Vec<usize>, pos: &Vec<usize>, trim: bool) -> (r: Vec<
    String,
>)
    requires
        widths.len() == line@.len(),
    ensures
        texts(r@) == split_fields(line@, nats(widths@), nats(pos@), trim),
{
    let lr = chars_of(line);
    let ghost s = lr@;
    let ghost ws = nats(widths@);
    let ghost ps = nats(pos@);
    let mut n: usize = 0;
    let mut start: usize = 0;
    let mut w: usize = 0;
    let mut stopped = false;
    let mut columns: Vec<String> = Vec::new();
    let mut p: usize = 0;
    assert(texts(columns@) =~= Seq::<Seq<char>>::empty());
    while p < lr.len() && n < pos.len() && !stopped
        invariant
            p <= lr.len(),
            line@ == lr@,
            s == lr@,
            ws == nats(widths@),
            widths.len() == lr.len(),
            ps == nats(pos@),
            start <= lr.len(),
            n as nat == walk(s, ws, ps, trim, p as nat).n,
            start as nat == walk(s, ws, ps, trim, p as nat).start,
            stopped == walk(s, ws, ps, trim, p as nat).stopped,
            texts(columns@) == walk(s, ws, ps, trim, p as nat).fields,
            if walk(s, ws, ps, trim, p as nat).w <= usize::MAX {
                w as nat == walk(s, ws, ps, trim, p as nat).w
            } else {
                w == usize::MAX
            },
        decreases lr.len() - p,
    {
        if pos[n] <= w {
            let end = separator_position(&lr, p, pos, n);
            if start > end {
                stopped = true;
            } else {
                let col = field(line, &lr, start, end, trim);
                columns.push(col);
                n = n + 1;
                start = end;
                w = w.saturating_add(widths[p]);
            }
        } else {
            w = w.saturating_add(widths[p]);
        }
        assert(texts(columns@) =~= walk(s, ws, ps, trim, (p + 1) as nat).fields);
        p = p + 1;
    }
    proof {
        if p < lr.len() {
            assert(ps.len() == pos.len());
            lemma_walk_settled(s, ws, ps, trim, p as nat, s.len());
        }
    }
    proof {
        lemma_walk_count(s, ws, ps, trim, s.len());
    }
    let last = field(line, &lr, start, lr.len(), trim);
    columns.push(last);
    let ghost cut = texts(columns@);
    let ghost n0 = n as nat;
    assert(cut == walk(s, ws, ps, trim, s.len()).fields.push(
        field_text(s.subrange(start as int, s.len() as int), trim),
    ));
    if !stopped {
        assert(cut + empty_fields(0) =~= cut);
        while n < pos.len()
            invariant
                n0 <= n <= pos.len(),
                texts(columns@) == cut + empty_fields((n - n0) as nat),
            decreases pos.len() - n,
        {
            let ghost before = columns@;
            let blank = String::new();
            columns.push(blank);
            assert(columns@ == before.push(blank));
            assert(blank@ =~= Seq::<char>::empty());
            assert(texts(columns@) =~= texts(before).push(blank@));
            assert(texts(columns@) =~= cut + empty_fields((n + 1 - n0) as nat));
            n = n + 1;
        }
    }
    assert(texts(columns@) =~= split_fields(line@, ws, ps, trim));
    columns
}

/// Splits `line` into fields at the display-column positions `pos`, trimming
/// each field of white space if `trim` is set.
pub fn split(line: &str, pos: &Vec<usize>, trim: bool) -> (r: Vec<String>)
    ensures
        texts(r@) == split_line(line@, nats(pos@), trim),
{
    let lr = chars_of(line);
    let widths = column_widths(&lr);
    assert(nats(widths@) =~= cell_widths(line@));
    split_measured(line, &widths, pos, trim)
}

/// The walk cuts one field per position used, uses no more positions than
/// there are, and stops early only with a position left.
proof fn lemma_walk_count(s: Seq<char>, ws: Seq<nat>, pos: Seq<nat>, trim: bool, k: nat)
    ensures
        walk(s, ws, pos, trim, k).fields.len() == walk(s, ws, pos, trim, k).n,
        walk(s, ws, pos, trim, k).n <= pos.len(),
        walk(s, ws, pos, trim, k).stopped ==> walk(s, ws, pos, trim, k).n < pos.len(),
    decreases k,
{
    if k > 0 {
        lemma_walk_count(s, ws, pos, trim, (k - 1) as nat);
    }
}

/// A line splits into at most one field more than there are positions, and
/// into exactly that many unless an overflow stops the splitting early.
pub proof fn lemma_field_count(s: Seq<char>, ws: Seq<nat>, pos: Seq<nat>, trim: bool)
    ensures
        split_fields(s, ws, pos, trim).len() <= pos.len() + 1,
        split_fields(s, ws, pos, trim).len() == pos.len() + 1 <==> !walk(
            s,
            ws,
            pos,
            trim,
            s.len(),
        ).stopped,
{
    lemma_walk_count(s, ws, pos, trim, s.len());
}

/// The forward boundary is the first white space at or after `p`, or the
/// end of `s`.
proof fn lemma_forward_boundary(s: Seq<char>, p: int)
    requires
        0 <= p <= s.len(),
    ensures
        p <= forward_boundary(s, p) <= s.len(),
        forward_boundary(s, p) == s.len() || is_white(s[forward_boundary(s, p)]),
        forall|j: int| p <= j < forward_boundary(s, p) ==> !is_white(#[trigger] s[j]),
    decreases s.len() - p,
{
    if p < s.len() && !is_white(s[p]) {
        lemma_forward_boundary(s, p + 1);
    }
}

/// The backward boundary is the last white space at or before `p`, or 0.
proof fn lemma_backward_boundary(s: Seq<char>, p: int)
    requires
        0 <= p < s.len(),
    ensures
        0 <= backward_boundary(s, p) <= p,
        backward_boundary(s, p) == 0 || is_white(s[backward_boundary(s, p)]),
        forall|j: int| backward_boundary(s, p) < j <= p ==> !is_white(#[trigger] s[j]),
    decreases p,
{
    if p > 0 && !is_white(s[p]) {
        lemma_backward_boundary(s, p - 1);
    }
}

/// A cut never falls inside a word: it is at the white space reached, or
/// just after the word that covers the position (at white space or the end
/// of the line), or just before it (at white space or the start).
pub proof fn lemma_cut_at_word_edge(s: Seq<char>, p: int, pos: Seq<nat>, n: int)
    requires
        0 <= p < s.len(),
        0 <= n < pos.len(),
    ensures
        ({
            let r = cut_point(s, p, pos, n);
            ||| r == p && is_white(s[p])
            ||| p <= r <= s.len() && (r == s.len() || is_white(s[r])) && forall|j: int|
                p <= j < r ==> !is_white(#[trigger] s[j])
            ||| 0 <= r <= p && (r == 0 || is_white(s[r])) && forall|j: int|
                r < j <= p ==> !is_white(#[trigger] s[j])
        }),
{
    lemma_forward_boundary(s, p);
    lemma_backward_boundary(s, p);
}

/// Every field that a trimming walk has cut is already trimmed.
proof fn lemma_walk_trimmed(s: Seq<char>, ws: Seq<nat>, pos: Seq<nat>, k: nat)
    ensures
        forall|i: int|
            0 <= i < walk(s, ws, pos, true, k).fields.len() ==> trim_of(
                #[trigger] walk(s, ws, pos, true, k).fields[i],
            ) == walk(s, ws, pos, true, k).fields[i],
    decreases k,
{
    if k > 0 {
        lemma_walk_trimmed(s, ws, pos, (k - 1) as nat);
        let c = walk(s, ws, pos, true, (k - 1) as nat);
        if !c.stopped && c.n < pos.len() && pos[c.n as int] <= c.w {
            let end = cut_point(s, k - 1, pos, c.n as int);
            lemma_trim_idempotent(s.subrange(c.start as int, end));
        }
    }
}

/// Trimming the fields of a row split with trimming on changes nothing.
pub proof fn lemma_trimmed_row_fixed(s: Seq<char>, ws: Seq<nat>, pos: Seq<nat>)
    ensures
        forall|i: int|
            0 <= i < split_fields(s, ws, pos, true).len() ==> trim_of(
                #[trigger] split_fields(s, ws, pos, true)[i],
            ) == split_fields(s, ws, pos, true)[i],
{
    let c = walk(s, ws, pos, true, s.len());
    lemma_walk_trimmed(s, ws, pos, s.len());
    lemma_trim_idempotent(s.subrange(c.start as int, s.len() as int));
    assert forall|i: int| 0 <= i < split_fields(s, ws, pos, true).len() implies trim_of(
        #[trigger] split_fields(s, ws, pos, true)[i],
    ) == split_fields(s, ws, pos, true)[i] by {
        if i < c.fields.len() {
            assert(split_fields(s, ws, pos, true)[i] == c.fields[i]);
        } else if i > c.fields.len() {
            assert(split_fields(s, ws, pos, true)[i] == Seq::<char>::empty());
            assert(trim_end_of(Seq::<char>::empty()) == Seq::<char>::empty());
            assert(trim_start_of(Seq::<char>::empty()) == Seq::<char>::empty());
        }
    }
}

} // verus!
