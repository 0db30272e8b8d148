use vstd::prelude::*;

verus! {

/// Whether `c` has the Unicode `White_Space` property.
pub open spec fn is_white(c: char) -> bool {
    let u = c as u32;
    ||| 0x09 <= u <= 0x0D
    ||| u == 0x20
    ||| u == 0x85
    ||| u == 0xA0
    ||| u == 0x1680
    ||| 0x2000 <= u <= 0x200A
    ||| u == 0x2028
    ||| u == 0x2029
    ||| u == 0x202F
    ||| u == 0x205F
    ||| u == 0x3000
}

/// The texts of a sequence of strings.
pub open spec fn texts(v: Seq<String>) -> Seq<Seq<char>> {
    v.map_values(|s: String| s@)
}

/// `s` without its trailing white space.
pub open spec fn trim_end_of(s: Seq<char>) -> Seq<char>
    decreases s.len(),
{
    if s.len() > 0 && is_white(s.last()) {
        trim_end_of(s.drop_last())
    } else {
        s
    }
}

/// `s` without its leading white space.
pub open spec fn trim_start_of(s: Seq<char>) -> Seq<char>
    decreases s.len(),
{
    if s.len() > 0 && is_white(s[0]) {
        trim_start_of(s.drop_first())
    } else {
        s
    }
}

/// `s` without leading and trailing white space.
pub open spec fn trim_of(s: Seq<char>) -> Seq<char> {
    trim_start_of(trim_end_of(s))
}

/// `s` without its trailing space characters (`' '` only).
pub open spec fn trim_spaces_end_of(s: Seq<char>) -> Seq<char>
    decreases s.len(),
{
    if s.len() > 0 && s.last() == ' ' {
        trim_spaces_end_of(s.drop_last())
    } else {
        s
    }
}

/// Whether `c` is white space, as `char::is_whitespace` decides it.
pub fn is_whitespace(c: char) -> (r: bool)
    ensures
        r == is_white(c),
{
    let u = c as u32;
    (0x09 <= u && u <= 0x0D) || u == 0x20 || u == 0x85 || u == 0xA0 || u == 0x1680 || (0x2000
        <= u && u <= 0x200A) || u == 0x2028 || u == 0x2029 || u == 0x202F || u == 0x205F || u
        == 0x3000
}

/// The characters of `s`, one by one.
pub fn chars_of(s: &str) -> (r: Vec<char>)
    ensures
        r@ == s@,
{
    let mut r: Vec<char> = Vec::new();
    for c in it: s.chars()
        invariant
            r@ == it.seq().take(it.index() as int),
    {
        r.push(c);
    }
    r
}

/// What trimming the end leaves is a prefix of `s` that ends, if anywhere,
/// on a character that is not white space.
pub proof fn lemma_trim_end_shape(s: Seq<char>)
    ensures
        trim_end_of(s).len() <= s.len(),
        trim_end_of(s) == s.subrange(0, trim_end_of(s).len() as int),
        trim_end_of(s).len() == 0 || !is_white(trim_end_of(s).last()),
    decreases s.len(),
{
    if s.len() > 0 && is_white(s.last()) {
        lemma_trim_end_shape(s.drop_last());
        assert(s.drop_last().subrange(0, trim_end_of(s).len() as int) =~= s.subrange(
            0,
            trim_end_of(s).len() as int,
        ));
    } else {
        assert(s.subrange(0, s.len() as int) =~= s);
    }
}

/// What trimming the start leaves is a suffix of `s` that starts, if
/// anywhere, on a character that is not white space.
pub proof fn lemma_trim_start_shape(s: Seq<char>)
    ensures
        trim_start_of(s).len() <= s.len(),
        trim_start_of(s) == s.subrange(s.len() - trim_start_of(s).len(), s.len() as int),
        trim_start_of(s).len() == 0 || !is_white(trim_start_of(s)[0]),
    decreases s.len(),
{
    if s.len() > 0 && is_white(s[0]) {
        lemma_trim_start_shape(s.drop_first());
        let k = trim_start_of(s).len();
        assert(s.drop_first().subrange(s.len() - 1 - k, s.len() - 1) =~= s.subrange(
            s.len() - k,
            s.len() as int,
        ));
    } else {
        assert(s.subrange(0, s.len() as int) =~= s);
    }
}

/// A sequence with no white space at either end is its own trim.
pub proof fn lemma_trim_fixed(s: Seq<char>)
    requires
        s.len() == 0 || (!is_white(s[0]) && !is_white(s.last())),
    ensures
        trim_of(s) == s,
{
    assert(trim_end_of(s) == s);
}

/// Trimming is idempotent: a trimmed sequence has nothing left to trim.
pub proof fn lemma_trim_idempotent(s: Seq<char>)
    ensures
        trim_of(trim_of(s)) == trim_of(s),
{
    let e = trim_end_of(s);
    let t = trim_of(s);
    lemma_trim_end_shape(s);
    lemma_trim_start_shape(e);
    if t.len() > 0 {
        assert(t[t.len() - 1] == e[e.len() - 1]);
    }
    lemma_trim_fixed(t);
}

/// The bounds `(a, b)` of `v[from..to]` with the white space at both ends
/// left out.
pub fn trim_bounds(v: &Vec<char>, from: usize, to: usize) -> (r: (usize, usize))
    requires
        from <= to <= v.len(),
    ensures
        from <= r.0 <= r.1 <= to,
        v@.subrange(r.0 as int, r.1 as int) == trim_of(v@.subrange(from as int, to as int)),
{
    let mut b = to;
    while b > from && is_whitespace(v[b - 1])
        invariant
            from <= b <= to <= v.len(),
            trim_end_of(v@.subrange(from as int, to as int)) == trim_end_of(
                v@.subrange(from as int, b as int),
            ),
        decreases b,
    {
        assert(v@.subrange(from as int, b as int).drop_last() =~= v@.subrange(
            from as int,
            b - 1,
        ));
        b = b - 1;
    }
    let mut a = from;
    while a < b && is_whitespace(v[a])
        invariant
            from <= a <= b <= to <= v.len(),
            trim_of(v@.subrange(from as int, to as int)) == trim_start_of(
                v@.subrange(a as int, b as int),
            ),
        decreases b - a,
    {
        assert(v@.subrange(a as int, b as int).drop_first() =~= v@.subrange(a + 1, b as int));
        a = a + 1;
    }
    (a, b)
}

/// The number of characters of `v[..to]` left once trailing white space is
/// taken off.
fn trim_end_bound(v: &Vec<char>, to: usize) -> (r: usize)
    requires
        to <= v.len(),
    ensures
        r <= to,
        v@.subrange(0, r as int) == trim_end_of(v@.subrange(0, to as int)),
{
    let mut b = to;
    while b > 0 && is_whitespace(v[b - 1])
        invariant
            b <= to <= v.len(),
            trim_end_of(v@.subrange(0, to as int)) == trim_end_of(v@.subrange(0, b as int)),
        decreases b,
    {
        assert(v@.subrange(0, b as int).drop_last() =~= v@.subrange(0, b - 1));
        b = b - 1;
    }
    b
}

/// `s` without its trailing white space, as `str::trim_end` gives it.
pub fn trim_end(s: &str) -> (r: String)
    ensures
        r@ == trim_end_of(s@),
{
    let v = chars_of(s);
    let b = trim_end_bound(&v, v.len());
    assert(v@.subrange(0, v@.len() as int) =~= v@);
    String::from_str(s.substring_char(0, b))
}

/// `s` without leading and trailing white space, as `str::trim` gives it.
pub fn trim(s: &str) -> (r: String)
    ensures
        r@ == trim_of(s@),
{
    let v = chars_of(s);
    let (a, b) = trim_bounds(&v, 0, v.len());
    assert(v@.subrange(0, v@.len() as int) =~= v@);
    String::from_str(s.substring_char(a, b))
}

/// The number of characters of `v` left once trailing spaces are taken off.
pub fn trim_spaces_end_bound(v: &Vec<char>) -> (r: usize)
    ensures
        r <= v.len(),
        v@.subrange(0, r as int) == trim_spaces_end_of(v@),
{
    let mut b = v.len();
    assert(v@.subrange(0, b as int) =~= v@);
    while b > 0 && v[b - 1] == ' '
        invariant
            b <= v.len(),
            trim_spaces_end_of(v@) == trim_spaces_end_of(v@.subrange(0, b as int)),
        decreases b,
    {
        assert(v@.subrange(0, b as int).drop_last() =~= v@.subrange(0, b - 1));
        b = b - 1;
    }
    b
}

} // verus!
