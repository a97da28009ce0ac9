//! Character-level text handling: whitespace, trimming, line splitting,
//! prefixes and decimal numerals, stated over `Seq<char>`.

use vstd::prelude::*;
use vstd::std_specs::iter::IteratorSpec;

verus! {

/// Unicode `White_Space`, the set that `char::is_whitespace` tests.
pub open spec fn is_ws(c: char) -> bool {
    let n = c as u32;
    ||| 0x09 <= n <= 0x0d
    ||| n == 0x20
    ||| n == 0x85
    ||| n == 0xa0
    ||| n == 0x1680
    ||| 0x2000 <= n <= 0x200a
    ||| n == 0x2028
    ||| n == 0x2029
    ||| n == 0x202f
    ||| n == 0x205f
    ||| n == 0x3000
}

/// `s` without its leading whitespace.
pub open spec fn trim_start(s: Seq<char>) -> Seq<char>
    decreases s.len(),
{
    if s.len() > 0 && is_ws(s[0]) {
        trim_start(s.drop_first())
    } else {
        s
    }
}

/// `s` without its trailing whitespace.
pub open spec fn trim_end(s: Seq<char>) -> Seq<char>
    decreases s.len(),
{
    if s.len() > 0 && is_ws(s.last()) {
        trim_end(s.drop_last())
    } else {
        s
    }
}

/// `s` without leading and trailing whitespace, as `str::trim` gives it.
pub open spec fn trim(s: Seq<char>) -> Seq<char> {
    trim_end(trim_start(s))
}

pub open spec fn starts_with(s: Seq<char>, p: Seq<char>) -> bool {
    p.len() <= s.len() && s.take(p.len() as int) == p
}

pub open spec fn ends_with(s: Seq<char>, p: Seq<char>) -> bool {
    p.len() <= s.len() && s.skip(s.len() - p.len()) == p
}

/// The length of the first line of `s`, its `'\n'` included when there is one.
pub open spec fn first_line_len(s: Seq<char>) -> nat
    decreases s.len(),
{
    if s.len() == 0 {
        0
    } else if s[0] == '\n' {
        1
    } else {
        1 + first_line_len(s.drop_first())
    }
}

/// The pieces of `s` that `str::split_inclusive('\n')` yields.
pub open spec fn split_lines(s: Seq<char>) -> Seq<Seq<char>>
    decreases s.len(),
{
    if s.len() == 0 {
        Seq::empty()
    } else {
        let k = first_line_len(s);
        if 0 < k <= s.len() {
            seq![s.take(k as int)] + split_lines(s.skip(k as int))
        } else {
            Seq::empty()
        }
    }
}

/// One piece of `split_lines` with its line ending removed, as `str::lines` does:
/// a final `'\n'`, and then a `'\r'` before it.
pub open spec fn strip_line_ending(l: Seq<char>) -> Seq<char> {
    if l.len() > 0 && l.last() == '\n' {
        let m = l.drop_last();
        if m.len() > 0 && m.last() == '\r' {
            m.drop_last()
        } else {
            m
        }
    } else {
        l
    }
}

/// The lines of `s`, as `str::lines` yields them.
pub open spec fn lines(s: Seq<char>) -> Seq<Seq<char>> {
    split_lines(s).map_values(|l: Seq<char>| strip_line_ending(l))
}

pub open spec fn digit(d: nat) -> char {
    if d == 0 {
        '0'
    } else if d == 1 {
        '1'
    } else if d == 2 {
        '2'
    } else if d == 3 {
        '3'
    } else if d == 4 {
        '4'
    } else if d == 5 {
        '5'
    } else if d == 6 {
        '6'
    } else if d == 7 {
        '7'
    } else if d == 8 {
        '8'
    } else {
        '9'
    }
}

/// The decimal numeral of `n`, as `{}` formats an unsigned integer.
pub open spec fn decimal(n: nat) -> Seq<char>
    decreases n,
{
    if n < 10 {
        seq![digit(n)]
    } else {
        decimal(n / 10) + seq![digit(n % 10)]
    }
}

pub proof fn lemma_first_line_len_bounds(s: Seq<char>)
    ensures
        first_line_len(s) <= s.len(),
        s.len() > 0 ==> first_line_len(s) >= 1,
    decreases s.len(),
{
    if s.len() > 0 && s[0] != '\n' {
        lemma_first_line_len_bounds(s.drop_first());
    }
}

/// Unfolds `split_lines` once on a nonempty text.
pub proof fn lemma_split_lines_unfold(s: Seq<char>)
    requires
        s.len() > 0,
    ensures
        0 < first_line_len(s) <= s.len(),
        split_lines(s) == seq![s.take(first_line_len(s) as int)] + split_lines(
            s.skip(first_line_len(s) as int),
        ),
{
    lemma_first_line_len_bounds(s);
}

pub proof fn lemma_decimal_len(n: nat)
    ensures
        decimal(n).len() >= 1,
        n >= 10 ==> decimal(n).len() >= 2,
    decreases n,
{
    if n >= 10 {
        lemma_decimal_len(n / 10);
    }
}

proof fn lemma_digit_injective(a: nat, b: nat)
    requires
        a < 10,
        b < 10,
        digit(a) == digit(b),
    ensures
        a == b,
{
}

/// Distinct numbers have distinct numerals.
pub proof fn lemma_decimal_injective(a: nat, b: nat)
    requires
        decimal(a) == decimal(b),
    ensures
        a == b,
    decreases a,
{
    lemma_decimal_len(a);
    lemma_decimal_len(b);
    if a >= 10 && b >= 10 {
        let da = decimal(a);
        let db = decimal(b);
        assert(da.last() == digit(a % 10));
        assert(db.last() == digit(b % 10));
        assert(a % 10 == b % 10);
        assert(da.drop_last() =~= decimal(a / 10));
        assert(db.drop_last() =~= decimal(b / 10));
        lemma_decimal_injective(a / 10, b / 10);
        assert(a == 10 * (a / 10) + a % 10);
        assert(b == 10 * (b / 10) + b % 10);
    } else if a < 10 && b < 10 {
        assert(decimal(a) =~= seq![digit(a)]);
        assert(decimal(b) =~= seq![digit(b)]);
        assert(digit(a) == decimal(a)[0]);
        assert(digit(b) == decimal(b)[0]);
        lemma_digit_injective(a, b);
    }
}

/// `String::push`.
#[verifier::external_body]
pub fn push_char(s: &mut String, c: char)
    ensures
        final(s)@ == old(s)@.push(c),
{
    s.push(c);
}

/// The characters of `s`.
pub fn chars_of(s: &str) -> (v: Vec<char>)
    ensures
        v@ == s@,
{
    let mut v: Vec<char> = Vec::new();
    let mut it = s.chars();
    loop
        invariant
            it.obeys_prophetic_iter_laws(),
            s@ == v@ + it.remaining(),
        decreases s@.len() - v@.len(),
    {
        match it.next() {
            Some(c) => {
                v.push(c);
            },
            None => {
                assert(v@ =~= s@);
                return v;
            },
        }
    }
}

/// Appends `v[lo..hi]` to `s`.
pub fn push_chars(s: &mut String, v: &Vec<char>, lo: usize, hi: usize)
    requires
        lo <= hi <= v.len(),
    ensures
        final(s)@ == old(s)@ + v@.subrange(lo as int, hi as int),
{
    let mut i = lo;
    while i < hi
        invariant
            lo <= i <= hi <= v.len(),
            s@ == old(s)@ + v@.subrange(lo as int, i as int),
        decreases hi - i,
    {
        push_char(s, v[i]);
        assert(v@.subrange(lo as int, i + 1) =~= v@.subrange(lo as int, i as int).push(v@[i as int]));
        i += 1;
    }
}

/// A `String` holding `v[lo..hi]`.
pub fn string_of(v: &Vec<char>, lo: usize, hi: usize) -> (s: String)
    requires
        lo <= hi <= v.len(),
    ensures
        s@ == v@.subrange(lo as int, hi as int),
{
    let mut s = String::new();
    push_chars(&mut s, v, lo, hi);
    assert(s@ =~= v@.subrange(lo as int, hi as int));
    s
}

pub fn is_whitespace(c: char) -> (b: bool)
    ensures
        b == is_ws(c),
{
    let n = c as u32;
    (0x09 <= n && n <= 0x0d) || n == 0x20 || n == 0x85 || n == 0xa0 || n == 0x1680 || (0x2000
        <= n && n <= 0x200a) || n == 0x2028 || n == 0x2029 || n == 0x202f || n == 0x205f || n
        == 0x3000
}

/// The bounds of `trim(v[lo..hi])` inside `v`.
pub fn trim_bounds(v: &Vec<char>, lo: usize, hi: usize) -> (r: (usize, usize))
    requires
        lo <= hi <= v.len(),
    ensures
        lo <= r.0 <= r.1 <= hi,
        v@.subrange(r.0 as int, r.1 as int) == trim(v@.subrange(lo as int, hi as int)),
{
    let mut a = lo;
    while a < hi && is_whitespace(v[a])
        invariant
            lo <= a <= hi <= v.len(),
            trim_start(v@.subrange(lo as int, hi as int)) == trim_start(
                v@.subrange(a as int, hi as int),
            ),
        decreases hi - a,
    {
        assert(v@.subrange(a as int, hi as int).drop_first() =~= v@.subrange(a + 1, hi as int));
        a += 1;
    }
    let ghost ts = v@.subrange(a as int, hi as int);
    assert(trim_start(ts) == ts);
    let mut b = hi;
    while b > a && is_whitespace(v[b - 1])
        invariant
            lo <= a <= b <= hi <= v.len(),
            trim_end(ts) == trim_end(v@.subrange(a as int, b as int)),
            ts == v@.subrange(a as int, hi as int),
        decreases b - a,
    {
        assert(v@.subrange(a as int, b as int).drop_last() =~= v@.subrange(a as int, b - 1));
        b -= 1;
    }
    (a, b)
}

/// Whether `v[lo..hi]` is empty once trimmed.
pub fn is_blank(v: &Vec<char>, lo: usize, hi: usize) -> (b: bool)
    requires
        lo <= hi <= v.len(),
    ensures
        b == (trim(v@.subrange(lo as int, hi as int)).len() == 0),
{
    let (a, b) = trim_bounds(v, lo, hi);
    a == b
}

/// Whether `v[lo..hi]` begins with `p`.
pub fn has_prefix(v: &Vec<char>, lo: usize, hi: usize, p: &Vec<char>) -> (b: bool)
    requires
        lo <= hi <= v.len(),
    ensures
        b == starts_with(v@.subrange(lo as int, hi as int), p@),
{
    if p.len() > hi - lo {
        return false;
    }
    let mut i: usize = 0;
    while i < p.len()
        invariant
            lo <= hi <= v.len(),
            p.len() <= hi - lo,
            i <= p.len(),
            forall|j: int| 0 <= j < i ==> v@[lo + j] == p@[j],
        decreases p.len() - i,
    {
        if v[lo + i] != p[i] {
            assert(v@.subrange(lo as int, hi as int).take(p.len() as int)[i as int] != p@[i as int]);
            return false;
        }
        i += 1;
    }
    assert(v@.subrange(lo as int, hi as int).take(p.len() as int) =~= p@);
    true
}

/// Whether `v[lo..hi]` is exactly `p`.
pub fn equals(v: &Vec<char>, lo: usize, hi: usize, p: &Vec<char>) -> (b: bool)
    requires
        lo <= hi <= v.len(),
    ensures
        b == (v@.subrange(lo as int, hi as int) == p@),
{
    if p.len() != hi - lo {
        assert(v@.subrange(lo as int, hi as int).len() != p@.len());
        return false;
    }
    let r = has_prefix(v, lo, hi, p);
    assert(r ==> v@.subrange(lo as int, hi as int).take(p.len() as int) =~= v@.subrange(
        lo as int,
        hi as int,
    ));
    assert(v@.subrange(lo as int, hi as int) == p@ ==> v@.subrange(lo as int, hi as int).take(
        p.len() as int,
    ) =~= p@);
    r
}

/// `v[lo..lo + k]` with its line ending removed, as bounds in `v`.
fn strip_ending_bounds(v: &Vec<char>, lo: usize, hi: usize) -> (e: usize)
    requires
        lo <= hi <= v.len(),
    ensures
        lo <= e <= hi,
        v@.subrange(lo as int, e as int) == strip_line_ending(v@.subrange(lo as int, hi as int)),
{
    let ghost l = v@.subrange(lo as int, hi as int);
    if hi > lo && v[hi - 1] == '\n' {
        assert(l.drop_last() =~= v@.subrange(lo as int, hi - 1));
        if hi - 1 > lo && v[hi - 2] == '\r' {
            assert(l.drop_last().drop_last() =~= v@.subrange(lo as int, hi - 2));
            hi - 2
        } else {
            hi - 1
        }
    } else {
        hi
    }
}

/// The lines of `s`, as `str::lines` yields them.
pub fn lines_of(s: &str) -> (out: Vec<String>)
    ensures
        out.deep_view() == lines(s@),
{
    let cs = chars_of(s);
    let mut out: Vec<String> = Vec::new();
    let mut pos: usize = 0;
    assert(cs@.skip(0) =~= cs@);
    assert(out.deep_view() =~= Seq::<Seq<char>>::empty());
    while pos < cs.len()
        invariant
            pos <= cs.len(),
            cs@ == s@,
            lines(s@) == out.deep_view() + lines(cs@.skip(pos as int)),
        decreases cs.len() - pos,
    {
        let ghost rest = cs@.skip(pos as int);
        let k = line_len(&cs, pos, cs.len());
        assert(cs@.subrange(pos as int, cs.len() as int) =~= rest);
        proof {
            lemma_split_lines_unfold(rest);
        }
        let ghost line = rest.take(k as int);
        assert(line =~= cs@.subrange(pos as int, pos + k));
        assert(rest.skip(k as int) =~= cs@.skip(pos + k));
        let ghost tail = split_lines(cs@.skip(pos + k));
        assert(split_lines(rest) == seq![line] + tail);
        assert(lines(rest) =~= seq![strip_line_ending(line)] + lines(cs@.skip(pos + k)));
        let e = strip_ending_bounds(&cs, pos, pos + k);
        let piece = string_of(&cs, pos, e);
        let ghost before = out.deep_view();
        out.push(piece);
        assert(out.deep_view() =~= before.push(strip_line_ending(line)));
        pos = pos + k;
    }
    assert(cs@.skip(pos as int) =~= Seq::<char>::empty());
    assert(lines(cs@.skip(pos as int)) =~= Seq::<Seq<char>>::empty());
    assert(out.deep_view() =~= lines(s@));
    out
}

/// `s` with every match of `p` replaced by `r`, matches taken from the
/// left without overlap, as `str::replace` gives it (an empty `p` matches
/// before every character and at the end).
pub open spec fn replaced(s: Seq<char>, p: Seq<char>, r: Seq<char>) -> Seq<char>
    decreases s.len(),
{
    if p.len() == 0 {
        if s.len() == 0 {
            r
        } else {
            r + seq![s[0]] + replaced(s.drop_first(), p, r)
        }
    } else if s.len() == 0 {
        s
    } else if starts_with(s, p) {
        r + replaced(s.skip(p.len() as int), p, r)
    } else {
        seq![s[0]] + replaced(s.drop_first(), p, r)
    }
}

/// `s` with every match of `p` replaced by `r`, as `str::replace` does it.
pub fn replace_all(s: &str, p: &str, r: &str) -> (out: String)
    ensures
        out@ == replaced(s@, p@, r@),
{
    let cs = chars_of(s);
    let ps = chars_of(p);
    let mut out = String::new();
    let mut pos: usize = 0;
    assert(cs@.skip(0) =~= cs@);
    if ps.len() == 0 {
        while pos < cs.len()
            invariant
                pos <= cs.len(),
                cs@ == s@,
                ps@ == p@,
                p@.len() == 0,
                replaced(s@, p@, r@) == out@ + replaced(cs@.skip(pos as int), p@, r@),
            decreases cs.len() - pos,
        {
            assert(cs@.skip(pos as int).drop_first() =~= cs@.skip(pos + 1));
            assert(cs@.skip(pos as int)[0] == cs@[pos as int]);
            push_str(&mut out, r);
            push_char(&mut out, cs[pos]);
            pos += 1;
            assert(out@ + replaced(cs@.skip(pos as int), p@, r@) =~= replaced(s@, p@, r@));
        }
        assert(cs@.skip(pos as int) =~= Seq::<char>::empty());
        push_str(&mut out, r);
        return out;
    }
    while pos < cs.len()
        invariant
            pos <= cs.len(),
            cs@ == s@,
            ps@ == p@,
            p@.len() > 0,
            replaced(s@, p@, r@) == out@ + replaced(cs@.skip(pos as int), p@, r@),
        decreases cs.len() - pos,
    {
        let ghost rest = cs@.skip(pos as int);
        assert(cs@.subrange(pos as int, cs.len() as int) =~= rest);
        if has_prefix(&cs, pos, cs.len(), &ps) {
            assert(rest.skip(p@.len() as int) =~= cs@.skip(pos + ps.len()));
            push_str(&mut out, r);
            pos = pos + ps.len();
        } else {
            assert(rest.drop_first() =~= cs@.skip(pos + 1));
            push_char(&mut out, cs[pos]);
            pos += 1;
        }
        assert(out@ + replaced(cs@.skip(pos as int), p@, r@) =~= replaced(s@, p@, r@));
    }
    assert(cs@.skip(pos as int) =~= Seq::<char>::empty());
    assert(out@ =~= replaced(s@, p@, r@));
    out
}

/// Whether `a` and `b` hold the same characters.
pub fn str_eq(a: &str, b: &str) -> (r: bool)
    ensures
        r == (a@ == b@),
{
    let x = chars_of(a);
    let y = chars_of(b);
    assert(x@.subrange(0, x.len() as int) =~= x@);
    equals(&x, 0, x.len(), &y)
}

/// The length of the first line of `v[lo..hi]`.
pub fn line_len(v: &Vec<char>, lo: usize, hi: usize) -> (k: usize)
    requires
        lo < hi <= v.len(),
    ensures
        k == first_line_len(v@.subrange(lo as int, hi as int)),
        0 < k <= hi - lo,
{
    let mut i = lo;
    proof {
        lemma_first_line_len_bounds(v@.subrange(lo as int, hi as int));
    }
    while i < hi && v[i] != '\n'
        invariant
            lo <= i <= hi <= v.len(),
            first_line_len(v@.subrange(lo as int, hi as int)) == (i - lo) + first_line_len(
                v@.subrange(i as int, hi as int),
            ),
        decreases hi - i,
    {
        assert(v@.subrange(i as int, hi as int).drop_first() =~= v@.subrange(i + 1, hi as int));
        i += 1;
    }
    if i < hi {
        i + 1 - lo
    } else {
        i - lo
    }
}

fn digit_char(d: usize) -> (c: char)
    requires
        d < 10,
    ensures
        c == digit(d as nat),
{
    if d == 0 {
        '0'
    } else if d == 1 {
        '1'
    } else if d == 2 {
        '2'
    } else if d == 3 {
        '3'
    } else if d == 4 {
        '4'
    } else if d == 5 {
        '5'
    } else if d == 6 {
        '6'
    } else if d == 7 {
        '7'
    } else if d == 8 {
        '8'
    } else {
        '9'
    }
}

/// Appends the decimal numeral of `n` to `s`.
pub fn push_decimal(s: &mut String, n: usize)
    ensures
        final(s)@ == old(s)@ + decimal(n as nat),
    decreases n,
{
    if n >= 10 {
        push_decimal(s, n / 10);
    }
    push_char(s, digit_char(n % 10));
    assert(s@ =~= old(s)@ + decimal(n as nat));
}

/// Appends `t` to `s`.
pub fn push_str(s: &mut String, t: &str)
    ensures
        final(s)@ == old(s)@ + t@,
{
    s.append(t);
}

/// The pieces of `parts` joined by `'\n'`, as `[String]::join("\n")` gives them.
pub open spec fn join_newline(parts: Seq<Seq<char>>) -> Seq<char>
    decreases parts.len(),
{
    if parts.len() == 0 {
        Seq::empty()
    } else if parts.len() == 1 {
        parts[0]
    } else {
        join_newline(parts.drop_last()) + seq!['\n'] + parts.last()
    }
}

/// Joins `parts` with `'\n'` between neighbours.
pub fn join_lines(parts: &Vec<String>) -> (s: String)
    ensures
        s@ == join_newline(parts.deep_view()),
{
    let mut s = String::new();
    let mut i: usize = 0;
    let ghost dv = parts.deep_view();
    assert(dv.take(0) =~= Seq::<Seq<char>>::empty());
    while i < parts.len()
        invariant
            i <= parts.len(),
            dv == parts.deep_view(),
            dv.len() == parts.len(),
            s@ == join_newline(dv.take(i as int)),
        decreases parts.len() - i,
    {
        assert(dv.take(i + 1).drop_last() =~= dv.take(i as int));
        assert(dv[i as int] == parts[i as int]@);
        if i > 0 {
            push_char(&mut s, '\n');
        }
        push_str(&mut s, parts[i].as_str());
        assert(i == 0 ==> dv.take(1) =~= seq![dv[0]]);
        i += 1;
    }
    assert(dv.take(parts.len() as int) =~= dv);
    s
}

} // verus!
