//! Character-level text operations: conversions between strings and
//! character vectors, substring replacement, line splitting, and decimal
//! rendering. Everything here is shared by the normalizers and the filter.

use vstd::prelude::*;

verus! {

use vstd::string::StrSliceExecFns;

/// The characters with the Unicode `White_Space` property, the set on which
/// `str::split_whitespace` splits.
pub open spec fn is_space_char(c: char) -> bool {
    let u = c as u32;
    u == 0x20 || u == 0x09 || u == 0x0A || u == 0x0B || u == 0x0C || u == 0x0D || u == 0x85
        || u == 0xA0 || u == 0x1680 || (0x2000 <= u && u <= 0x200A) || u == 0x2028 || u == 0x2029
        || u == 0x202F || u == 0x205F || u == 0x3000
}

/// The ten ASCII decimal digits.
pub open spec fn is_digit_char(c: char) -> bool {
    0x30 <= c as u32 && c as u32 <= 0x39
}

pub fn is_space(c: char) -> (r: bool)
    ensures
        r == is_space_char(c),
{
    let u = c as u32;
    u == 0x20 || u == 0x09 || u == 0x0A || u == 0x0B || u == 0x0C || u == 0x0D || u == 0x85
        || u == 0xA0 || u == 0x1680 || (0x2000 <= u && u <= 0x200A) || u == 0x2028 || u == 0x2029
        || u == 0x202F || u == 0x205F || u == 0x3000
}

pub fn is_digit(c: char) -> (r: bool)
    ensures
        r == is_digit_char(c),
{
    let u = c as u32;
    0x30 <= u && u <= 0x39
}

/// The characters of a string, one per element.
pub fn string_to_chars(s: &str) -> (v: Vec<char>)
    ensures
        v@ == s@,
{
    let n = s.unicode_len();
    let mut v: Vec<char> = Vec::new();
    let mut i: usize = 0;
    while i < n
        invariant
            n == s@.len(),
            i <= n,
            v@ == s@.take(i as int),
        decreases n - i,
    {
        let c = s.get_char(i);
        v.push(c);
        proof {
            assert(s@.take(i + 1 as int) =~= s@.take(i as int).push(s@[i as int]));
        }
        i += 1;
    }
    proof {
        assert(v@ =~= s@);
    }
    v
}

/// Relies on `String: FromIterator<char>`: collecting an iterator of
/// characters yields the string of exactly those characters, in order.
#[verifier::external_body]
pub fn chars_to_string(v: &Vec<char>) -> (s: String)
    ensures
        s@ == v@,
{
    v.iter().collect()
}

/// Appends every character of `x` to `out`, in order.
pub fn append_chars(out: &mut Vec<char>, x: &Vec<char>)
    ensures
        final(out)@ == old(out)@ + x@,
{
    let mut j: usize = 0;
    while j < x.len()
        invariant
            j <= x@.len(),
            out@ == old(out)@ + x@.take(j as int),
        decreases x@.len() - j,
    {
        out.push(x[j]);
        proof {
            assert(x@.take(j + 1 as int) =~= x@.take(j as int).push(x@[j as int]));
            assert(old(out)@ + x@.take(j + 1 as int) =~= (old(out)@ + x@.take(j as int)).push(
                x@[j as int],
            ));
        }
        j += 1;
    }
    proof {
        assert(x@.take(x@.len() as int) =~= x@);
    }
}

/// A copy of a character vector.
pub fn copy_chars(v: &Vec<char>) -> (r: Vec<char>)
    ensures
        r@ == v@,
{
    let mut r: Vec<char> = Vec::new();
    append_chars(&mut r, v);
    r
}

/// `s` with every occurrence of `pat` replaced by `rep`, scanning left to
/// right and never rescanning replaced text: exactly what `str::replace`
/// produces. An empty pattern replaces nothing.
pub open spec fn spec_replace_all(s: Seq<char>, pat: Seq<char>, rep: Seq<char>) -> Seq<char>
    decreases s.len(),
{
    if pat.len() == 0 || s.len() < pat.len() {
        s
    } else if s.take(pat.len() as int) == pat {
        rep + spec_replace_all(s.skip(pat.len() as int), pat, rep)
    } else {
        seq![s[0]] + spec_replace_all(s.drop_first(), pat, rep)
    }
}

/// Whether `pat` occurs in `s` starting at index `i`.
fn match_at(s: &Vec<char>, i: usize, pat: &Vec<char>) -> (r: bool)
    requires
        i + pat@.len() <= s@.len(),
    ensures
        r == (s@.subrange(i as int, i + pat@.len()) == pat@),
{
    let n = s.len();
    let mut j: usize = 0;
    while j < pat.len()
        invariant
            n == s@.len(),
            i + pat@.len() <= n,
            j <= pat@.len(),
            forall|k: int| 0 <= k < j ==> s@[i + k] == pat@[k],
        decreases pat@.len() - j,
    {
        if s[i + j] != pat[j] {
            proof {
                assert(s@.subrange(i as int, i + pat@.len())[j as int] != pat@[j as int]);
            }
            return false;
        }
        j += 1;
    }
    proof {
        assert(s@.subrange(i as int, i + pat@.len()) =~= pat@);
    }
    true
}

/// Replaces every occurrence of `pat` in `s` by `rep`.
pub fn replace_all(s: &Vec<char>, pat: &Vec<char>, rep: &Vec<char>) -> (r: Vec<char>)
    ensures
        r@ == spec_replace_all(s@, pat@, rep@),
{
    if pat.len() == 0 {
        return copy_chars(s);
    }
    let mut r: Vec<char> = Vec::new();
    let mut i: usize = 0;
    proof {
        assert(s@.skip(0) =~= s@);
    }
    while i < s.len()
        invariant
            pat@.len() > 0,
            i <= s@.len(),
            spec_replace_all(s@, pat@, rep@) == r@ + spec_replace_all(
                s@.skip(i as int),
                pat@,
                rep@,
            ),
        decreases s@.len() - i,
    {
        let ghost rest = s@.skip(i as int);
        if pat.len() <= s.len() - i && match_at(s, i, pat) {
            proof {
                assert(rest.take(pat@.len() as int) =~= s@.subrange(i as int, i + pat@.len()));
                assert(rest.skip(pat@.len() as int) =~= s@.skip(i + pat@.len()));
                assert(spec_replace_all(rest, pat@, rep@) == rep@ + spec_replace_all(
                    s@.skip(i + pat@.len()),
                    pat@,
                    rep@,
                ));
            }
            append_chars(&mut r, rep);
            proof {
                assert(r@ + spec_replace_all(s@.skip(i + pat@.len()), pat@, rep@)
                    =~= spec_replace_all(s@, pat@, rep@));
            }
            i += pat.len();
        } else {
            proof {
                if rest.len() < pat@.len() {
                    assert(spec_replace_all(rest, pat@, rep@) == rest);
                    assert(s@.skip(i + 1).len() < pat@.len());
                    assert(spec_replace_all(s@.skip(i + 1), pat@, rep@) == s@.skip(i + 1));
                    assert(rest =~= seq![s@[i as int]] + s@.skip(i + 1));
                } else {
                    assert(i + pat@.len() <= s@.len());
                    assert(rest.take(pat@.len() as int) =~= s@.subrange(i as int, i + pat@.len()));
                    assert(rest.take(pat@.len() as int) != pat@);
                    assert(rest.drop_first() =~= s@.skip(i + 1));
                    assert(rest[0] == s@[i as int]);
                }
                assert(spec_replace_all(rest, pat@, rep@) == seq![s@[i as int]]
                    + spec_replace_all(s@.skip(i + 1), pat@, rep@));
            }
            r.push(s[i]);
            proof {
                assert(r@ + spec_replace_all(s@.skip(i + 1), pat@, rep@) =~= spec_replace_all(
                    s@,
                    pat@,
                    rep@,
                ));
            }
            i += 1;
        }
    }
    proof {
        assert(s@.skip(s@.len() as int) =~= Seq::<char>::empty());
        assert(spec_replace_all(Seq::<char>::empty(), pat@, rep@) == Seq::<char>::empty());
        assert(r@ + Seq::<char>::empty() =~= r@);
    }
    r
}

/// The character for one decimal digit value.
pub open spec fn spec_digit_char(d: int) -> char {
    if d == 0 {
        '0'
    } else if d == 1 {
        '1'
    } else if d == 2 {
        '2'
    } else if d == 3 {
        '3'
    } else if d == 4 {
        '4'
    } else if d == 5 {
        '5'
    } else if d == 6 {
        '6'
    } else if d == 7 {
        '7'
    } else if d == 8 {
        '8'
    } else {
        '9'
    }
}

/// The decimal rendering of a non-negative integer, most significant digit
/// first, with no leading zeros (a single `'0'` for zero).
pub open spec fn spec_u64_digits(n: int) -> Seq<char>
    decreases n,
{
    if n < 10 {
        seq![spec_digit_char(n)]
    } else {
        spec_u64_digits(n / 10).push(spec_digit_char(n % 10))
    }
}

fn digit_char(d: u64) -> (c: char)
    requires
        d < 10,
    ensures
        c == spec_digit_char(d as int),
{
    if d == 0 {
        '0'
    } else if d == 1 {
        '1'
    } else if d == 2 {
        '2'
    } else if d == 3 {
        '3'
    } else if d == 4 {
        '4'
    } else if d == 5 {
        '5'
    } else if d == 6 {
        '6'
    } else if d == 7 {
        '7'
    } else if d == 8 {
        '8'
    } else {
        '9'
    }
}

/// Appends the decimal rendering of `n` to `out`.
pub fn push_u64_digits(n: u64, out: &mut Vec<char>)
    ensures
        final(out)@ == old(out)@ + spec_u64_digits(n as int),
    decreases n,
{
    if n < 10 {
        out.push(digit_char(n));
        proof {
            assert(old(out)@ + spec_u64_digits(n as int) =~= old(out)@.push(
                spec_digit_char(n as int),
            ));
        }
    } else {
        push_u64_digits(n / 10, out);
        out.push(digit_char(n % 10));
        proof {
            assert(old(out)@ + spec_u64_digits(n as int) =~= (old(out)@ + spec_u64_digits(
                n as int / 10,
            )).push(spec_digit_char(n as int % 10)));
        }
    }
}

/// The decimal rendering of `n` as a character vector.
pub fn u64_to_chars(n: u64) -> (v: Vec<char>)
    ensures
        v@ == spec_u64_digits(n as int),
{
    let mut v: Vec<char> = Vec::new();
    push_u64_digits(n, &mut v);
    proof {
        assert(Seq::<char>::empty() + spec_u64_digits(n as int) =~= spec_u64_digits(n as int));
    }
    v
}

/// The number of characters before the first newline of `s` (all of `s` if
/// there is none).
pub open spec fn spec_line_break(s: Seq<char>) -> int
    decreases s.len(),
{
    if s.len() == 0 {
        0
    } else if s[0] == '\n' {
        0
    } else {
        1 + spec_line_break(s.drop_first())
    }
}

pub proof fn lemma_line_break(s: Seq<char>)
    ensures
        0 <= spec_line_break(s) <= s.len(),
        spec_line_break(s) < s.len() ==> s[spec_line_break(s)] == '\n',
        forall|k: int| 0 <= k < spec_line_break(s) ==> s[k] != '\n',
    decreases s.len(),
{
    if s.len() == 0 || s[0] == '\n' {
    } else {
        lemma_line_break(s.drop_first());
        assert forall|k: int| 0 <= k < spec_line_break(s) implies s[k] != '\n' by {
            if k > 0 {
                assert(s.drop_first()[k - 1] == s[k]);
            }
        }
    }
}

/// The index of the first newline equals the length of the newline-free
/// prefix in front of it.
pub proof fn lemma_line_break_at(t: Seq<char>, m: int)
    requires
        0 <= m <= t.len(),
        forall|k: int| 0 <= k < m ==> t[k] != '\n',
        m < t.len() ==> t[m] == '\n',
    ensures
        spec_line_break(t) == m,
    decreases t.len(),
{
    if m == 0 {
    } else {
        assert(t[0] != '\n');
        assert forall|k: int| 0 <= k < m - 1 implies t.drop_first()[k] != '\n' by {
            assert(t.drop_first()[k] == t[k + 1]);
        }
        assert(m - 1 < t.drop_first().len() ==> t.drop_first()[m - 1] == '\n');
        lemma_line_break_at(t.drop_first(), m - 1);
    }
}

/// A line with its terminating carriage return removed, if it has one.
pub open spec fn spec_strip_cr(l: Seq<char>) -> Seq<char> {
    if l.len() > 0 && l[l.len() - 1] == '\r' {
        l.drop_last()
    } else {
        l
    }
}

/// The lines of `s`, in order, exactly as `str::lines` yields them: lines
/// are terminated by `'\n'` or by the end of the text; a terminating
/// `"\r\n"` is removed with its line break; a final line without a line
/// break keeps any `'\r'` it ends in; a trailing line break adds no empty
/// final line.
pub open spec fn spec_split_lines(s: Seq<char>) -> Seq<Seq<char>>
    decreases s.len()
    via spec_split_lines_decreases
{
    if s.len() == 0 {
        Seq::empty()
    } else {
        let n = spec_line_break(s);
        if n == s.len() {
            seq![s]
        } else {
            seq![spec_strip_cr(s.take(n))] + spec_split_lines(s.skip(n + 1))
        }
    }
}

#[via_fn]
proof fn spec_split_lines_decreases(s: Seq<char>) {
    lemma_line_break(s);
}

/// Splits `v` into its lines, as `str::lines` would.
pub fn split_lines(v: &Vec<char>) -> (r: Vec<Vec<char>>)
    ensures
        r@.map_values(|l: Vec<char>| l@) == spec_split_lines(v@),
{
    let mut r: Vec<Vec<char>> = Vec::new();
    let mut i: usize = 0;
    proof {
        assert(v@.skip(0) =~= v@);
        assert(r@.map_values(|l: Vec<char>| l@) =~= Seq::<Seq<char>>::empty());
    }
    while i < v.len()
        invariant
            i <= v@.len(),
            spec_split_lines(v@) == r@.map_values(|l: Vec<char>| l@) + spec_split_lines(
                v@.skip(i as int),
            ),
        decreases v@.len() - i,
    {
        let n = v.len();
        let mut j: usize = i;
        while j < n && v[j] != '\n'
            invariant
                n == v@.len(),
                i <= j <= n,
                forall|k: int| i <= k < j ==> v@[k] != '\n',
            decreases n - j,
        {
            j += 1;
        }
        let ghost rest = v@.skip(i as int);
        proof {
            assert forall|k: int| 0 <= k < j - i implies rest[k] != '\n' by {
                assert(rest[k] == v@[i + k]);
            }
            if j < n {
                assert(rest[j - i] == v@[j as int]);
            }
            lemma_line_break_at(rest, j - i);
        }
        let end = if j < n && j > i && v[j - 1] == '\r' {
            j - 1
        } else {
            j
        };
        let mut line: Vec<char> = Vec::new();
        let mut k = i;
        while k < end
            invariant
                i <= k <= end <= v@.len(),
                line@ == v@.subrange(i as int, k as int),
            decreases end - k,
        {
            line.push(v[k]);
            proof {
                assert(v@.subrange(i as int, k + 1 as int) =~= v@.subrange(
                    i as int,
                    k as int,
                ).push(v@[k as int]));
            }
            k += 1;
        }
        proof {
            let full = rest.take(j - i);
            assert(full =~= v@.subrange(i as int, j as int));
            if j < n {
                // a terminated line: the spec strips one trailing '\r'
                if j > i && v@[j - 1] == '\r' {
                    assert(full.len() > 0 && full[full.len() - 1] == '\r');
                    assert(line@ =~= full.drop_last());
                } else {
                    assert(line@ =~= full);
                }
                assert(line@ == spec_strip_cr(full));
            } else {
                // the final, unterminated line is kept whole
                assert(line@ =~= rest);
            }
        }
        let ghost old_r = r@;
        r.push(line);
        proof {
            assert(r@.map_values(|l: Vec<char>| l@) =~= old_r.map_values(|l: Vec<char>| l@).push(
                line@,
            ));
            if j < n {
                assert(rest.skip(j - i + 1) =~= v@.skip(j + 1));
                assert(spec_split_lines(rest) == seq![spec_strip_cr(rest.take(j - i))]
                    + spec_split_lines(v@.skip(j + 1)));
                assert(old_r.map_values(|l: Vec<char>| l@) + spec_split_lines(rest)
                    =~= r@.map_values(|l: Vec<char>| l@) + spec_split_lines(v@.skip(j + 1)));
            } else {
                assert(spec_split_lines(rest) == seq![rest]);
                assert(v@.skip(n as int) =~= Seq::<char>::empty());
                assert(old_r.map_values(|l: Vec<char>| l@) + spec_split_lines(rest)
                    =~= r@.map_values(|l: Vec<char>| l@) + spec_split_lines(v@.skip(n as int)));
            }
        }
        i = if j < n {
            j + 1
        } else {
            j
        };
    }
    proof {
        assert(v@.skip(v@.len() as int) =~= Seq::<char>::empty());
        assert(r@.map_values(|l: Vec<char>| l@) + spec_split_lines(Seq::<char>::empty())
            =~= r@.map_values(|l: Vec<char>| l@));
    }
    r
}

} // verus!
