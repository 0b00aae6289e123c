//! Author colorization and text predicates shared by both relay directions.

use vstd::prelude::*;
use std::collections::hash_map::DefaultHasher;
use std::hash::Hasher;

verus! {

use vstd::std_specs::hash::DefaultHasherAdditionalSpecFns;
use vstd::utf8::encode_utf8;

/// The hash value of a string: the standard hasher run over the string's
/// UTF-8 bytes. A pure function of the characters, so the same string always
/// hashes to the same value within a run.
pub open spec fn spec_hash(s: Seq<char>) -> u64 {
    DefaultHasher::spec_finish(seq![encode_utf8(s)])
}

/// The color slot assigned to an author name: its hash reduced to `[0, 16)`.
pub open spec fn spec_colorize(s: Seq<char>) -> u64 {
    spec_hash(s) % 16
}

/// Deterministic non-cryptographic hash of a string.
pub fn hash(s: &str) -> (r: u64)
    ensures
        r == spec_hash(s@),
{
    let mut h = DefaultHasher::new();
    h.write(s.as_bytes());
    h.finish()
}

/// Maps an author name to one of 16 color slots, stably within a run.
pub fn colorize(s: &str) -> (r: u64)
    ensures
        r == spec_colorize(s@),
        r < 16,
{
    hash(s) % 16
}

/// The color slot is always one of the 16 available ones.
pub proof fn lemma_colorize_range(s: Seq<char>)
    ensures
        spec_colorize(s) < 16,
{
}

/// How many leading characters of `t` form a foreground or background color
/// number: one or two decimal digits.
pub open spec fn spec_fg_len(t: Seq<char>) -> int {
    if t.len() >= 1 && crate::text::is_digit_char(t[0]) {
        if t.len() >= 2 && crate::text::is_digit_char(t[1]) {
            2
        } else {
            1
        }
    } else {
        0
    }
}

/// How many characters of `t` belong to the color numbers that follow a
/// color control character: one or two digits, optionally a comma and one
/// or two more digits. The comma counts only when digits precede and
/// follow it.
pub open spec fn spec_color_suffix_len(t: Seq<char>) -> int {
    let f = spec_fg_len(t);
    if f > 0 && t.len() >= f + 2 && t[f] == ',' && crate::text::is_digit_char(t[f + 1]) {
        f + 1 + spec_fg_len(t.skip(f + 1))
    } else {
        f
    }
}

pub proof fn lemma_color_suffix_len_bounds(t: Seq<char>)
    ensures
        0 <= spec_color_suffix_len(t) <= t.len(),
{
}

/// `s` with the formatting control sequences removed: each bold, underline,
/// plain and reverse toggle disappears, and each color control character
/// disappears together with the color numbers that follow it. No other
/// character is touched.
pub open spec fn spec_remove_formatting(s: Seq<char>) -> Seq<char>
    decreases s.len()
    via spec_remove_formatting_decreases
{
    if s.len() == 0 {
        s
    } else if s[0] == '\u{2}' || s[0] == '\u{1F}' || s[0] == '\u{F}' || s[0] == '\u{16}' {
        spec_remove_formatting(s.drop_first())
    } else if s[0] == '\u{3}' {
        spec_remove_formatting(s.skip(1 + spec_color_suffix_len(s.skip(1))))
    } else {
        seq![s[0]] + spec_remove_formatting(s.drop_first())
    }
}

#[via_fn]
proof fn spec_remove_formatting_decreases(s: Seq<char>) {
    if s.len() > 0 {
        lemma_color_suffix_len_bounds(s.skip(1));
    }
}

/// Strips chat formatting control sequences from `s`.
pub fn remove_formatting(s: &str) -> (r: String)
    ensures
        r@ == spec_remove_formatting(s@),
{
    let v = crate::text::string_to_chars(s);
    let n = v.len();
    let mut out: Vec<char> = Vec::new();
    let mut i: usize = 0;
    proof {
        assert(v@.skip(0) =~= v@);
    }
    while i < n
        invariant
            n == v@.len(),
            v@ == s@,
            i <= n,
            spec_remove_formatting(v@) == out@ + spec_remove_formatting(v@.skip(i as int)),
        decreases n - i,
    {
        let c = v[i];
        let ghost rest = v@.skip(i as int);
        proof {
            assert(rest[0] == v@[i as int]);
            assert(rest.drop_first() =~= v@.skip(i + 1));
        }
        if c == '\u{2}' || c == '\u{1F}' || c == '\u{F}' || c == '\u{16}' {
            i += 1;
        } else if c == '\u{3}' {
            let ghost t = v@.skip(i + 1);
            let mut f: usize = 0;
            if i + 1 < n && crate::text::is_digit(v[i + 1]) {
                f = 1;
                if i + 2 < n && crate::text::is_digit(v[i + 2]) {
                    f = 2;
                }
            }
            proof {
                assert(t.len() == n - i - 1);
                assert(t.len() >= 1 ==> t[0] == v@[i + 1]);
                assert(t.len() >= 2 ==> t[1] == v@[i + 2]);
                assert(f as int == spec_fg_len(t));
            }
            let mut suf: usize = f;
            if f > 0 && n - i - 1 >= f + 2 && v[i + 1 + f] == ',' && crate::text::is_digit(
                v[i + 2 + f],
            ) {
                let mut bg: usize = 1;
                if n - i - 1 >= f + 3 && crate::text::is_digit(v[i + 3 + f]) {
                    bg = 2;
                }
                proof {
                    let u = t.skip(f + 1);
                    assert(t[f as int] == v@[i + 1 + f]);
                    assert(t[f + 1] == v@[i + 2 + f]);
                    assert(u.len() == t.len() - f - 1);
                    assert(u.len() >= 1 ==> u[0] == v@[i + 2 + f]);
                    assert(u.len() >= 2 ==> u[1] == v@[i + 3 + f]);
                    assert(bg as int == spec_fg_len(u));
                }
                suf = f + 1 + bg;
            }
            proof {
                assert(rest.skip(1) =~= t);
                assert(suf as int == spec_color_suffix_len(t));
                lemma_color_suffix_len_bounds(t);
                assert(rest.skip(1 + suf as int) =~= v@.skip(i + 1 + suf as int));
                assert(spec_remove_formatting(rest) == spec_remove_formatting(
                    v@.skip(i + 1 + suf as int),
                ));
            }
            i = i + 1 + suf;
        } else {
            out.push(c);
            proof {
                assert(spec_remove_formatting(rest) == seq![v@[i as int]]
                    + spec_remove_formatting(v@.skip(i + 1)));
                assert(out@ + spec_remove_formatting(v@.skip(i + 1)) =~= spec_remove_formatting(
                    v@,
                ));
            }
            i += 1;
        }
    }
    proof {
        assert(v@.skip(n as int) =~= Seq::<char>::empty());
        assert(out@ + spec_remove_formatting(Seq::<char>::empty()) =~= out@);
    }
    crate::text::chars_to_string(&out)
}

/// A whitespace-delimited token occupies `[i, j)` of `s`: the characters
/// inside are not whitespace, and the token is bordered by whitespace or by
/// an end of the text.
pub open spec fn spec_is_token_at(s: Seq<char>, i: int, j: int) -> bool {
    &&& 0 <= i < j <= s.len()
    &&& (forall|k: int| i <= k < j ==> !crate::text::is_space_char(s[k]))
    &&& (i == 0 || crate::text::is_space_char(s[i - 1]))
    &&& (j == s.len() || crate::text::is_space_char(s[j]))
}

/// Some whitespace-delimited token of `s` equals one of `words` exactly.
pub open spec fn spec_has_bad_word(s: Seq<char>, words: Seq<Seq<char>>) -> bool {
    exists|i: int, j: int, w: int|
        spec_is_token_at(s, i, j) && 0 <= w < words.len() && words[w] == s.subrange(i, j)
}

/// Whether `v[i..j]` equals the characters of `w`.
fn token_eq_str(v: &Vec<char>, i: usize, j: usize, w: &String) -> (r: bool)
    requires
        i <= j <= v@.len(),
    ensures
        r == (v@.subrange(i as int, j as int) == w@),
{
    let wc = crate::text::string_to_chars(w.as_str());
    if wc.len() != j - i {
        proof {
            assert(v@.subrange(i as int, j as int).len() == j - i);
        }
        return false;
    }
    let mut k: usize = 0;
    while k < wc.len()
        invariant
            i <= j <= v@.len(),
            wc@ == w@,
            wc@.len() == j - i,
            k <= wc@.len(),
            forall|m: int| 0 <= m < k ==> v@[i + m] == wc@[m],
        decreases wc@.len() - k,
    {
        if v[i + k] != wc[k] {
            proof {
                assert(v@.subrange(i as int, j as int)[k as int] != w@[k as int]);
            }
            return false;
        }
        k += 1;
    }
    proof {
        assert(v@.subrange(i as int, j as int) =~= w@);
    }
    true
}

/// Whether some whitespace-delimited token of `content` is exactly one of
/// the banned words.
pub fn contains_bad_words(content: &str, badwords: &[String]) -> (r: bool)
    ensures
        r == spec_has_bad_word(content@, badwords@.map_values(|w: String| w@)),
{
    let ghost words = badwords@.map_values(|w: String| w@);
    let v = crate::text::string_to_chars(content);
    let n = v.len();
    let mut i: usize = 0;
    while i < n
        invariant
            n == v@.len(),
            v@ == content@,
            words == badwords@.map_values(|w: String| w@),
            i <= n,
            i == n || i == 0 || crate::text::is_space_char(v@[i - 1])
                || crate::text::is_space_char(v@[i as int]),
            forall|a: int, b: int, w: int|
                spec_is_token_at(v@, a, b) && b <= i && 0 <= w < words.len() ==> words[w]
                    != v@.subrange(a, b),
        decreases n - i,
    {
        if crate::text::is_space(v[i]) {
            proof {
                assert forall|a: int, b: int, w: int|
                    spec_is_token_at(v@, a, b) && b <= i + 1 && 0 <= w
                        < words.len() implies words[w] != v@.subrange(a, b) by {
                    if b == i + 1 {
                        assert(!crate::text::is_space_char(v@[i as int]));
                    }
                }
            }
            i += 1;
        } else {
            let mut j: usize = i;
            while j < n && !crate::text::is_space(v[j])
                invariant
                    n == v@.len(),
                    i <= j <= n,
                    forall|k: int| i <= k < j ==> !crate::text::is_space_char(v@[k]),
                decreases n - j,
            {
                j += 1;
            }
            proof {
                assert(spec_is_token_at(v@, i as int, j as int));
            }
            let mut w: usize = 0;
            while w < badwords.len()
                invariant
                    i < j <= v@.len(),
                    v@ == content@,
                    spec_is_token_at(v@, i as int, j as int),
                    words == badwords@.map_values(|x: String| x@),
                    w <= badwords@.len(),
                    forall|m: int| 0 <= m < w ==> words[m] != v@.subrange(i as int, j as int),
                decreases badwords@.len() - w,
            {
                if token_eq_str(&v, i, j, &badwords[w]) {
                    proof {
                        assert(words.len() == badwords@.len());
                        assert(words[w as int] == badwords@[w as int]@);
                        assert(spec_is_token_at(v@, i as int, j as int) && 0 <= w < words.len()
                            && words[w as int] == v@.subrange(i as int, j as int));
                    }
                    return true;
                }
                w += 1;
            }
            proof {
                assert forall|a: int, b: int, ww: int|
                    spec_is_token_at(v@, a, b) && b <= j && 0 <= ww
                        < words.len() implies words[ww] != v@.subrange(a, b) by {
                    if b > i {
                        // the only token ending inside (i, j] is [i, j) itself
                        assert(b == j) by {
                            if b < j {
                                assert(!crate::text::is_space_char(v@[b]));
                            }
                        }
                        assert(a == i) by {
                            if a < i {
                                assert(!crate::text::is_space_char(v@[i - 1]));
                            }
                            if a > i {
                                assert(!crate::text::is_space_char(v@[a - 1]));
                            }
                        }
                    }
                }
            }
            i = j;
        }
    }
    proof {
        assert(!spec_has_bad_word(content@, words)) by {
            if spec_has_bad_word(v@, words) {
                let (a, b, w) = choose|a: int, b: int, w: int|
                    spec_is_token_at(v@, a, b) && 0 <= w < words.len() && words[w] == v@.subrange(
                        a,
                        b,
                    );
                assert(b <= n);
            }
        }
    }
    false
}

} // verus!
