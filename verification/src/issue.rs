//! Issue-reference enrichment: scanning message text for `#<number>`
//! references, building the lookup URL for each, and turning lookup results
//! into the enrichment lines that are relayed. The lookup itself is plain
//! HTTP and happens outside this crate; everything around it is verified.

use vstd::prelude::*;

verus! {

use crate::text::{is_digit_char, is_space_char};
use vstd::string::{StrSliceExecFns, StringExecFns};

/// The fields of an issue that the relay uses: where it lives and what it
/// is called.
#[derive(Clone, Debug, Default, PartialEq)]
pub struct GithubIssueMinimal {
    pub html_url: String,
    pub title: String,
}

/// The end of the run of decimal digits that starts at `p`: the first index
/// at or after `p` holding a non-digit, or the end of the text.
pub open spec fn spec_digit_run_end(s: Seq<char>, p: int) -> int
    decreases s.len() - p,
{
    if p < 0 || p >= s.len() {
        p
    } else if is_digit_char(s[p]) {
        spec_digit_run_end(s, p + 1)
    } else {
        p
    }
}

pub proof fn lemma_digit_run_end(s: Seq<char>, p: int)
    requires
        0 <= p <= s.len(),
    ensures
        p <= spec_digit_run_end(s, p) <= s.len(),
        forall|k: int| p <= k < spec_digit_run_end(s, p) ==> is_digit_char(s[k]),
        spec_digit_run_end(s, p) < s.len() ==> !is_digit_char(s[spec_digit_run_end(s, p)]),
    decreases s.len() - p,
{
    if p < s.len() && is_digit_char(s[p]) {
        lemma_digit_run_end(s, p + 1);
    }
}

/// A run of digits over exactly `[p, q)` ends at `q`.
pub proof fn lemma_digit_run_end_at(s: Seq<char>, p: int, q: int)
    requires
        0 <= p <= q <= s.len(),
        forall|k: int| p <= k < q ==> is_digit_char(s[k]),
        q < s.len() ==> !is_digit_char(s[q]),
    ensures
        spec_digit_run_end(s, p) == q,
    decreases q - p,
{
    if p < q {
        lemma_digit_run_end_at(s, p + 1, q);
    }
}

/// The issue references of `s` from position `p` on: every `#` that stands
/// at the start of the text or right after whitespace and is followed by at
/// least one digit contributes its full digit run, in order of appearance,
/// duplicates kept.
pub open spec fn spec_refs_from(s: Seq<char>, p: int) -> Seq<Seq<char>>
    decreases s.len() - p
    via spec_refs_from_decreases
{
    if p < 0 || p >= s.len() {
        Seq::empty()
    } else if s[p] == '#' && (p == 0 || is_space_char(s[p - 1])) && p + 1 < s.len()
        && is_digit_char(s[p + 1]) {
        let q = spec_digit_run_end(s, p + 1);
        seq![s.subrange(p + 1, q)] + spec_refs_from(s, q)
    } else {
        spec_refs_from(s, p + 1)
    }
}

#[via_fn]
proof fn spec_refs_from_decreases(s: Seq<char>, p: int) {
    if 0 <= p < s.len() {
        lemma_digit_run_end(s, p + 1);
    }
}

/// All issue references of `s`, in order of appearance.
pub open spec fn spec_references(s: Seq<char>) -> Seq<Seq<char>> {
    spec_refs_from(s, 0)
}

/// Extracts every issue reference of `msg`: the digit run of each `#` that
/// begins the text or follows whitespace, left to right, not deduplicated.
pub fn extract_references(msg: &str) -> (r: Vec<String>)
    ensures
        r@.map_values(|x: String| x@) == spec_references(msg@),
{
    let v = crate::text::string_to_chars(msg);
    let n = v.len();
    let mut r: Vec<String> = Vec::new();
    let mut i: usize = 0;
    proof {
        assert(r@.map_values(|x: String| x@) =~= Seq::<Seq<char>>::empty());
    }
    while i < n
        invariant
            n == v@.len(),
            v@ == msg@,
            i <= n,
            spec_references(msg@) == r@.map_values(|x: String| x@) + spec_refs_from(v@, i as int),
        decreases n - i,
    {
        let hit = v[i] == '#' && (i == 0 || crate::text::is_space(v[i - 1])) && i + 1 < n
            && crate::text::is_digit(v[i + 1]);
        if hit {
            let mut j = i + 1;
            while j < n && crate::text::is_digit(v[j])
                invariant
                    n == v@.len(),
                    i + 1 <= j <= n,
                    forall|k: int| i + 1 <= k < j ==> is_digit_char(v@[k]),
                decreases n - j,
            {
                j += 1;
            }
            proof {
                lemma_digit_run_end_at(v@, i + 1, j as int);
            }
            let mut digits: Vec<char> = Vec::new();
            let mut k = i + 1;
            while k < j
                invariant
                    i + 1 <= k <= j <= v@.len(),
                    digits@ == v@.subrange(i + 1, k as int),
                decreases j - k,
            {
                digits.push(v[k]);
                proof {
                    assert(v@.subrange(i + 1, k + 1 as int) =~= v@.subrange(i + 1, k as int).push(
                        v@[k as int],
                    ));
                }
                k += 1;
            }
            let text = crate::text::chars_to_string(&digits);
            let ghost old_r = r@;
            r.push(text);
            proof {
                assert(r@.map_values(|x: String| x@) =~= old_r.map_values(|x: String| x@).push(
                    text@,
                ));
                assert(spec_refs_from(v@, i as int) == seq![v@.subrange(i + 1, j as int)]
                    + spec_refs_from(v@, j as int));
                assert(old_r.map_values(|x: String| x@) + spec_refs_from(v@, i as int)
                    =~= r@.map_values(|x: String| x@) + spec_refs_from(v@, j as int));
            }
            i = j;
        } else {
            proof {
                assert(spec_refs_from(v@, i as int) == spec_refs_from(v@, i + 1));
            }
            i += 1;
        }
    }
    proof {
        assert(spec_refs_from(v@, n as int) == Seq::<Seq<char>>::empty());
        assert(r@.map_values(|x: String| x@) + Seq::<Seq<char>>::empty() =~= r@.map_values(
            |x: String| x@,
        ));
    }
    r
}

/// The numeric value of one decimal digit character.
pub open spec fn spec_digit_val(c: char) -> int {
    c as u32 - 0x30
}

/// The numeric value of a digit string, most significant digit first.
pub open spec fn spec_digits_value(s: Seq<char>) -> int
    decreases s.len(),
{
    if s.len() == 0 {
        0
    } else {
        spec_digits_value(s.drop_last()) * 10 + spec_digit_val(s.last())
    }
}

/// A non-empty string of decimal digits.
pub open spec fn spec_all_digits(s: Seq<char>) -> bool {
    s.len() > 0 && forall|k: int| 0 <= k < s.len() ==> is_digit_char(s[k])
}

pub proof fn lemma_digits_value_bounds(s: Seq<char>)
    requires
        forall|k: int| 0 <= k < s.len() ==> is_digit_char(s[k]),
    ensures
        spec_digits_value(s) >= 0,
    decreases s.len(),
{
    if s.len() > 0 {
        lemma_digits_value_bounds(s.drop_last());
    }
}

/// Appending digits never lowers the value.
pub proof fn lemma_digits_value_monotone(s: Seq<char>, m: int)
    requires
        0 <= m <= s.len(),
        forall|k: int| 0 <= k < s.len() ==> is_digit_char(s[k]),
    ensures
        spec_digits_value(s) >= spec_digits_value(s.take(m)),
    decreases s.len() - m,
{
    if m == s.len() {
        assert(s.take(m) =~= s);
    } else {
        lemma_digits_value_monotone(s, m + 1);
        assert(forall|k: int| 0 <= k < s.take(m).len() ==> is_digit_char(#[trigger] s.take(m)[k]));
        lemma_digits_value_bounds(s.take(m));
        assert(s.take(m + 1).drop_last() =~= s.take(m));
        assert(is_digit_char(s.take(m + 1).last()));
    }
}

/// Parses a reference's digit string into its numeric id. Returns `Some`
/// exactly when the string is one or more decimal digits whose value fits
/// in a `u64`.
pub fn parse_issue_id(s: &str) -> (r: Option<u64>)
    ensures
        match r {
            Some(n) => spec_all_digits(s@) && n as int == spec_digits_value(s@),
            None => !spec_all_digits(s@) || spec_digits_value(s@) > u64::MAX,
        },
{
    let v = crate::text::string_to_chars(s);
    let n = v.len();
    if n == 0 {
        return None;
    }
    let mut acc: u64 = 0;
    let mut i: usize = 0;
    proof {
        assert(v@.take(0) =~= Seq::<char>::empty());
    }
    while i < n
        invariant
            n == v@.len(),
            v@ == s@,
            i <= n,
            forall|k: int| 0 <= k < i ==> is_digit_char(v@[k]),
            acc as int == spec_digits_value(v@.take(i as int)),
        decreases n - i,
    {
        let c = v[i];
        if !crate::text::is_digit(c) {
            return None;
        }
        let d: u64 = (c as u32 as u64) - 0x30;
        proof {
            assert(d as int == spec_digit_val(v@[i as int]));
            assert(v@.take(i + 1 as int).drop_last() =~= v@.take(i as int));
            assert(v@.take(i + 1 as int).last() == v@[i as int]);
        }
        let shifted = match acc.checked_mul(10) {
            Some(x) => x,
            None => {
                proof {
                    if spec_all_digits(v@) {
                        lemma_digits_value_monotone(v@, i + 1);
                        assert(spec_digits_value(v@.take(i + 1 as int)) > u64::MAX);
                        assert(v@.take(n as int) =~= v@);
                    }
                }
                return None;
            },
        };
        let next = match shifted.checked_add(d) {
            Some(x) => x,
            None => {
                proof {
                    if spec_all_digits(v@) {
                        lemma_digits_value_monotone(v@, i + 1);
                        assert(spec_digits_value(v@.take(i + 1 as int)) > u64::MAX);
                        assert(v@.take(n as int) =~= v@);
                    }
                }
                return None;
            },
        };
        acc = next;
        i += 1;
    }
    proof {
        assert(v@.take(n as int) =~= v@);
    }
    Some(acc)
}

/// The lookup URL for one issue reference in a repository.
pub fn issue_url(repo: &str, id: &str) -> (r: String)
    ensures
        r@ == "https://api.github.com/repos/"@ + repo@ + "/issues/"@ + id@,
{
    let mut u = String::from_str("https://api.github.com/repos/");
    u.append(repo);
    u.append("/issues/");
    u.append(id);
    u
}

/// The enrichment line for one resolved issue: its title, then its link.
pub open spec fn spec_issue_line(title: Seq<char>, url: Seq<char>) -> Seq<char> {
    title + " | "@ + url
}

/// Formats one resolved issue as the line that is sent to both sides.
pub fn issue_line(issue: &GithubIssueMinimal) -> (r: String)
    ensures
        r@ == spec_issue_line(issue.title@, issue.html_url@),
{
    let mut r = String::from_str(issue.title.as_str());
    r.append(" | ");
    r.append(issue.html_url.as_str());
    r
}

/// The enrichment lines of a run of lookups: one line per successful
/// lookup, in lookup order; a failed lookup contributes nothing.
pub open spec fn spec_enrichment_lines(rs: Seq<Option<GithubIssueMinimal>>) -> Seq<Seq<char>>
    decreases rs.len(),
{
    if rs.len() == 0 {
        Seq::empty()
    } else {
        let rest = spec_enrichment_lines(rs.drop_last());
        match rs.last() {
            Some(iss) => rest.push(spec_issue_line(iss.title@, iss.html_url@)),
            None => rest,
        }
    }
}

/// Turns a run of lookup results into the lines to send, skipping failures.
pub fn enrichment_lines(results: &Vec<Option<GithubIssueMinimal>>) -> (r: Vec<String>)
    ensures
        r@.map_values(|x: String| x@) == spec_enrichment_lines(results@),
{
    let mut r: Vec<String> = Vec::new();
    let mut i: usize = 0;
    proof {
        assert(results@.take(0) =~= Seq::<Option<GithubIssueMinimal>>::empty());
        assert(r@.map_values(|x: String| x@) =~= Seq::<Seq<char>>::empty());
    }
    while i < results.len()
        invariant
            i <= results@.len(),
            r@.map_values(|x: String| x@) == spec_enrichment_lines(results@.take(i as int)),
        decreases results@.len() - i,
    {
        proof {
            assert(results@.take(i + 1 as int).drop_last() =~= results@.take(i as int));
            assert(results@.take(i + 1 as int).last() == results@[i as int]);
        }
        if let Some(iss) = &results[i] {
            let line = issue_line(iss);
            let ghost old_r = r@;
            r.push(line);
            proof {
                assert(r@.map_values(|x: String| x@) =~= old_r.map_values(|x: String| x@).push(
                    line@,
                ));
            }
        }
        i += 1;
    }
    proof {
        assert(results@.take(results@.len() as int) =~= results@);
    }
    r
}

/// A failed lookup produces no enrichment line, and the lines of the other
/// lookups are unaffected: the enrichment lines are exactly the lines of
/// the successful lookups, in order.
pub proof fn lemma_enrichment_skips_failures(rs: Seq<Option<GithubIssueMinimal>>)
    ensures
        spec_enrichment_lines(rs) == rs.filter(|x: Option<GithubIssueMinimal>| x is Some)
            .map_values(|x: Option<GithubIssueMinimal>| spec_issue_line(x->0.title@, x->0.html_url@)),
    decreases rs.len(),
{
    reveal(Seq::filter);
    let pred = |x: Option<GithubIssueMinimal>| x is Some;
    let f = |x: Option<GithubIssueMinimal>| spec_issue_line(x->0.title@, x->0.html_url@);
    if rs.len() == 0 {
        assert(spec_enrichment_lines(rs) =~= rs.filter(pred).map_values(f));
    } else {
        lemma_enrichment_skips_failures(rs.drop_last());
        if pred(rs.last()) {
            assert(rs.filter(pred) == rs.drop_last().filter(pred).push(rs.last()));
            assert(rs.filter(pred).map_values(f) =~= rs.drop_last().filter(pred).map_values(
                f,
            ).push(f(rs.last())));
        } else {
            assert(rs.filter(pred) == rs.drop_last().filter(pred));
        }
    }
}

} // verus!
