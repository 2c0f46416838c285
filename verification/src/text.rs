//! Text substitution: find-and-replace of a literal pattern, the operation
//! the page renderer is built on.

use vstd::prelude::*;
use vstd::string::*;

verus! {

/// `pat` occurs in `s` starting at index `i`.
pub open spec fn occurs_at(s: Seq<char>, pat: Seq<char>, i: int) -> bool {
    0 <= i && i + pat.len() <= s.len() && s.subrange(i, i + pat.len() as int) == pat
}

/// `pat` occurs somewhere in `s`.
pub open spec fn occurs(s: Seq<char>, pat: Seq<char>) -> bool {
    exists|i: int| occurs_at(s, pat, i)
}

/// Every occurrence of `pat` in `s` replaced by `rep`, scanning left to right
/// over non-overlapping matches; an empty pattern leaves `s` unchanged.
pub open spec fn spec_replace(s: Seq<char>, pat: Seq<char>, rep: Seq<char>) -> Seq<char>
    decreases s.len(),
{
    if pat.len() == 0 || s.len() < pat.len() {
        s
    } else if s.subrange(0, pat.len() as int) == pat {
        rep + spec_replace(s.skip(pat.len() as int), pat, rep)
    } else {
        seq![s[0]] + spec_replace(s.skip(1), pat, rep)
    }
}

/// Occurrences in a suffix of `s` are occurrences of `s`, shifted.
pub proof fn lemma_occurs_at_skip(s: Seq<char>, pat: Seq<char>, d: int, i: int)
    requires
        0 <= d <= s.len(),
        0 <= i,
    ensures
        occurs_at(s, pat, d + i) <==> occurs_at(s.skip(d), pat, i),
{
    if i + pat.len() <= s.skip(d).len() {
        assert(s.skip(d).subrange(i, i + pat.len() as int) =~= s.subrange(
            d + i,
            d + i + pat.len() as int,
        ));
    }
}

/// While no match has started, replacement leaves the scanned prefix as it is.
proof fn lemma_no_match_prefix(s: Seq<char>, pat: Seq<char>, rep: Seq<char>, j: int)
    requires
        pat.len() >= 1,
        0 <= j <= s.len(),
        forall|k: int| 0 <= k < j ==> !occurs_at(s, pat, k),
    ensures
        spec_replace(s, pat, rep) == s.take(j) + spec_replace(s.skip(j), pat, rep),
    decreases j,
{
    if j == 0 {
        assert(s.skip(0) =~= s);
        assert(s.take(0) + spec_replace(s, pat, rep) =~= spec_replace(s, pat, rep));
    } else if s.len() < pat.len() {
        assert(s.skip(j).len() < pat.len());
        assert(spec_replace(s.skip(j), pat, rep) == s.skip(j));
        assert(s.take(j) + s.skip(j) =~= s);
    } else {
        assert(!occurs_at(s, pat, 0));
        assert(s.subrange(0, pat.len() as int) != pat);
        assert(spec_replace(s, pat, rep) == seq![s[0]] + spec_replace(s.skip(1), pat, rep));
        assert forall|k: int| 0 <= k < j - 1 implies !occurs_at(s.skip(1), pat, k) by {
            lemma_occurs_at_skip(s, pat, 1, k);
        }
        lemma_no_match_prefix(s.skip(1), pat, rep, j - 1);
        assert(s.skip(1).skip(j - 1) =~= s.skip(j));
        assert(seq![s[0]] + s.skip(1).take(j - 1) =~= s.take(j));
        assert(seq![s[0]] + (s.skip(1).take(j - 1) + spec_replace(s.skip(j), pat, rep)) =~= s.take(
            j,
        ) + spec_replace(s.skip(j), pat, rep));
    }
}

/// A text without any occurrence of the pattern is left unchanged.
pub proof fn lemma_no_match_identity(s: Seq<char>, pat: Seq<char>, rep: Seq<char>)
    requires
        pat.len() >= 1,
        forall|k: int| !occurs_at(s, pat, k),
    ensures
        spec_replace(s, pat, rep) == s,
{
    lemma_no_match_prefix(s, pat, rep, s.len() as int);
    assert(s.skip(s.len() as int).len() == 0);
    assert(spec_replace(s.skip(s.len() as int), pat, rep) == s.skip(s.len() as int));
    assert(s.take(s.len() as int) + s.skip(s.len() as int) =~= s);
}

/// A match at the head is replaced by `rep`, and scanning resumes after it.
proof fn lemma_match_head(s: Seq<char>, pat: Seq<char>, rep: Seq<char>)
    requires
        pat.len() >= 1,
        occurs_at(s, pat, 0),
    ensures
        spec_replace(s, pat, rep) == rep + spec_replace(s.skip(pat.len() as int), pat, rep),
{
    assert(s.subrange(0, pat.len() as int) == pat);
}

/// Wherever the pattern occurred, the replacement text stands in the result:
/// a substituted value always reaches the output.
pub proof fn lemma_replace_inserts(s: Seq<char>, pat: Seq<char>, rep: Seq<char>)
    requires
        pat.len() >= 1,
        occurs(s, pat),
    ensures
        occurs(spec_replace(s, pat, rep), rep),
    decreases s.len(),
{
    let r = spec_replace(s, pat, rep);
    if s.len() < pat.len() {
        let i = choose|i: int| occurs_at(s, pat, i);
        assert(false);
    } else if s.subrange(0, pat.len() as int) == pat {
        let rest = spec_replace(s.skip(pat.len() as int), pat, rep);
        assert((rep + rest).subrange(0, rep.len() as int) =~= rep);
        assert(occurs_at(r, rep, 0));
    } else {
        let i = choose|i: int| occurs_at(s, pat, i);
        assert(!occurs_at(s, pat, 0));
        assert(i >= 1);
        lemma_occurs_at_skip(s, pat, 1, i - 1);
        assert(occurs(s.skip(1), pat));
        lemma_replace_inserts(s.skip(1), pat, rep);
        let rest = spec_replace(s.skip(1), pat, rep);
        let j = choose|j: int| occurs_at(rest, rep, j);
        assert((seq![s[0]] + rest).subrange(1 + j, 1 + j + rep.len() as int) =~= rest.subrange(
            j,
            j + rep.len() as int,
        ));
        assert(occurs_at(seq![s[0]] + rest, rep, 1 + j));
    }
}

/// A value already standing in the text survives a later substitution whose
/// matches do not overlap it: it still occurs in the result.
pub proof fn lemma_replace_preserves(
    s: Seq<char>,
    pat: Seq<char>,
    rep: Seq<char>,
    x: Seq<char>,
    k: int,
)
    requires
        pat.len() >= 1,
        occurs_at(s, x, k),
        forall|p: int| occurs_at(s, pat, p) ==> p + pat.len() <= k || k + x.len() <= p,
    ensures
        occurs(spec_replace(s, pat, rep), x),
    decreases s.len(),
{
    let m = pat.len() as int;
    let r = spec_replace(s, pat, rep);
    if x.len() == 0 {
        assert(r.subrange(0, 0) =~= x);
        assert(occurs_at(r, x, 0));
    } else if s.len() < pat.len() {
        assert(occurs_at(r, x, k));
    } else if s.subrange(0, m) == pat {
        assert(occurs_at(s, pat, 0));
        assert(m <= k);
        lemma_occurs_at_skip(s, x, m, k - m);
        assert forall|p: int| occurs_at(s.skip(m), pat, p) implies p + pat.len() <= k - m || (k - m)
            + x.len() <= p by {
            lemma_occurs_at_skip(s, pat, m, p);
        }
        lemma_replace_preserves(s.skip(m), pat, rep, x, k - m);
        let rest = spec_replace(s.skip(m), pat, rep);
        let j = choose|j: int| occurs_at(rest, x, j);
        assert((rep + rest).subrange(rep.len() + j, rep.len() + j + x.len() as int) =~= rest
            .subrange(j, j + x.len() as int));
        assert(occurs_at(rep + rest, x, rep.len() + j));
    } else if k == 0 {
        assert forall|q: int| 0 <= q < x.len() implies !occurs_at(s, pat, q) by {}
        lemma_no_match_prefix(s, pat, rep, x.len() as int);
        assert(s.take(x.len() as int) =~= x);
        assert(r.subrange(0, x.len() as int) =~= s.take(x.len() as int));
        assert(occurs_at(r, x, 0));
    } else {
        lemma_occurs_at_skip(s, x, 1, k - 1);
        assert forall|p: int| occurs_at(s.skip(1), pat, p) implies p + pat.len() <= k - 1 || (k - 1)
            + x.len() <= p by {
            lemma_occurs_at_skip(s, pat, 1, p);
        }
        lemma_replace_preserves(s.skip(1), pat, rep, x, k - 1);
        let rest = spec_replace(s.skip(1), pat, rep);
        let j = choose|j: int| occurs_at(rest, x, j);
        assert((seq![s[0]] + rest).subrange(1 + j, 1 + j + x.len() as int) =~= rest.subrange(
            j,
            j + x.len() as int,
        ));
        assert(occurs_at(seq![s[0]] + rest, x, 1 + j));
    }
}

/// The characters of `s`, in order, as a vector.
pub fn to_chars(s: &str) -> (r: Vec<char>)
    ensures
        r@ == s@,
{
    let n = s.unicode_len();
    let mut r: Vec<char> = Vec::new();
    let mut i: usize = 0;
    while i < n
        invariant
            n == s@.len(),
            i <= n,
            r@ == s@.take(i as int),
        decreases n - i,
    {
        let c = s.get_char(i);
        r.push(c);
        i = i + 1;
        proof {
            assert(r@ =~= s@.take(i as int));
        }
    }
    proof {
        assert(s@.take(n as int) =~= s@);
    }
    r
}

/// Whether `pat` matches `text` at position `i`.
fn match_at(text: &Vec<char>, pat: &Vec<char>, i: usize) -> (r: bool)
    requires
        i + pat@.len() <= text@.len(),
    ensures
        r == occurs_at(text@, pat@, i as int),
{
    let m = pat.len();
    let tlen = text.len();
    let mut k: usize = 0;
    while k < m
        invariant
            i + m <= text@.len(),
            text@.len() == tlen,
            m == pat@.len(),
            k <= m,
            forall|t: int| 0 <= t < k ==> text@[i + t] == pat@[t],
        decreases m - k,
    {
        if text[i + k] != pat[k] {
            proof {
                if occurs_at(text@, pat@, i as int) {
                    assert(text@.subrange(i as int, i + m as int)[k as int] == text@[i + k]);
                }
            }
            return false;
        }
        k = k + 1;
    }
    proof {
        assert(text@.subrange(i as int, i + m as int) =~= pat@);
    }
    true
}

/// Every occurrence of `pat` in `text` replaced by `rep`, leftmost first,
/// non-overlapping: the behaviour of `str::replace`.
pub fn replace_all(text: &str, pat: &str, rep: &str) -> (r: String)
    ensures
        r@ == spec_replace(text@, pat@, rep@),
{
    let tv = to_chars(text);
    let pv = to_chars(pat);
    let n = tv.len();
    let m = pv.len();
    if m == 0 || n < m {
        return text.to_owned();
    }
    let mut out = String::new();
    let mut i: usize = 0;
    let mut j: usize = 0;
    proof {
        assert(text@.skip(0) =~= text@);
        assert(out@ + spec_replace(text@, pat@, rep@) =~= spec_replace(text@, pat@, rep@));
    }
    while j <= n - m
        invariant
            tv@ == text@,
            pv@ == pat@,
            n == text@.len(),
            m == pat@.len(),
            1 <= m <= n,
            i <= j <= n,
            out@ + spec_replace(text@.skip(i as int), pat@, rep@) == spec_replace(
                text@,
                pat@,
                rep@,
            ),
            forall|k: int| i <= k < j ==> !occurs_at(text@, pat@, k),
        decreases n - j,
    {
        if match_at(&tv, &pv, j) {
            let ghost out0 = out@;
            let seg = text.substring_char(i, j);
            out.append(seg);
            out.append(rep);
            proof {
                assert forall|k: int| 0 <= k < j - i implies !occurs_at(
                    text@.skip(i as int),
                    pat@,
                    k,
                ) by {
                    lemma_occurs_at_skip(text@, pat@, i as int, k);
                }
                lemma_no_match_prefix(text@.skip(i as int), pat@, rep@, j - i);
                assert(text@.skip(i as int).take(j - i) =~= text@.subrange(i as int, j as int));
                assert(text@.skip(i as int).skip(j - i) =~= text@.skip(j as int));
                lemma_occurs_at_skip(text@, pat@, j as int, 0);
                assert(occurs_at(text@.skip(j as int), pat@, 0));
                lemma_match_head(text@.skip(j as int), pat@, rep@);
                assert(text@.skip(j as int).skip(m as int) =~= text@.skip((j + m) as int));
                assert(spec_replace(text@.skip(i as int), pat@, rep@) == text@.subrange(
                    i as int,
                    j as int,
                ) + (rep@ + spec_replace(text@.skip((j + m) as int), pat@, rep@)));
                assert(out@ + spec_replace(text@.skip((j + m) as int), pat@, rep@) =~= out0
                    + spec_replace(text@.skip(i as int), pat@, rep@));
            }
            i = j + m;
            j = i;
        } else {
            j = j + 1;
        }
    }
    let tail = text.substring_char(i, n);
    out.append(tail);
    proof {
        assert forall|k: int| !occurs_at(text@.skip(i as int), pat@, k) by {
            if 0 <= k && k + m <= n - i {
                lemma_occurs_at_skip(text@, pat@, i as int, k);
                assert(i + k < j);
            }
        }
        lemma_no_match_identity(text@.skip(i as int), pat@, rep@);
        assert(text@.skip(i as int) =~= text@.subrange(i as int, n as int));
    }
    out
}


/// Each character under an occurrence is the pattern's character.
pub proof fn lemma_occurs_at_index(s: Seq<char>, pat: Seq<char>, i: int, t: int)
    requires
        occurs_at(s, pat, i),
        0 <= t < pat.len(),
    ensures
        s[i + t] == pat[t],
{
    assert(s.subrange(i, i + pat.len() as int)[t] == s[i + t]);
}

/// Two brace-delimited placeholders that differ at some inner index `t` can
/// never overlap in a text: each match is either wholly before or wholly
/// after the other.
pub proof fn lemma_braced_no_overlap(
    s: Seq<char>,
    a: Seq<char>,
    b: Seq<char>,
    k: int,
    p: int,
    t: int,
)
    requires
        occurs_at(s, a, k),
        occurs_at(s, b, p),
        a.len() >= 2,
        b.len() >= 2,
        a[0] == '{',
        b[0] == '{',
        forall|i: int| 1 <= i < a.len() ==> a[i] != '{',
        forall|i: int| 1 <= i < b.len() ==> b[i] != '{',
        1 <= t < a.len(),
        t < b.len(),
        a[t] != b[t],
    ensures
        p + b.len() <= k || k + a.len() <= p,
{
    if !(p + b.len() <= k || k + a.len() <= p) {
        if p < k {
            lemma_occurs_at_index(s, a, k, 0);
            lemma_occurs_at_index(s, b, p, k - p);
        } else if p > k {
            lemma_occurs_at_index(s, b, p, 0);
            lemma_occurs_at_index(s, a, k, p - k);
        } else {
            lemma_occurs_at_index(s, a, k, t);
            lemma_occurs_at_index(s, b, p, t);
        }
    }
}

/// A brace-free value whose first character is foreign to a brace-delimited
/// pattern's inside can never overlap a match of that pattern.
pub proof fn lemma_value_no_overlap(s: Seq<char>, pat: Seq<char>, x: Seq<char>, k: int, p: int)
    requires
        occurs_at(s, x, k),
        occurs_at(s, pat, p),
        pat.len() >= 2,
        x.len() >= 1,
        pat[0] == '{',
        pat[pat.len() - 1] == '}',
        forall|i: int| 0 <= i < x.len() ==> x[i] != '{' && x[i] != '}',
        forall|i: int| 1 <= i < pat.len() - 1 ==> pat[i] != x[0],
    ensures
        p + pat.len() <= k || k + x.len() <= p,
{
    if !(p + pat.len() <= k || k + x.len() <= p) {
        if p >= k {
            lemma_occurs_at_index(s, pat, p, 0);
            lemma_occurs_at_index(s, x, k, p - k);
        } else if p + pat.len() - 1 < k + x.len() {
            lemma_occurs_at_index(s, pat, p, pat.len() - 1);
            lemma_occurs_at_index(s, x, k, p + pat.len() - 1 - k);
        } else {
            lemma_occurs_at_index(s, x, k, 0);
            lemma_occurs_at_index(s, pat, p, k - p);
        }
    }
}

} // verus!
