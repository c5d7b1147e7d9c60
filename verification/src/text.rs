//! Small operations on text.

use vstd::prelude::*;

verus! {

/// What `str::to_lowercase` returns for a text (Unicode case mapping).
pub uninterp spec fn lowercase_of(s: Seq<char>) -> Seq<char>;

/// What `str::to_uppercase` returns for a text (Unicode case mapping).
pub uninterp spec fn uppercase_of(s: Seq<char>) -> Seq<char>;

/// Calls `str::to_lowercase`.  The contract claims that the result depends
/// on the text alone; the Unicode case mapping itself is left to the name.
#[verifier::external_body]
pub(crate) fn lowercase(s: &str) -> (r: String)
    ensures
        r@ == lowercase_of(s@),
{
    s.to_lowercase()
}

/// Calls `str::to_uppercase`.  The contract claims that the result depends
/// on the text alone; the Unicode case mapping itself is left to the name.
#[verifier::external_body]
pub(crate) fn uppercase(s: &str) -> (r: String)
    ensures
        r@ == uppercase_of(s@),
{
    s.to_uppercase()
}

/// Whether two texts are equal.
pub fn text_eq(a: &str, b: &str) -> (r: bool)
    ensures
        r == (a@ == b@),
{
    let x = a.to_string();
    let y = b.to_string();
    x == y
}

/// The characters of a text.
pub fn chars_of(s: &str) -> (r: Vec<char>)
    ensures
        r@ == s@,
{
    let mut out: Vec<char> = Vec::new();
    for c in it: s.chars()
        invariant
            out@ == it.seq().take(it.index()),
            it.seq() == s@,
    {
        out.push(c);
        proof {
            assert(out@ =~= it.seq().take(it.index() + 1));
        }
    }
    proof {
        assert(out@ =~= s@);
    }
    out
}

/// `pat` occurs in `s` at position `i`.
pub open spec fn occurs_at(s: Seq<char>, pat: Seq<char>, i: int) -> bool {
    0 <= i && i + pat.len() <= s.len() && s.subrange(i, i + pat.len()) == pat
}

/// `pat` occurs somewhere in `s` (as `str::contains` with a text pattern).
pub open spec fn contains_text(s: Seq<char>, pat: Seq<char>) -> bool {
    exists|i: int| occurs_at(s, pat, i)
}

/// Whether `pat` occurs in `s` (as `str::contains`).
pub fn contains(s: &str, pat: &str) -> (r: bool)
    ensures
        r == contains_text(s@, pat@),
{
    let sc = chars_of(s);
    let pc = chars_of(pat);
    let n = sc.len();
    let m = pc.len();
    if m > n {
        proof {
            assert forall|i: int| !occurs_at(s@, pat@, i) by {}
        }
        return false;
    }
    let mut i: usize = 0;
    while i <= n - m
        invariant
            m <= n,
            n == sc@.len(),
            m == pc@.len(),
            sc@ == s@,
            pc@ == pat@,
            i <= n - m + 1,
            forall|k: int| 0 <= k < i ==> !occurs_at(s@, pat@, k),
        decreases n - m + 1 - i,
    {
        let mut j: usize = 0;
        let mut same = true;
        while j < m
            invariant
                j <= m,
                i + m <= n,
                n == sc@.len(),
                m == pc@.len(),
                same == (forall|t: int| 0 <= t < j ==> sc@[i + t] == pc@[t]),
            decreases m - j,
        {
            if sc[i + j] != pc[j] {
                same = false;
            }
            j = j + 1;
        }
        if same {
            proof {
                assert(s@.subrange(i as int, i + m) =~= pat@);
                assert(occurs_at(s@, pat@, i as int));
            }
            return true;
        }
        proof {
            assert(!occurs_at(s@, pat@, i as int)) by {
                if s@.subrange(i as int, i + m) == pat@ {
                    assert forall|t: int| 0 <= t < m implies sc@[i + t] == pc@[t] by {
                        assert(s@.subrange(i as int, i + m)[t] == s@[i + t]);
                    }
                }
            }
        }
        i = i + 1;
    }
    false
}

/// The value of a text of decimal digits, read left to right.
pub open spec fn digits_value(s: Seq<char>) -> int
    decreases s.len(),
{
    if s.len() == 0 {
        0
    } else {
        digits_value(s.drop_last()) * 10 + (s.last() as u32 - 48)
    }
}

/// Every character is an ASCII digit.
pub open spec fn all_digits(s: Seq<char>) -> bool {
    forall|i: int| 0 <= i < s.len() ==> 48 <= (#[trigger] s[i]) as u32 <= 57
}

/// The digits of a `u64` text: the text without one leading '+'.
pub open spec fn u64_digits(s: Seq<char>) -> Seq<char> {
    if s.len() > 0 && s[0] == '+' {
        s.drop_first()
    } else {
        s
    }
}

/// What `u64::from_str` gives: an optional '+' followed by one or more
/// ASCII digits whose value is at most `u64::MAX`; `None` for any other
/// text.
pub open spec fn u64_parse(s: Seq<char>) -> Option<u64> {
    let d = u64_digits(s);
    if d.len() > 0 && all_digits(d) && digits_value(d) <= u64::MAX {
        Some(digits_value(d) as u64)
    } else {
        None
    }
}

/// The value of a text of digits is not negative.
proof fn lemma_digits_nonneg(d: Seq<char>)
    requires
        all_digits(d),
    ensures
        digits_value(d) >= 0,
    decreases d.len(),
{
    if d.len() > 0 {
        assert(all_digits(d.drop_last())) by {
            assert forall|i: int| 0 <= i < d.drop_last().len() implies 48 <= (#[trigger] d.drop_last()[i]) as u32 <= 57 by {
                assert(d.drop_last()[i] == d[i]);
            }
        }
        lemma_digits_nonneg(d.drop_last());
        assert(48 <= d[d.len() - 1] as u32);
    }
}

/// A prefix of a text of digits has no greater value than the text.
proof fn lemma_digits_prefix(d: Seq<char>, k: int)
    requires
        all_digits(d),
        0 <= k <= d.len(),
    ensures
        digits_value(d.subrange(0, k)) <= digits_value(d),
    decreases d.len(),
{
    if k == d.len() {
        assert(d.subrange(0, k) =~= d);
    } else {
        let p = d.drop_last();
        assert(all_digits(p)) by {
            assert forall|i: int| 0 <= i < p.len() implies 48 <= (#[trigger] p[i]) as u32 <= 57 by {
                assert(p[i] == d[i]);
            }
        }
        lemma_digits_prefix(p, k);
        lemma_digits_nonneg(p);
        assert(p.subrange(0, k) =~= d.subrange(0, k));
        assert(48 <= d[d.len() - 1] as u32);
    }
}

/// Parses a `u64` as `u64::from_str` does: an optional '+' and one or
/// more ASCII digits, at most `u64::MAX`.
pub fn parse_u64(s: &str) -> (r: Option<u64>)
    ensures
        r == u64_parse(s@),
{
    let cs = chars_of(s);
    let n = cs.len();
    let start: usize = if n > 0 && cs[0] == '+' {
        1
    } else {
        0
    };
    let ghost d = u64_digits(s@);
    proof {
        assert(d =~= cs@.subrange(start as int, n as int));
    }
    if start >= n {
        return None;
    }
    let mut v: u64 = 0;
    let mut i: usize = start;
    proof {
        assert(cs@.subrange(start as int, i as int) =~= Seq::<char>::empty());
    }
    while i < n
        invariant
            start <= i <= n,
            start <= 1,
            n == cs@.len(),
            cs@ == s@,
            d == cs@.subrange(start as int, n as int),
            d == u64_digits(s@),
            all_digits(cs@.subrange(start as int, i as int)),
            v == digits_value(cs@.subrange(start as int, i as int)),
        decreases n - i,
    {
        let c = cs[i];
        let code = c as u32;
        let ghost next = cs@.subrange(start as int, i + 1);
        proof {
            assert(d[i - start] == c);
            assert(next.drop_last() =~= cs@.subrange(start as int, i as int));
            assert(d.subrange(0, i + 1 - start) =~= next);
        }
        if code < 48 || code > 57 {
            proof {
                assert(!(48 <= (d[i - start]) as u32 <= 57));
                assert(!all_digits(d));
            }
            return None;
        }
        let dig = (code - 48) as u64;
        if v > (u64::MAX - dig) / 10 {
            proof {
                assert(v * 10 + dig > u64::MAX) by (nonlinear_arith)
                    requires
                        v > (u64::MAX - dig) / 10,
                        dig <= 9,
                ;
                assert(all_digits(next)) by {
                    assert forall|j: int| 0 <= j < next.len() implies 48 <= (#[trigger] next[j]) as u32 <= 57 by {
                        if j < next.len() - 1 {
                            assert(next[j] == cs@.subrange(start as int, i as int)[j]);
                        }
                    }
                }
                if all_digits(d) {
                    lemma_digits_prefix(d, i + 1 - start);
                }
            }
            return None;
        }
        proof {
            assert(v * 10 + dig <= u64::MAX) by (nonlinear_arith)
                requires
                    v <= (u64::MAX - dig) / 10,
                    dig <= 9,
            ;
        }
        v = v * 10 + dig;
        proof {
            assert(all_digits(next)) by {
                assert forall|j: int| 0 <= j < next.len() implies 48 <= (#[trigger] next[j]) as u32 <= 57 by {
                    if j < next.len() - 1 {
                        assert(next[j] == cs@.subrange(start as int, i as int)[j]);
                    }
                }
            }
        }
        i = i + 1;
    }
    Some(v)
}

} // verus!
