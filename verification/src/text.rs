//! Character-level scanning over wire lines: whitespace classification,
//! token boundaries, trimming, and digit parsing.  The spec functions here
//! are the vocabulary in which the codec and the input dispatcher state
//! their contracts.

use vstd::prelude::*;

verus! {

/// A whitespace character of the wire protocol: space, tab, carriage
/// return, or line feed.
pub open spec fn is_wsp(c: char) -> bool {
    c == ' ' || c == '\t' || c == '\r' || c == '\n'
}

/// Executable whitespace test.
pub fn wsp(c: char) -> (r: bool)
    ensures
        r == is_wsp(c),
{
    c == ' ' || c == '\t' || c == '\r' || c == '\n'
}

/// Index of the first whitespace character at or after `i`, or `s.len()`
/// if none follows.
pub open spec fn find_wsp(s: Seq<char>, i: int) -> int
    decreases s.len() - i when 0 <= i <= s.len()
{
    if i >= s.len() {
        s.len() as int
    } else if is_wsp(s[i]) {
        i
    } else {
        find_wsp(s, i + 1)
    }
}

/// Index of the first non-whitespace character at or after `i`, or
/// `s.len()` if none follows.
pub open spec fn find_non_wsp(s: Seq<char>, i: int) -> int
    decreases s.len() - i when 0 <= i <= s.len()
{
    if i >= s.len() {
        s.len() as int
    } else if !is_wsp(s[i]) {
        i
    } else {
        find_non_wsp(s, i + 1)
    }
}

/// Index of the first occurrence of `c` at or after `i`, or `s.len()`.
pub open spec fn find_char(s: Seq<char>, i: int, c: char) -> int
    decreases s.len() - i when 0 <= i <= s.len()
{
    if i >= s.len() {
        s.len() as int
    } else if s[i] == c {
        i
    } else {
        find_char(s, i + 1, c)
    }
}

pub proof fn lemma_find_wsp(s: Seq<char>, i: int)
    requires
        0 <= i <= s.len(),
    ensures
        i <= find_wsp(s, i) <= s.len(),
        find_wsp(s, i) < s.len() ==> is_wsp(s[find_wsp(s, i)]),
        forall|j: int| i <= j < find_wsp(s, i) ==> !is_wsp(s[j]),
    decreases s.len() - i,
{
    if i < s.len() && !is_wsp(s[i]) {
        lemma_find_wsp(s, i + 1);
    }
}

pub proof fn lemma_find_non_wsp(s: Seq<char>, i: int)
    requires
        0 <= i <= s.len(),
    ensures
        i <= find_non_wsp(s, i) <= s.len(),
        find_non_wsp(s, i) < s.len() ==> !is_wsp(s[find_non_wsp(s, i)]),
        forall|j: int| i <= j < find_non_wsp(s, i) ==> is_wsp(s[j]),
    decreases s.len() - i,
{
    if i < s.len() && is_wsp(s[i]) {
        lemma_find_non_wsp(s, i + 1);
    }
}

pub proof fn lemma_find_char(s: Seq<char>, i: int, c: char)
    requires
        0 <= i <= s.len(),
    ensures
        i <= find_char(s, i, c) <= s.len(),
        find_char(s, i, c) < s.len() ==> s[find_char(s, i, c)] == c,
        forall|j: int| i <= j < find_char(s, i, c) ==> s[j] != c,
    decreases s.len() - i,
{
    if i < s.len() && s[i] != c {
        lemma_find_char(s, i + 1, c);
    }
}

/// `find_wsp` lands exactly on `k` when everything before `k` is
/// non-whitespace and `k` is a boundary.
pub proof fn lemma_find_wsp_is(s: Seq<char>, i: int, k: int)
    requires
        0 <= i <= k <= s.len(),
        forall|j: int| i <= j < k ==> !is_wsp(s[j]),
        k == s.len() || is_wsp(s[k]),
    ensures
        find_wsp(s, i) == k,
    decreases k - i,
{
    if i < k {
        lemma_find_wsp_is(s, i + 1, k);
    }
}

/// `find_non_wsp` lands exactly on `k` when everything before `k` is
/// whitespace and `k` is a boundary.
pub proof fn lemma_find_non_wsp_is(s: Seq<char>, i: int, k: int)
    requires
        0 <= i <= k <= s.len(),
        forall|j: int| i <= j < k ==> is_wsp(s[j]),
        k == s.len() || !is_wsp(s[k]),
    ensures
        find_non_wsp(s, i) == k,
    decreases k - i,
{
    if i < k {
        lemma_find_non_wsp_is(s, i + 1, k);
    }
}

/// `find_char` lands exactly on `k` when `c` does not occur before `k`
/// and `k` either holds `c` or is the end.
pub proof fn lemma_find_char_is(s: Seq<char>, i: int, k: int, c: char)
    requires
        0 <= i <= k <= s.len(),
        forall|j: int| i <= j < k ==> s[j] != c,
        k == s.len() || s[k] == c,
    ensures
        find_char(s, i, c) == k,
    decreases k - i,
{
    if i < k {
        lemma_find_char_is(s, i + 1, k, c);
    }
}

/// One past the last non-whitespace character of `s`, or `0` if `s` is
/// all whitespace.
pub open spec fn trim_end_idx(s: Seq<char>) -> int
    decreases s.len(),
{
    if s.len() == 0 {
        0
    } else if is_wsp(s.last()) {
        trim_end_idx(s.drop_last())
    } else {
        s.len() as int
    }
}

pub proof fn lemma_trim_end_idx(s: Seq<char>)
    ensures
        0 <= trim_end_idx(s) <= s.len(),
        trim_end_idx(s) > 0 ==> !is_wsp(s[trim_end_idx(s) - 1]),
        forall|j: int| trim_end_idx(s) <= j < s.len() ==> is_wsp(s[j]),
    decreases s.len(),
{
    if s.len() > 0 && is_wsp(s.last()) {
        lemma_trim_end_idx(s.drop_last());
        assert(forall|j: int| 0 <= j < s.len() - 1 ==> s.drop_last()[j] == s[j]);
    }
}

/// `trim_end_idx` is exactly `k` when everything from `k` on is
/// whitespace and `k` is a boundary.
pub proof fn lemma_trim_end_idx_is(s: Seq<char>, k: int)
    requires
        0 <= k <= s.len(),
        forall|j: int| k <= j < s.len() ==> is_wsp(s[j]),
        k == 0 || !is_wsp(s[k - 1]),
    ensures
        trim_end_idx(s) == k,
    decreases s.len(),
{
    if s.len() > 0 {
        if k < s.len() {
            assert(is_wsp(s.last()));
            assert(forall|j: int| 0 <= j < s.len() - 1 ==> s.drop_last()[j] == s[j]);
            lemma_trim_end_idx_is(s.drop_last(), k);
        }
    }
}

/// `s` with leading and trailing whitespace removed.
pub open spec fn trim_spec(s: Seq<char>) -> Seq<char> {
    let a = find_non_wsp(s, 0);
    let b = trim_end_idx(s);
    if a < b {
        s.subrange(a, b)
    } else {
        Seq::empty()
    }
}

/// Index of the first non-whitespace character at or after `from`.
pub fn find_non_wsp_at(s: &str, from: usize) -> (r: usize)
    requires
        from <= s@.len(),
    ensures
        r == find_non_wsp(s@, from as int),
        from <= r <= s@.len(),
{
    let n = s.unicode_len();
    let mut i = from;
    while i < n && wsp(s.get_char(i))
        invariant
            from <= i <= n,
            n == s@.len(),
            find_non_wsp(s@, from as int) == find_non_wsp(s@, i as int),
        decreases n - i,
    {
        assert(find_non_wsp(s@, i as int) == find_non_wsp(s@, i + 1));
        i = i + 1;
    }
    assert(find_non_wsp(s@, i as int) == i);
    i
}

/// Index of the first whitespace character at or after `from`.
pub fn find_wsp_at(s: &str, from: usize) -> (r: usize)
    requires
        from <= s@.len(),
    ensures
        r == find_wsp(s@, from as int),
        from <= r <= s@.len(),
{
    let n = s.unicode_len();
    let mut i = from;
    while i < n && !wsp(s.get_char(i))
        invariant
            from <= i <= n,
            n == s@.len(),
            find_wsp(s@, from as int) == find_wsp(s@, i as int),
        decreases n - i,
    {
        assert(find_wsp(s@, i as int) == find_wsp(s@, i + 1));
        i = i + 1;
    }
    assert(find_wsp(s@, i as int) == i);
    i
}

/// Index of the first occurrence of `c` at or after `from`.
pub fn find_char_at(s: &str, from: usize, c: char) -> (r: usize)
    requires
        from <= s@.len(),
    ensures
        r == find_char(s@, from as int, c),
        from <= r <= s@.len(),
{
    let n = s.unicode_len();
    let mut i = from;
    while i < n && s.get_char(i) != c
        invariant
            from <= i <= n,
            n == s@.len(),
            find_char(s@, from as int, c) == find_char(s@, i as int, c),
        decreases n - i,
    {
        assert(find_char(s@, i as int, c) == find_char(s@, i + 1, c));
        i = i + 1;
    }
    assert(find_char(s@, i as int, c) == i);
    i
}

/// Whether the characters of `s` between `lo` and `hi` spell `lit`.
pub fn range_matches(s: &str, lo: usize, hi: usize, lit: &str) -> (r: bool)
    requires
        lo <= hi <= s@.len(),
    ensures
        r == (s@.subrange(lo as int, hi as int) == lit@),
{
    let m = lit.unicode_len();
    if hi - lo != m {
        assert(s@.subrange(lo as int, hi as int).len() != lit@.len());
        return false;
    }
    let mut k: usize = 0;
    while k < m
        invariant
            0 <= k <= m,
            m == lit@.len(),
            lo <= hi <= s@.len(),
            hi - lo == m,
            forall|j: int| 0 <= j < k ==> s@[lo + j] == lit@[j],
        decreases m - k,
    {
        if s.get_char(lo + k) != lit.get_char(k) {
            assert(s@.subrange(lo as int, hi as int)[k as int] != lit@[k as int]);
            return false;
        }
        k = k + 1;
    }
    assert(s@.subrange(lo as int, hi as int) =~= lit@);
    true
}

/// Whether two string slices hold the same characters.
pub fn str_eq(a: &str, b: &str) -> (r: bool)
    ensures
        r == (a@ == b@),
{
    let n = a.unicode_len();
    let r = range_matches(a, 0, n, b);
    proof {
        assert(a@.subrange(0, a@.len() as int) =~= a@);
    }
    r
}

/// A fresh `String` holding the characters of `s` between `lo` and `hi`.
pub fn copy_range(s: &str, lo: usize, hi: usize) -> (r: String)
    requires
        lo <= hi <= s@.len(),
    ensures
        r@ == s@.subrange(lo as int, hi as int),
{
    String::from_str(s.substring_char(lo, hi))
}

/// `s` with leading and trailing whitespace removed, as a fresh `String`.
pub fn trim_of(s: &str) -> (r: String)
    ensures
        r@ == trim_spec(s@),
{
    let n = s.unicode_len();
    let a = find_non_wsp_at(s, 0);
    proof {
        lemma_find_non_wsp(s@, 0);
        lemma_trim_end_idx(s@);
    }
    if a == n {
        assert(trim_spec(s@) =~= Seq::<char>::empty());
        return String::new();
    }
    let mut b = n;
    while b > a + 1 && wsp(s.get_char(b - 1))
        invariant
            a < b <= n,
            n == s@.len(),
            a == find_non_wsp(s@, 0),
            a < n,
            !is_wsp(s@[a as int]),
            forall|j: int| b <= j < n ==> is_wsp(s@[j]),
        decreases b,
    {
        b = b - 1;
    }
    // Either the character before `b` is solid, or `b - 1 == a`, whose
    // character is solid as well: `b` is the end of the trimmed range.
    proof {
        assert(!is_wsp(s@[b - 1]));
        lemma_trim_end_idx_is(s@, b as int);
    }
    copy_range(s, a, b)
}

/// The whitespace-separated tokens of `s`, scanning from position `i`.
pub open spec fn tokens_from(s: Seq<char>, i: int) -> Seq<Seq<char>>
    decreases s.len() - i when 0 <= i <= s.len() via tokens_from_decreases
{
    let a = find_non_wsp(s, i);
    if a >= s.len() {
        Seq::empty()
    } else {
        let b = find_wsp(s, a);
        seq![s.subrange(a, b)] + tokens_from(s, b)
    }
}

#[via_fn]
proof fn tokens_from_decreases(s: Seq<char>, i: int) {
    lemma_find_non_wsp(s, i);
    let a = find_non_wsp(s, i);
    if a < s.len() {
        lemma_find_wsp(s, a);
        assert(find_wsp(s, a) > a);
    }
}

/// The whitespace-separated tokens of `s`.
pub open spec fn tokens(s: Seq<char>) -> Seq<Seq<char>> {
    tokens_from(s, 0)
}

/// The whitespace-separated tokens of `s`, oldest first, as fresh strings.
pub fn split_tokens(s: &str) -> (r: Vec<String>)
    ensures
        r.deep_view() == tokens(s@),
{
    let n = s.unicode_len();
    let mut out: Vec<String> = Vec::new();
    let mut i: usize = 0;
    loop
        invariant
            0 <= i <= n,
            n == s@.len(),
            out.deep_view() + tokens_from(s@, i as int) == tokens(s@),
        ensures
            out.deep_view() == tokens(s@),
        decreases n - i,
    {
        let a = find_non_wsp_at(s, i);
        if a == n {
            assert(tokens_from(s@, i as int) =~= Seq::<Seq<char>>::empty());
            assert(out.deep_view() =~= tokens(s@));
            break;
        }
        let b = find_wsp_at(s, a);
        proof {
            lemma_find_non_wsp(s@, i as int);
            lemma_find_wsp(s@, a as int);
        }
        let tok = copy_range(s, a, b);
        out.push(tok);
        assert(out.deep_view() + tokens_from(s@, b as int) =~= tokens(s@));
        i = b;
    }
    out
}

/// `l` with one carriage return stripped from its end, if one is there.
pub open spec fn strip_cr(l: Seq<char>) -> Seq<char> {
    if l.len() > 0 && l.last() == '\r' {
        l.drop_last()
    } else {
        l
    }
}

/// The lines of `s`: one piece per line feed, each with a carriage
/// return left at its end stripped; a last piece without a terminator
/// still counts, and an empty `s` has no lines.
pub open spec fn lines_spec(s: Seq<char>) -> Seq<Seq<char>>
    decreases s.len() via lines_spec_decreases
{
    if s.len() == 0 {
        Seq::empty()
    } else {
        let k = find_char(s, 0, '\n');
        if k >= s.len() {
            seq![strip_cr(s)]
        } else {
            seq![strip_cr(s.subrange(0, k))] + lines_spec(s.subrange(k + 1, s.len() as int))
        }
    }
}

#[via_fn]
proof fn lines_spec_decreases(s: Seq<char>) {
    if s.len() > 0 {
        lemma_find_char(s, 0, '\n');
    }
}

/// The lines of `chunk`, oldest first, as fresh strings.
pub fn split_lines(chunk: &str) -> (r: Vec<String>)
    ensures
        r.deep_view() == lines_spec(chunk@),
{
    let n = chunk.unicode_len();
    let mut out: Vec<String> = Vec::new();
    let mut i: usize = 0;
    proof {
        assert(chunk@.subrange(0, n as int) =~= chunk@);
        assert(out.deep_view() + lines_spec(chunk@) =~= lines_spec(chunk@));
    }
    while i < n
        invariant
            0 <= i <= n,
            n == chunk@.len(),
            out.deep_view() + lines_spec(chunk@.subrange(i as int, n as int)) == lines_spec(
                chunk@,
            ),
        decreases n - i,
    {
        let ghost rest = chunk@.subrange(i as int, n as int);
        let ghost kd = out.deep_view();
        let k = find_char_at(chunk, i, '\n');
        proof {
            lemma_find_char(chunk@, i as int, '\n');
            assert forall|j: int| 0 <= j < k - i implies rest[j] != '\n' by {
                assert(rest[j] == chunk@[i + j]);
            }
            if k < n {
                assert(rest[k - i] == chunk@[k as int]);
            }
            lemma_find_char_is(rest, 0, k - i, '\n');
        }
        let end = if k > i && chunk.get_char(k - 1) == '\r' {
            k - 1
        } else {
            k
        };
        proof {
            assert(rest.subrange(0, k - i) =~= chunk@.subrange(i as int, k as int));
            if k >= n {
                assert(strip_cr(rest) =~= chunk@.subrange(i as int, end as int));
            } else {
                assert(strip_cr(rest.subrange(0, k - i)) =~= chunk@.subrange(
                    i as int,
                    end as int,
                ));
            }
        }
        out.push(copy_range(chunk, i, end));
        proof {
            if k < n {
                assert(rest.subrange(k - i + 1, rest.len() as int) =~= chunk@.subrange(
                    k + 1,
                    n as int,
                ));
                assert(out.deep_view() =~= kd + seq![chunk@.subrange(i as int, end as int)]);
                assert((kd + seq![chunk@.subrange(i as int, end as int)]) + lines_spec(
                    chunk@.subrange(k + 1, n as int),
                ) =~= kd + (seq![chunk@.subrange(i as int, end as int)] + lines_spec(
                    chunk@.subrange(k + 1, n as int),
                )));
            } else {
                assert(out.deep_view() =~= kd + seq![chunk@.subrange(i as int, end as int)]);
                assert(lines_spec(chunk@.subrange(n as int, n as int))
                    =~= Seq::<Seq<char>>::empty());
                assert((kd + seq![chunk@.subrange(i as int, end as int)])
                    + Seq::<Seq<char>>::empty() =~= kd + seq![chunk@.subrange(
                    i as int,
                    end as int,
                )]);
            }
        }
        if k == n {
            i = n;
        } else {
            i = k + 1;
        }
    }
    proof {
        assert(lines_spec(chunk@.subrange(n as int, n as int)) =~= Seq::<Seq<char>>::empty());
        assert(out.deep_view() + Seq::<Seq<char>>::empty() =~= out.deep_view());
    }
    out
}

/// Whether `c` is a decimal digit.
pub open spec fn is_digit(c: char) -> bool {
    48 <= c as int <= 57
}

/// The value of the digit `c`.
pub open spec fn digit_val(c: char) -> int {
    c as int - 48
}

/// Whether every character of `s` is a decimal digit.
pub open spec fn all_digits(s: Seq<char>) -> bool {
    forall|j: int| 0 <= j < s.len() ==> is_digit(#[trigger] s[j])
}

/// The number that the digit string `s` denotes.
pub open spec fn digits_val(s: Seq<char>) -> int
    decreases s.len(),
{
    if s.len() == 0 {
        0
    } else {
        digits_val(s.drop_last()) * 10 + digit_val(s.last())
    }
}

/// Reading further digits never shrinks the value.
proof fn lemma_digits_val_grows(s: Seq<char>, i: int)
    requires
        0 <= i <= s.len(),
        all_digits(s),
    ensures
        digits_val(s) >= digits_val(s.subrange(0, i)),
        digits_val(s) >= 0,
    decreases s.len() - i,
{
    if i == s.len() {
        assert(s.subrange(0, i) =~= s);
        lemma_digits_val_nonneg(s);
    } else {
        lemma_digits_val_grows(s, i + 1);
        let p = s.subrange(0, i + 1);
        assert(p.drop_last() =~= s.subrange(0, i));
        lemma_digits_val_nonneg(s.subrange(0, i));
        assert(digits_val(p) == digits_val(s.subrange(0, i)) * 10 + digit_val(s[i]));
    }
}

proof fn lemma_digits_val_nonneg(s: Seq<char>)
    requires
        all_digits(s),
    ensures
        digits_val(s) >= 0,
    decreases s.len(),
{
    if s.len() > 0 {
        assert(all_digits(s.drop_last())) by {
            assert(forall|j: int| 0 <= j < s.len() - 1 ==> s.drop_last()[j] == s[j]);
        }
        lemma_digits_val_nonneg(s.drop_last());
    }
}

/// Parses `s` as an unsigned decimal number.  Returns the value exactly
/// when `s` is one or more digits and the value fits in `usize`.
pub fn parse_usize(s: &str) -> (r: Option<usize>)
    ensures
        match r {
            Some(n) => {
                &&& s@.len() > 0
                &&& all_digits(s@)
                &&& n == digits_val(s@)
            },
            None => !(s@.len() > 0 && all_digits(s@) && digits_val(s@) <= usize::MAX),
        },
{
    let n = s.unicode_len();
    if n == 0 {
        return None;
    }
    let mut acc: usize = 0;
    let mut i: usize = 0;
    while i < n
        invariant
            0 <= i <= n,
            n == s@.len(),
            forall|j: int| 0 <= j < i ==> is_digit(#[trigger] s@[j]),
            acc == digits_val(s@.subrange(0, i as int)),
        decreases n - i,
    {
        let c = s.get_char(i);
        let u = c as u32;
        if u < 48 || u > 57 {
            assert(!is_digit(s@[i as int]));
            return None;
        }
        let d = (u - 48) as usize;
        if acc > (usize::MAX - d) / 10 {
            proof {
                let p = s@.subrange(0, i + 1);
                assert(p.drop_last() =~= s@.subrange(0, i as int));
                assert(digits_val(p) == acc * 10 + d);
                if all_digits(s@) {
                    lemma_digits_val_grows(s@, i + 1);
                }
            }
            return None;
        }
        proof {
            let p = s@.subrange(0, i + 1);
            assert(p.drop_last() =~= s@.subrange(0, i as int));
            assert(p.last() == s@[i as int]);
        }
        acc = acc * 10 + d;
        i = i + 1;
    }
    assert(s@.subrange(0, i as int) =~= s@);
    Some(acc)
}

} // verus!
