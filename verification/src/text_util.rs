//! Character-level scanning primitives shared by the topology parser and the
//! package-database parser: prefix tests, class-bounded scans, and decimal
//! number parsing, each proved against a direct mathematical statement.

use vstd::prelude::*;
use vstd::string::*;

verus! {

/// The whitespace characters that are insignificant between topology tokens.
pub open spec fn is_space(c: char) -> bool {
    c == ' ' || c == '\t' || c == '\r' || c == '\n'
}

pub open spec fn is_line_break_char(c: char) -> bool {
    c == '\n' || c == '\r'
}

pub open spec fn is_digit(c: char) -> bool {
    '0' <= c && c <= '9'
}

/// `s` carries the string `p` starting at position `i`.
pub open spec fn has_prefix_at(s: Seq<char>, i: int, p: Seq<char>) -> bool {
    &&& 0 <= i
    &&& i + p.len() <= s.len()
    &&& s.subrange(i, i + p.len()) == p
}

/// If `s[i..]` begins with the keyword `kw`, returns the position just after it.
pub fn try_keyword(s: &str, i: usize, kw: &str) -> (r: Option<usize>)
    requires
        i <= s@.len(),
    ensures
        r is Some <==> has_prefix_at(s@, i as int, kw@),
        r matches Some(j) ==> j == i + kw@.len() && i <= j <= s@.len(),
{
    let n = s.unicode_len();
    let k = kw.unicode_len();
    if n - i < k {
        assert(!has_prefix_at(s@, i as int, kw@));
        return None;
    }
    let mut t: usize = 0;
    while t < k
        invariant
            i + k <= n == s@.len(),
            k == kw@.len(),
            t <= k,
            forall|j: int| 0 <= j < t ==> s@[i + j] == kw@[j],
        decreases k - t,
    {
        if s.get_char(i + t) != kw.get_char(t) {
            proof {
                if has_prefix_at(s@, i as int, kw@) {
                    assert(s@.subrange(i as int, i + kw@.len())[t as int] == kw@[t as int]);
                }
            }
            return None;
        }
        t = t + 1;
    }
    assert(s@.subrange(i as int, i + kw@.len()) =~= kw@);
    Some(i + k)
}


/// Character-wise equality of two strings.
pub fn str_equal(a: &str, b: &str) -> (r: bool)
    ensures
        r <==> a@ == b@,
{
    let na = a.unicode_len();
    let nb = b.unicode_len();
    if na != nb {
        assert(a@ != b@);
        return false;
    }
    let mut t: usize = 0;
    while t < na
        invariant
            t <= na == a@.len() == b@.len(),
            forall|j: int| 0 <= j < t ==> a@[j] == b@[j],
        decreases na - t,
    {
        if a.get_char(t) != b.get_char(t) {
            return false;
        }
        t = t + 1;
    }
    assert(a@ =~= b@);
    true
}

/// First position at or after `i` whose character fails `p`, or the end of `s`.
pub open spec fn scan_while(s: Seq<char>, i: int, p: spec_fn(char) -> bool) -> int
    decreases s.len() - i when 0 <= i <= s.len()
{
    if i >= s.len() {
        i
    } else if p(s[i]) {
        scan_while(s, i + 1, p)
    } else {
        i
    }
}

pub proof fn lemma_scan_while(s: Seq<char>, i: int, p: spec_fn(char) -> bool)
    requires
        0 <= i <= s.len(),
    ensures
        i <= scan_while(s, i, p) <= s.len(),
        forall|k: int| i <= k < scan_while(s, i, p) ==> p(#[trigger] s[k]),
        scan_while(s, i, p) < s.len() ==> !p(s[scan_while(s, i, p)]),
    decreases s.len() - i,
{
    if i < s.len() && p(s[i]) {
        lemma_scan_while(s, i + 1, p);
    }
}

/// First position at or after `i` holding a line-break character, or the end.
pub open spec fn line_end(s: Seq<char>, i: int) -> int {
    scan_while(s, i, |c: char| !is_line_break_char(c))
}

fn is_break_char_at(s: &str, j: usize) -> (b: bool)
    requires
        j < s@.len(),
    ensures
        b == is_line_break_char(s@[j as int]),
{
    let c = s.get_char(j);
    c == '\n' || c == '\r'
}

#[verifier::loop_isolation(false)]
pub fn find_line_end(s: &str, i: usize) -> (j: usize)
    requires
        i <= s@.len(),
    ensures
        j == line_end(s@, i as int),
        i <= j <= s@.len(),
{
    let n = s.unicode_len();
    let ghost p = |c: char| !is_line_break_char(c);
    let mut j: usize = i;
    while j < n && !is_break_char_at(s, j)
        invariant
            i <= j <= n,
            scan_while(s@, i as int, p) == scan_while(s@, j as int, p),
        decreases n - j,
    {
        proof {
            assert(p(s@[j as int]));
            assert(scan_while(s@, j as int, p) == scan_while(s@, j + 1, p));
        }
        j = j + 1;
    }
    proof {
        if j < n {
            assert(!p(s@[j as int]));
        }
        assert(scan_while(s@, j as int, p) == j);
    }
    j
}

/// First position at or after `i` whose character is not whitespace.
pub open spec fn skip_ws(s: Seq<char>, i: int) -> int {
    scan_while(s, i, |c: char| is_space(c))
}

fn is_space_at(s: &str, j: usize) -> (b: bool)
    requires
        j < s@.len(),
    ensures
        b == is_space(s@[j as int]),
{
    let c = s.get_char(j);
    c == ' ' || c == '\t' || c == '\r' || c == '\n'
}

#[verifier::loop_isolation(false)]
pub fn find_skip_ws(s: &str, i: usize) -> (j: usize)
    requires
        i <= s@.len(),
    ensures
        j == skip_ws(s@, i as int),
        i <= j <= s@.len(),
{
    let n = s.unicode_len();
    let ghost p = |c: char| is_space(c);
    let mut j: usize = i;
    while j < n && is_space_at(s, j)
        invariant
            i <= j <= n,
            scan_while(s@, i as int, p) == scan_while(s@, j as int, p),
        decreases n - j,
    {
        proof {
            assert(p(s@[j as int]));
            assert(scan_while(s@, j as int, p) == scan_while(s@, j + 1, p));
        }
        j = j + 1;
    }
    proof {
        if j < n {
            assert(!p(s@[j as int]));
        }
        assert(scan_while(s@, j as int, p) == j);
    }
    j
}

/// First position at or after `i` whose character is not a decimal digit.
pub open spec fn scan_digits(s: Seq<char>, i: int) -> int {
    scan_while(s, i, |c: char| is_digit(c))
}

fn is_digit_at(s: &str, j: usize) -> (b: bool)
    requires
        j < s@.len(),
    ensures
        b == is_digit(s@[j as int]),
{
    let c = s.get_char(j);
    '0' <= c && c <= '9'
}

#[verifier::loop_isolation(false)]
pub fn find_scan_digits(s: &str, i: usize) -> (j: usize)
    requires
        i <= s@.len(),
    ensures
        j == scan_digits(s@, i as int),
        i <= j <= s@.len(),
{
    let n = s.unicode_len();
    let ghost p = |c: char| is_digit(c);
    let mut j: usize = i;
    while j < n && is_digit_at(s, j)
        invariant
            i <= j <= n,
            scan_while(s@, i as int, p) == scan_while(s@, j as int, p),
        decreases n - j,
    {
        proof {
            assert(p(s@[j as int]));
            assert(scan_while(s@, j as int, p) == scan_while(s@, j + 1, p));
        }
        j = j + 1;
    }
    proof {
        if j < n {
            assert(!p(s@[j as int]));
        }
        assert(scan_while(s@, j as int, p) == j);
    }
    j
}

/// The value of a string of decimal digits, most significant first.
pub open spec fn dec_val(s: Seq<char>) -> nat
    decreases s.len(),
{
    if s.len() == 0 {
        0
    } else {
        (dec_val(s.drop_last()) * 10 + (s.last() as nat - '0' as nat)) as nat
    }
}

pub open spec fn all_digits(s: Seq<char>) -> bool {
    forall|i: int| 0 <= i < s.len() ==> is_digit(#[trigger] s[i])
}

proof fn lemma_dec_val_prefix_le(s: Seq<char>, i: int)
    requires
        0 <= i <= s.len(),
        all_digits(s),
    ensures
        dec_val(s.take(i)) <= dec_val(s),
    decreases s.len() - i,
{
    if i < s.len() {
        lemma_dec_val_prefix_le(s, i + 1);
        assert(s.take(i + 1).drop_last() =~= s.take(i));
        assert(dec_val(s.take(i)) <= dec_val(s.take(i + 1)));
    } else {
        assert(s.take(i) =~= s);
    }
}

/// Reads the digit run `s[i..e]` as a number, failing when its value
/// exceeds `max` (the behaviour of a bounded unsigned-number parser).
#[verifier::loop_isolation(false)]
pub fn parse_dec_range(s: &str, i: usize, e: usize, max: u64) -> (r: Option<u64>)
    requires
        i <= e <= s@.len(),
        all_digits(s@.subrange(i as int, e as int)),
    ensures
        dec_val(s@.subrange(i as int, e as int)) <= max <==> r is Some,
        r matches Some(v) ==> v == dec_val(s@.subrange(i as int, e as int)),
{
    let ghost d = s@.subrange(i as int, e as int);
    let mut acc: u64 = 0;
    let mut k: usize = i;
    while k < e
        invariant
            i <= k <= e <= s@.len(),
            d == s@.subrange(i as int, e as int),
            all_digits(d),
            acc == dec_val(d.take(k - i)),
            acc <= max,
        decreases e - k,
    {
        let c = s.get_char(k);
        proof {
            assert(d[k - i] == s@[k as int]);
            assert(is_digit(d[k - i]));
        }
        let dv = (c as u32 - '0' as u32) as u64;
        proof {
            assert(d.take(k - i + 1).drop_last() =~= d.take(k - i));
        }
        if acc > max / 10 || (acc == max / 10 && dv > max % 10) {
            proof {
                assert(acc * 10 + dv > max) by (nonlinear_arith)
                    requires
                        acc > max / 10 || (acc == max / 10 && dv > max % 10),
                        dv < 10,
                ;
                lemma_dec_val_prefix_le(d, k - i + 1);
            }
            return None;
        }
        proof {
            assert(acc * 10 + dv <= max) by (nonlinear_arith)
                requires
                    acc <= max / 10,
                    acc == max / 10 ==> dv <= max % 10,
                    0 <= dv < 10,
            ;
        }
        acc = acc * 10 + dv;
        k = k + 1;
    }
    proof {
        assert(d.take(e - i) =~= d);
    }
    Some(acc)
}

/// What `str::parse` makes of `s` for an unsigned target of ceiling `max`:
/// an optional leading `+`, then at least one digit, value at most `max`.
pub open spec fn spec_parse_uint(s: Seq<char>, max: u64) -> Option<u64> {
    let d = if s.len() > 0 && s[0] == '+' {
        s.skip(1)
    } else {
        s
    };
    if d.len() > 0 && all_digits(d) && dec_val(d) <= max {
        Some(dec_val(d) as u64)
    } else {
        None
    }
}

/// Parses a whole string as an unsigned decimal number as `str::parse` does.
pub fn parse_uint_str(s: &str, max: u64) -> (r: Option<u64>)
    ensures
        r == spec_parse_uint(s@, max),
{
    let n = s.unicode_len();
    let start: usize = if n > 0 && s.get_char(0) == '+' {
        1
    } else {
        0
    };
    let ghost d = if s@.len() > 0 && s@[0] == '+' {
        s@.skip(1)
    } else {
        s@
    };
    proof {
        assert(d =~= s@.subrange(start as int, n as int));
    }
    let e = find_scan_digits(s, start);
    proof {
        lemma_scan_while(s@, start as int, |c: char| is_digit(c));
    }
    if e < n {
        // A non-digit remains, so the whole string is not numeric.
        assert(!all_digits(d)) by {
            assert(d[e - start] == s@[e as int]);
        }
        return None;
    }
    if e == start {
        assert(d.len() == 0);
        return None;
    }
    assert(all_digits(d)) by {
        assert(forall|k: int| 0 <= k < d.len() ==> d[k] == #[trigger] s@[start + k]);
    }
    match parse_dec_range(s, start, e, max) {
        Some(v) => Some(v),
        None => None,
    }
}

} // verus!
