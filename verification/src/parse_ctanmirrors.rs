//! Parser for the mirror topology document: a nested associative-array
//! literal of the shape `$mirrors = { continent => { country => { url => 1,
//! ... }, ... }, ... };` with single-quoted names, insignificant whitespace
//! between tokens, and a trailing comma after every entry.
//!
//! The grammar is stated by the `spec_*` functions; the executable parsers
//! are proved to return exactly what they say.

use vstd::prelude::*;
use vstd::string::StrSliceExecFns;
use crate::text_util::{
    scan_while, lemma_scan_while, skip_ws, find_skip_ws, has_prefix_at, try_keyword, str_equal,
};

verus! {

// ---------------------------------------------------------------------------
// The topology as parsed: source order kept, nothing merged.
// ---------------------------------------------------------------------------

#[derive(Debug, Hash, PartialEq, Eq, Clone)]
pub struct BorrowedMirror(pub String);

#[derive(Debug, PartialEq, Eq, Clone)]
pub struct BorrowedCountryMirrors(pub Vec<BorrowedMirror>);

#[derive(Debug, PartialEq, Eq, Clone)]
pub struct BorrowedContinentMirrors(pub Vec<(String, BorrowedCountryMirrors)>);

#[derive(Debug, PartialEq, Eq, Clone)]
pub struct BorrowedMirrors(pub Vec<(String, BorrowedContinentMirrors)>);

impl DeepView for BorrowedMirror {
    type V = Seq<char>;

    open spec fn deep_view(&self) -> Seq<char> {
        self.0@
    }
}

impl DeepView for BorrowedCountryMirrors {
    type V = Seq<Seq<char>>;

    open spec fn deep_view(&self) -> Seq<Seq<char>> {
        self.0.deep_view()
    }
}

impl DeepView for BorrowedContinentMirrors {
    type V = Seq<(Seq<char>, Seq<Seq<char>>)>;

    open spec fn deep_view(&self) -> Seq<(Seq<char>, Seq<Seq<char>>)> {
        self.0.deep_view()
    }
}

impl DeepView for BorrowedMirrors {
    type V = Seq<(Seq<char>, Seq<(Seq<char>, Seq<Seq<char>>)>)>;

    open spec fn deep_view(&self) -> Seq<(Seq<char>, Seq<(Seq<char>, Seq<Seq<char>>)>)> {
        self.0.deep_view()
    }
}

// ---------------------------------------------------------------------------
// Grammar.
// ---------------------------------------------------------------------------

/// First position at or after `i` holding a quote, or the end of `s`.
pub open spec fn scan_to_quote(s: Seq<char>, i: int) -> int {
    scan_while(s, i, |c: char| c != '\'')
}

fn is_quote_at(s: &str, j: usize) -> (b: bool)
    requires
        j < s@.len(),
    ensures
        b == (s@[j as int] == '\''),
{
    s.get_char(j) == '\''
}

#[verifier::loop_isolation(false)]
fn find_scan_to_quote(s: &str, i: usize) -> (j: usize)
    requires
        i <= s@.len(),
    ensures
        j == scan_to_quote(s@, i as int),
        i <= j <= s@.len(),
{
    let n = s.unicode_len();
    let ghost p = |c: char| c != '\'';
    let mut j: usize = i;
    while j < n && !is_quote_at(s, j)
        invariant
            i <= j <= n,
            scan_while(s@, i as int, p) == scan_while(s@, j as int, p),
        decreases n - j,
    {
        proof {
            assert(p(s@[j as int]));
            assert(scan_while(s@, j as int, p) == scan_while(s@, j + 1, p));
        }
        j = j + 1;
    }
    proof {
        if j < n {
            assert(!p(s@[j as int]));
        }
        assert(scan_while(s@, j as int, p) == j);
    }
    j
}

/// A single-quoted string: at least one character, none of them a quote.
pub open spec fn spec_string_literal(s: Seq<char>, i: int) -> Option<(Seq<char>, int)> {
    if 0 <= i && i < s.len() && s[i] == '\'' {
        let e = scan_to_quote(s, i + 1);
        if e < s.len() && e > i + 1 {
            Some((s.subrange(i + 1, e), e + 1))
        } else {
            None
        }
    } else {
        None
    }
}

/// Parses a single-quoted string literal at `i`.
pub fn parse_string_literal(s: &str, i: usize) -> (r: Option<(String, usize)>)
    requires
        i <= s@.len(),
    ensures
        r is Some <==> spec_string_literal(s@, i as int) is Some,
        r matches Some((v, j)) ==> spec_string_literal(s@, i as int) == Some((v@, j as int))
            && i < j <= s@.len(),
{
    let n = s.unicode_len();
    if !(i < n && s.get_char(i) == '\'') {
        return None;
    }
    let e = find_scan_to_quote(s, i + 1);
    if e < n && e > i + 1 {
        let v = s.substring_char(i + 1, e).to_owned();
        Some((v, e + 1))
    } else {
        None
    }
}

/// One mirror entry: a quoted URL, `=>` and the literal `1`, whitespace
/// between the tokens.
pub open spec fn spec_mirror_entry(s: Seq<char>, i: int) -> Option<(Seq<char>, int)> {
    match spec_string_literal(s, i) {
        Some(uj) => {
            let k = skip_ws(s, uj.1);
            if has_prefix_at(s, k, "=>"@) {
                let m = skip_ws(s, k + "=>"@.len());
                if m < s.len() && s[m] == '1' {
                    Some((uj.0, m + 1))
                } else {
                    None
                }
            } else {
                None
            }
        },
        None => None,
    }
}

/// Parses one mirror entry at `i`.
pub fn parse_mirror_entry(s: &str, i: usize) -> (r: Option<(BorrowedMirror, usize)>)
    requires
        i <= s@.len(),
    ensures
        r is Some <==> spec_mirror_entry(s@, i as int) is Some,
        r matches Some((v, j)) ==> spec_mirror_entry(s@, i as int) == Some((v.deep_view(), j as int))
            && i < j <= s@.len(),
{
    let (url, j) = match parse_string_literal(s, i) {
        Some(x) => x,
        None => {
            return None;
        },
    };
    let k = find_skip_ws(s, j);
    let k2 = match try_keyword(s, k, "=>") {
        Some(x) => x,
        None => {
            return None;
        },
    };
    let m = find_skip_ws(s, k2);
    let n = s.unicode_len();
    if m < n && s.get_char(m) == '1' {
        Some((BorrowedMirror(url), m + 1))
    } else {
        None
    }
}

/// The entries of a mirror set: whitespace, an entry and its trailing comma,
/// whitespace, again and again; the list ends before the first stretch that
/// does not fit that shape.
pub open spec fn spec_mirror_list(s: Seq<char>, i: int) -> (Seq<Seq<char>>, int)
    decreases s.len() - i when 0 <= i <= s.len()
{
    let j = skip_ws(s, i);
    match spec_mirror_entry(s, j) {
        Some(uk) => if uk.1 < s.len() && s[uk.1] == ',' {
            let m = skip_ws(s, uk.1 + 1);
            if i < m && m <= s.len() {
                let r = spec_mirror_list(s, m);
                (seq![uk.0] + r.0, r.1)
            } else {
                (Seq::empty(), i)
            }
        } else {
            (Seq::empty(), i)
        },
        None => (Seq::empty(), i),
    }
}

/// Parses the entry list of a mirror set.
pub fn parse_mirror_list(s: &str, i: usize) -> (r: (Vec<BorrowedMirror>, usize))
    requires
        i <= s@.len(),
    ensures
        spec_mirror_list(s@, i as int).0 == r.0.deep_view(),
        spec_mirror_list(s@, i as int).1 == r.1,
        i <= r.1 <= s@.len(),
{
    let mut out: Vec<BorrowedMirror> = Vec::new();
    let mut pos: usize = i;
    let n = s.unicode_len();
    loop
        invariant
            i <= pos <= n == s@.len(),
            spec_mirror_list(s@, i as int).0 =~= out.deep_view() + spec_mirror_list(
                s@,
                pos as int,
            ).0,
            spec_mirror_list(s@, i as int).1 == spec_mirror_list(s@, pos as int).1,
        ensures
            i <= pos <= s@.len(),
            spec_mirror_list(s@, i as int).0 =~= out.deep_view(),
            spec_mirror_list(s@, i as int).1 == pos,
        decreases n - pos,
    {
        let j = find_skip_ws(s, pos);
        let stop: bool;
        let mut url_opt: Option<BorrowedMirror> = None;
        let mut next: usize = pos;
        match parse_mirror_entry(s, j) {
            None => {
                stop = true;
            },
            Some((u, k)) => {
                if k < n && s.get_char(k) == ',' {
                    let m = find_skip_ws(s, k + 1);
                    url_opt = Some(u);
                    next = m;
                    stop = false;
                } else {
                    stop = true;
                }
            },
        }
        if stop {
            proof {
                assert(spec_mirror_list(s@, pos as int).0 =~= Seq::<Seq<char>>::empty());
                assert(out.deep_view() + Seq::<Seq<char>>::empty() =~= out.deep_view());
            }
            break;
        }
        let u = match url_opt {
            Some(u) => u,
            None => {
                proof {
                    assert(false);
                }
                break;
            },
        };
        proof {
            assert(spec_mirror_list(s@, pos as int).0 =~= seq![u.deep_view()] + spec_mirror_list(
                s@,
                next as int,
            ).0);
            assert(spec_mirror_list(s@, pos as int).1 == spec_mirror_list(s@, next as int).1);
        }
        let ghost uv = u.deep_view();
        let ghost old_out = out.deep_view();
        out.push(u);
        proof {
            assert(out.deep_view() =~= old_out.push(uv));
            assert(old_out.push(uv) + spec_mirror_list(s@, next as int).0 =~= old_out + (seq![uv]
                + spec_mirror_list(s@, next as int).0));
        }
        pos = next;
    }
    (out, pos)
}

/// A mirror set: `{`, its entries, `}`.
pub open spec fn spec_mirror_set(s: Seq<char>, i: int) -> Option<(Seq<Seq<char>>, int)> {
    if 0 <= i && i < s.len() && s[i] == '{' {
        let r = spec_mirror_list(s, i + 1);
        if r.1 < s.len() && s[r.1] == '}' {
            Some((r.0, r.1 + 1))
        } else {
            None
        }
    } else {
        None
    }
}

/// Parses a mirror set at `i`.
pub fn parse_mirror_set(s: &str, i: usize) -> (r: Option<(BorrowedCountryMirrors, usize)>)
    requires
        i <= s@.len(),
    ensures
        r is Some <==> spec_mirror_set(s@, i as int) is Some,
        r matches Some((v, j)) ==> spec_mirror_set(s@, i as int) == Some((v.deep_view(), j as int))
            && i < j <= s@.len(),
{
    let n = s.unicode_len();
    if !(i < n && s.get_char(i) == '{') {
        return None;
    }
    let (l, e) = parse_mirror_list(s, i + 1);
    if e < n && s.get_char(e) == '}' {
        Some((BorrowedCountryMirrors(l), e + 1))
    } else {
        None
    }
}

} // verus!

verus! {

/// One country: a quoted name, `=>`, its mirror set, trailing whitespace.
pub open spec fn spec_country(s: Seq<char>, i: int) -> Option<
    ((Seq<char>, Seq<Seq<char>>), int),
> {
    match spec_string_literal(s, i) {
        Some(nj) => {
            let k = skip_ws(s, nj.1);
            if has_prefix_at(s, k, "=>"@) {
                let m = skip_ws(s, k + "=>"@.len());
                match spec_mirror_set(s, m) {
                    Some(se) => Some(((nj.0, se.0), skip_ws(s, se.1))),
                    None => None,
                }
            } else {
                None
            }
        },
        None => None,
    }
}

/// Parses one country at `i`.
pub fn parse_country(s: &str, i: usize) -> (r: Option<((String, BorrowedCountryMirrors), usize)>)
    requires
        i <= s@.len(),
    ensures
        r is Some <==> spec_country(s@, i as int) is Some,
        r matches Some(((nm, v), j)) ==> spec_country(s@, i as int) == Some(
            ((nm@, v.deep_view()), j as int),
        ) && i < j <= s@.len(),
{
    let (nm, j) = match parse_string_literal(s, i) {
        Some(x) => x,
        None => {
            return None;
        },
    };
    let k = find_skip_ws(s, j);
    let k2 = match try_keyword(s, k, "=>") {
        Some(x) => x,
        None => {
            return None;
        },
    };
    let m = find_skip_ws(s, k2);
    let (set, e) = match parse_mirror_set(s, m) {
        Some(x) => x,
        None => {
            return None;
        },
    };
    let f = find_skip_ws(s, e);
    Some(((nm, set), f))
}

/// The countries of a continent: whitespace, a country and its trailing
/// comma, whitespace, repeated.
pub open spec fn spec_country_list(s: Seq<char>, i: int) -> (
    Seq<(Seq<char>, Seq<Seq<char>>)>,
    int,
)
    decreases s.len() - i when 0 <= i <= s.len()
{
    let j = skip_ws(s, i);
    match spec_country(s, j) {
        Some(ck) => if ck.1 < s.len() && s[ck.1] == ',' {
            let m = skip_ws(s, ck.1 + 1);
            if i < m && m <= s.len() {
                let r = spec_country_list(s, m);
                (seq![ck.0] + r.0, r.1)
            } else {
                (Seq::empty(), i)
            }
        } else {
            (Seq::empty(), i)
        },
        None => (Seq::empty(), i),
    }
}

/// Parses the country list of a continent.
pub fn parse_country_list(s: &str, i: usize) -> (r: (Vec<(String, BorrowedCountryMirrors)>, usize))
    requires
        i <= s@.len(),
    ensures
        spec_country_list(s@, i as int).0 == r.0.deep_view(),
        spec_country_list(s@, i as int).1 == r.1,
        i <= r.1 <= s@.len(),
{
    let mut out: Vec<(String, BorrowedCountryMirrors)> = Vec::new();
    let mut pos: usize = i;
    let n = s.unicode_len();
    loop
        invariant
            i <= pos <= n == s@.len(),
            spec_country_list(s@, i as int).0 =~= out.deep_view() + spec_country_list(
                s@,
                pos as int,
            ).0,
            spec_country_list(s@, i as int).1 == spec_country_list(s@, pos as int).1,
        ensures
            i <= pos <= s@.len(),
            spec_country_list(s@, i as int).0 =~= out.deep_view(),
            spec_country_list(s@, i as int).1 == pos,
        decreases n - pos,
    {
        let j = find_skip_ws(s, pos);
        let stop: bool;
        let mut item: Option<(String, BorrowedCountryMirrors)> = None;
        let mut next: usize = pos;
        match parse_country(s, j) {
            None => {
                stop = true;
            },
            Some((c, k)) => {
                if k < n && s.get_char(k) == ',' {
                    let m = find_skip_ws(s, k + 1);
                    item = Some(c);
                    next = m;
                    stop = false;
                } else {
                    stop = true;
                }
            },
        }
        if stop {
            proof {
                assert(spec_country_list(s@, pos as int).0 =~= Seq::<
                    (Seq<char>, Seq<Seq<char>>),
                >::empty());
                assert(out.deep_view() + Seq::<(Seq<char>, Seq<Seq<char>>)>::empty()
                    =~= out.deep_view());
            }
            break;
        }
        let c = match item {
            Some(c) => c,
            None => {
                proof {
                    assert(false);
                }
                break;
            },
        };
        proof {
            assert(spec_country_list(s@, pos as int).0 =~= seq![c.deep_view()]
                + spec_country_list(s@, next as int).0);
            assert(spec_country_list(s@, pos as int).1 == spec_country_list(s@, next as int).1);
        }
        let ghost cv = c.deep_view();
        let ghost old_out = out.deep_view();
        out.push(c);
        proof {
            assert(out.deep_view() =~= old_out.push(cv));
            assert(old_out.push(cv) + spec_country_list(s@, next as int).0 =~= old_out + (seq![cv]
                + spec_country_list(s@, next as int).0));
        }
        pos = next;
    }
    (out, pos)
}

/// One continent: a quoted name, `=>`, `{`, its countries, `}`.
pub open spec fn spec_continent(s: Seq<char>, i: int) -> Option<
    ((Seq<char>, Seq<(Seq<char>, Seq<Seq<char>>)>), int),
> {
    match spec_string_literal(s, i) {
        Some(nj) => {
            let k = skip_ws(s, nj.1);
            if has_prefix_at(s, k, "=>"@) {
                let m = skip_ws(s, k + "=>"@.len());
                if m < s.len() && s[m] == '{' {
                    let r = spec_country_list(s, m + 1);
                    if r.1 < s.len() && s[r.1] == '}' {
                        Some(((nj.0, r.0), r.1 + 1))
                    } else {
                        None
                    }
                } else {
                    None
                }
            } else {
                None
            }
        },
        None => None,
    }
}

/// Parses one continent at `i`.
pub fn parse_continent(s: &str, i: usize) -> (r: Option<
    ((String, BorrowedContinentMirrors), usize),
>)
    requires
        i <= s@.len(),
    ensures
        r is Some <==> spec_continent(s@, i as int) is Some,
        r matches Some(((nm, v), j)) ==> spec_continent(s@, i as int) == Some(
            ((nm@, v.deep_view()), j as int),
        ) && i < j <= s@.len(),
{
    let (nm, j) = match parse_string_literal(s, i) {
        Some(x) => x,
        None => {
            return None;
        },
    };
    let k = find_skip_ws(s, j);
    let k2 = match try_keyword(s, k, "=>") {
        Some(x) => x,
        None => {
            return None;
        },
    };
    let m = find_skip_ws(s, k2);
    let n = s.unicode_len();
    if !(m < n && s.get_char(m) == '{') {
        return None;
    }
    let (l, e) = parse_country_list(s, m + 1);
    if e < n && s.get_char(e) == '}' {
        Some(((nm, BorrowedContinentMirrors(l)), e + 1))
    } else {
        None
    }
}

/// The continents of the document: whitespace, a continent and its trailing
/// comma, whitespace, repeated.
pub open spec fn spec_continent_list(s: Seq<char>, i: int) -> (
    Seq<(Seq<char>, Seq<(Seq<char>, Seq<Seq<char>>)>)>,
    int,
)
    decreases s.len() - i when 0 <= i <= s.len()
{
    let j = skip_ws(s, i);
    match spec_continent(s, j) {
        Some(ck) => if ck.1 < s.len() && s[ck.1] == ',' {
            let m = skip_ws(s, ck.1 + 1);
            if i < m && m <= s.len() {
                let r = spec_continent_list(s, m);
                (seq![ck.0] + r.0, r.1)
            } else {
                (Seq::empty(), i)
            }
        } else {
            (Seq::empty(), i)
        },
        None => (Seq::empty(), i),
    }
}

/// Parses the continent list of the document.
pub fn parse_continent_list(s: &str, i: usize) -> (r: (
    Vec<(String, BorrowedContinentMirrors)>,
    usize,
))
    requires
        i <= s@.len(),
    ensures
        spec_continent_list(s@, i as int).0 == r.0.deep_view(),
        spec_continent_list(s@, i as int).1 == r.1,
        i <= r.1 <= s@.len(),
{
    let mut out: Vec<(String, BorrowedContinentMirrors)> = Vec::new();
    let mut pos: usize = i;
    let n = s.unicode_len();
    loop
        invariant
            i <= pos <= n == s@.len(),
            spec_continent_list(s@, i as int).0 =~= out.deep_view() + spec_continent_list(
                s@,
                pos as int,
            ).0,
            spec_continent_list(s@, i as int).1 == spec_continent_list(s@, pos as int).1,
        ensures
            i <= pos <= s@.len(),
            spec_continent_list(s@, i as int).0 =~= out.deep_view(),
            spec_continent_list(s@, i as int).1 == pos,
        decreases n - pos,
    {
        let j = find_skip_ws(s, pos);
        let stop: bool;
        let mut item: Option<(String, BorrowedContinentMirrors)> = None;
        let mut next: usize = pos;
        match parse_continent(s, j) {
            None => {
                stop = true;
            },
            Some((c, k)) => {
                if k < n && s.get_char(k) == ',' {
                    let m = find_skip_ws(s, k + 1);
                    item = Some(c);
                    next = m;
                    stop = false;
                } else {
                    stop = true;
                }
            },
        }
        if stop {
            proof {
                assert(spec_continent_list(s@, pos as int).0 =~= Seq::<
                    (Seq<char>, Seq<(Seq<char>, Seq<Seq<char>>)>),
                >::empty());
                assert(out.deep_view() + Seq::<
                    (Seq<char>, Seq<(Seq<char>, Seq<Seq<char>>)>),
                >::empty() =~= out.deep_view());
            }
            break;
        }
        let c = match item {
            Some(c) => c,
            None => {
                proof {
                    assert(false);
                }
                break;
            },
        };
        proof {
            assert(spec_continent_list(s@, pos as int).0 =~= seq![c.deep_view()]
                + spec_continent_list(s@, next as int).0);
            assert(spec_continent_list(s@, pos as int).1 == spec_continent_list(
                s@,
                next as int,
            ).1);
        }
        let ghost cv = c.deep_view();
        let ghost old_out = out.deep_view();
        out.push(c);
        proof {
            assert(out.deep_view() =~= old_out.push(cv));
            assert(old_out.push(cv) + spec_continent_list(s@, next as int).0 =~= old_out + (seq![
                cv,
            ] + spec_continent_list(s@, next as int).0));
        }
        pos = next;
    }
    (out, pos)
}

/// The whole document: the fixed opening `$mirrors = {`, the continents,
/// and the fixed closing `};` with its newline.
pub open spec fn spec_parse_mirrors(s: Seq<char>, i: int) -> Option<
    (Seq<(Seq<char>, Seq<(Seq<char>, Seq<Seq<char>>)>)>, int),
> {
    if has_prefix_at(s, i, "$mirrors = {"@) {
        let r = spec_continent_list(s, i + "$mirrors = {"@.len());
        if has_prefix_at(s, r.1, "};\n"@) {
            Some((r.0, r.1 + "};\n"@.len()))
        } else {
            None
        }
    } else {
        None
    }
}

/// Parses the whole topology document starting at `i`.
pub fn parse_mirrors(s: &str, i: usize) -> (r: Option<(BorrowedMirrors, usize)>)
    requires
        i <= s@.len(),
    ensures
        r is Some <==> spec_parse_mirrors(s@, i as int) is Some,
        r matches Some((v, j)) ==> spec_parse_mirrors(s@, i as int) == Some(
            (v.deep_view(), j as int),
        ) && i <= j <= s@.len(),
{
    let d = match try_keyword(s, i, "$mirrors = {") {
        Some(x) => x,
        None => {
            return None;
        },
    };
    let (l, e) = parse_continent_list(s, d);
    match try_keyword(s, e, "};\n") {
        Some(j) => Some((BorrowedMirrors(l), j)),
        None => None,
    }
}

} // verus!

verus! {

// ---------------------------------------------------------------------------
// The owned topology: map-shaped, keys distinct, mirror sets without
// duplicates. Converting from the parsed form keeps, for every name that
// occurs, the value of its last occurrence (an earlier duplicate is
// overwritten), and drops repeated mirrors inside a set.
// ---------------------------------------------------------------------------

#[derive(Debug, Hash, PartialEq, Eq, Clone)]
pub struct Mirror(pub String);

#[derive(Debug, PartialEq, Eq, Clone)]
pub struct CountryMirrors(pub Vec<Mirror>);

#[derive(Debug, PartialEq, Eq, Clone)]
pub struct ContinentMirrors(pub Vec<(String, CountryMirrors)>);

#[derive(Debug, PartialEq, Eq, Clone)]
pub struct Mirrors(pub Vec<(String, ContinentMirrors)>);

impl DeepView for Mirror {
    type V = Seq<char>;

    open spec fn deep_view(&self) -> Seq<char> {
        self.0@
    }
}

impl DeepView for CountryMirrors {
    type V = Seq<Seq<char>>;

    open spec fn deep_view(&self) -> Seq<Seq<char>> {
        self.0.deep_view()
    }
}

impl DeepView for ContinentMirrors {
    type V = Seq<(Seq<char>, Seq<Seq<char>>)>;

    open spec fn deep_view(&self) -> Seq<(Seq<char>, Seq<Seq<char>>)> {
        self.0.deep_view()
    }
}

impl DeepView for Mirrors {
    type V = Seq<(Seq<char>, Seq<(Seq<char>, Seq<Seq<char>>)>)>;

    open spec fn deep_view(&self) -> Seq<(Seq<char>, Seq<(Seq<char>, Seq<Seq<char>>)>)> {
        self.0.deep_view()
    }
}

/// Same members, duplicates aside.
pub open spec fn set_equiv(a: Seq<Seq<char>>, b: Seq<Seq<char>>) -> bool {
    forall|x: Seq<char>| a.contains(x) <==> b.contains(x)
}

pub open spec fn no_dups(a: Seq<Seq<char>>) -> bool {
    forall|i: int, j: int| 0 <= i < j < a.len() ==> a[i] != a[j]
}

/// Position of the last pair keyed `k`, or a negative number if none is.
pub open spec fn last_key_index<V>(s: Seq<(Seq<char>, V)>, k: Seq<char>) -> int
    decreases s.len(),
{
    if s.len() == 0 {
        -1
    } else if s.last().0 == k {
        s.len() - 1
    } else {
        last_key_index(s.drop_last(), k)
    }
}

proof fn lemma_last_key_index_from_back<V>(s: Seq<(Seq<char>, V)>, i: int, k: Seq<char>)
    requires
        0 <= i < s.len(),
        s[i].0 == k,
        forall|j: int| i < j < s.len() ==> (#[trigger] s[j]).0 != k,
    ensures
        last_key_index(s, k) == i,
    decreases s.len(),
{
    if i < s.len() - 1 {
        assert(s.last().0 != k);
        assert(forall|j: int| 0 <= j < s.len() - 1 ==> (#[trigger] s.drop_last()[j]) == s[j]);
        lemma_last_key_index_from_back(s.drop_last(), i, k);
    }
}

/// The member test of an owned mirror set.
fn country_contains(v: &Vec<Mirror>, m: &str) -> (r: bool)
    ensures
        r <==> v.deep_view().contains(m@),
{
    let n = v.len();
    let mut i: usize = 0;
    while i < n
        invariant
            i <= n == v@.len(),
            forall|j: int| 0 <= j < i ==> v.deep_view()[j] != m@,
        decreases n - i,
    {
        proof {
            assert(v.deep_view()[i as int] == v@[i as int].deep_view());
        }
        if str_equal(v[i].0.as_str(), m) {
            assert(v.deep_view()[i as int] == m@);
            return true;
        }
        i = i + 1;
    }
    proof {
        if v.deep_view().contains(m@) {
            let j = choose|j: int| 0 <= j < v.deep_view().len() && v.deep_view()[j] == m@;
            assert(v.deep_view()[j] != m@);
        }
    }
    false
}

impl Mirror {
    /// Takes ownership of a parsed mirror.
    pub fn from_borrowed(b: BorrowedMirror) -> (r: Mirror)
        ensures
            r.deep_view() == b.deep_view(),
    {
        Mirror(b.0)
    }
}

impl CountryMirrors {
    /// The parsed mirror list as a set: same members, each kept once.
    pub fn from_borrowed(b: &BorrowedCountryMirrors) -> (r: CountryMirrors)
        ensures
            set_equiv(r.deep_view(), b.deep_view()),
            no_dups(r.deep_view()),
    {
        let ghost bv = b.deep_view();
        let mut out: Vec<Mirror> = Vec::new();
        let n = b.0.len();
        let mut i: usize = 0;
        while i < n
            invariant
                i <= n == b.0@.len(),
                bv == b.deep_view(),
                no_dups(out.deep_view()),
                forall|x: Seq<char>| out.deep_view().contains(x) <==> bv.take(i as int).contains(
                    x,
                ),
            decreases n - i,
        {
            proof {
                assert(bv[i as int] == b.0@[i as int].deep_view());
            }
            let m = &b.0[i];
            let ghost old_out = out.deep_view();
            if !country_contains(&out, m.0.as_str()) {
                out.push(Mirror(m.0.clone()));
                proof {
                    assert(out.deep_view() =~= old_out.push(bv[i as int]));
                }
            }
            proof {
                assert(forall|x: Seq<char>|
                    #[trigger] bv.take(i + 1).contains(x) <==> bv.take(i as int).contains(x) || x
                        == bv[i as int]) by {
                    assert(forall|j: int| 0 <= j < i ==> bv.take(i + 1)[j] == #[trigger] bv.take(
                        i as int,
                    )[j]);
                    assert(forall|j: int| 0 <= j < i + 1 ==> #[trigger] bv.take(i + 1)[j] == bv[j]);
                    assert(forall|j: int| 0 <= j < i ==> #[trigger] bv.take(i as int)[j] == bv[j]);
                    assert(bv.take(i + 1)[i as int] == bv[i as int]);
                }
                if old_out.contains(bv[i as int]) {
                    assert(forall|x: Seq<char>| out.deep_view().contains(x) <==> bv.take(
                        i + 1,
                    ).contains(x));
                } else {
                    let nv = out.deep_view();
                    assert(nv == old_out.push(bv[i as int]));
                    assert forall|x: Seq<char>| #[trigger] nv.contains(x) <==> (old_out.contains(x)
                        || x == bv[i as int]) by {
                        if old_out.contains(x) {
                            let j = choose|j: int|
                                0 <= j < old_out.len() && old_out[j] == x;
                            assert(nv[j] == x);
                            assert(nv.contains(x));
                        }
                        if x == bv[i as int] {
                            assert(nv[old_out.len() as int] == x);
                            assert(nv.contains(x));
                        }
                        if nv.contains(x) {
                            let j = choose|j: int| 0 <= j < nv.len() && nv[j] == x;
                            if j < old_out.len() {
                                assert(old_out[j] == x);
                                assert(old_out.contains(x));
                            } else {
                                assert(x == bv[i as int]);
                            }
                        }
                    }
                }
            }
            i = i + 1;
        }
        proof {
            assert(bv.take(n as int) =~= bv);
        }
        CountryMirrors(out)
    }
}

} // verus!

verus! {

/// One converted mirror list against its source: same members, kept once.
#[verifier::opaque]
pub open spec fn country_value_ok(v: Seq<Seq<char>>, src: Seq<Seq<char>>) -> bool {
    set_equiv(v, src) && no_dups(v)
}

/// Every entry of `r` holds, under a name that occurs in `b`, the converted
/// value of that name's last occurrence.
#[verifier::opaque]
pub open spec fn continent_entries_ok(
    r: Seq<(Seq<char>, Seq<Seq<char>>)>,
    b: Seq<(Seq<char>, Seq<Seq<char>>)>,
) -> bool {
    forall|j: int|
        0 <= j < r.len() ==> last_key_index(b, (#[trigger] r[j]).0) >= 0 && country_value_ok(
            r[j].1,
            b[last_key_index(b, r[j].0)].1,
        )
}

/// Every name of `b` from position `i` on occurs in `r`.
#[verifier::opaque]
pub open spec fn continent_keys_covered(
    r: Seq<(Seq<char>, Seq<Seq<char>>)>,
    b: Seq<(Seq<char>, Seq<Seq<char>>)>,
    i: int,
) -> bool {
    forall|i2: int|
        i <= i2 < b.len() ==> exists|j: int|
            0 <= j < r.len() && (#[trigger] r[j]).0 == (#[trigger] b[i2]).0
}

/// What converting one parsed continent guarantees: distinct country names,
/// every source name kept and none invented, each country carrying (as a
/// set) the mirrors of its name's last occurrence in the source.
pub open spec fn continent_conv_ok(
    r: Seq<(Seq<char>, Seq<Seq<char>>)>,
    b: Seq<(Seq<char>, Seq<Seq<char>>)>,
) -> bool {
    &&& crate::assoc::keys_unique(r)
    &&& continent_entries_ok(r, b)
    &&& continent_keys_covered(r, b, 0)
}

/// One converted continent against its source.
#[verifier::opaque]
pub open spec fn continent_value_ok(
    v: Seq<(Seq<char>, Seq<Seq<char>>)>,
    src: Seq<(Seq<char>, Seq<Seq<char>>)>,
) -> bool {
    continent_conv_ok(v, src)
}

/// As `continent_entries_ok`, one level up.
#[verifier::opaque]
pub open spec fn mirrors_entries_ok(
    r: Seq<(Seq<char>, Seq<(Seq<char>, Seq<Seq<char>>)>)>,
    b: Seq<(Seq<char>, Seq<(Seq<char>, Seq<Seq<char>>)>)>,
) -> bool {
    forall|j: int|
        0 <= j < r.len() ==> last_key_index(b, (#[trigger] r[j]).0) >= 0 && continent_value_ok(
            r[j].1,
            b[last_key_index(b, r[j].0)].1,
        )
}

/// As `continent_keys_covered`, one level up.
#[verifier::opaque]
pub open spec fn mirrors_keys_covered(
    r: Seq<(Seq<char>, Seq<(Seq<char>, Seq<Seq<char>>)>)>,
    b: Seq<(Seq<char>, Seq<(Seq<char>, Seq<Seq<char>>)>)>,
    i: int,
) -> bool {
    forall|i2: int|
        i <= i2 < b.len() ==> exists|j: int|
            0 <= j < r.len() && (#[trigger] r[j]).0 == (#[trigger] b[i2]).0
}

/// The same guarantee one level up: distinct continent names, every source
/// name kept, each continent converted from its name's last occurrence.
pub open spec fn mirrors_conv_ok(
    r: Seq<(Seq<char>, Seq<(Seq<char>, Seq<Seq<char>>)>)>,
    b: Seq<(Seq<char>, Seq<(Seq<char>, Seq<Seq<char>>)>)>,
) -> bool {
    &&& crate::assoc::keys_unique(r)
    &&& mirrors_entries_ok(r, b)
    &&& mirrors_keys_covered(r, b, 0)
}

fn continent_key_contains(v: &Vec<(String, CountryMirrors)>, k: &str) -> (r: bool)
    ensures
        r <==> exists|j: int|
            0 <= j < v.deep_view().len() && (#[trigger] v.deep_view()[j]).0 == k@,
{
    let n = v.len();
    let mut i: usize = 0;
    while i < n
        invariant
            i <= n == v@.len(),
            forall|j: int| 0 <= j < i ==> (#[trigger] v.deep_view()[j]).0 != k@,
        decreases n - i,
    {
        proof {
            assert(v.deep_view()[i as int] == v@[i as int].deep_view());
        }
        if str_equal(v[i].0.as_str(), k) {
            assert((v.deep_view()[i as int]).0 == k@);
            return true;
        }
        i = i + 1;
    }
    false
}

fn mirrors_key_contains(v: &Vec<(String, ContinentMirrors)>, k: &str) -> (r: bool)
    ensures
        r <==> exists|j: int|
            0 <= j < v.deep_view().len() && (#[trigger] v.deep_view()[j]).0 == k@,
{
    let n = v.len();
    let mut i: usize = 0;
    while i < n
        invariant
            i <= n == v@.len(),
            forall|j: int| 0 <= j < i ==> (#[trigger] v.deep_view()[j]).0 != k@,
        decreases n - i,
    {
        proof {
            assert(v.deep_view()[i as int] == v@[i as int].deep_view());
        }
        if str_equal(v[i].0.as_str(), k) {
            assert((v.deep_view()[i as int]).0 == k@);
            return true;
        }
        i = i + 1;
    }
    false
}

impl ContinentMirrors {
    /// The parsed continent as a map over country names.
    #[verifier::rlimit(60)]
    pub fn from_borrowed(b: &BorrowedContinentMirrors) -> (r: ContinentMirrors)
        ensures
            continent_conv_ok(r.deep_view(), b.deep_view()),
    {
        let ghost bv = b.deep_view();
        let ghost m = bv.len() as int;
        let mut out: Vec<(String, CountryMirrors)> = Vec::new();
        let mut i: usize = b.0.len();
        proof {
            assert(continent_entries_ok(out.deep_view(), bv)) by {
                reveal(continent_entries_ok);
            }
            assert(continent_keys_covered(out.deep_view(), bv, m)) by {
                reveal(continent_keys_covered);
            }
        }
        while i > 0
            invariant
                i <= b.0@.len(),
                bv == b.deep_view(),
                m == bv.len(),
                crate::assoc::keys_unique(out.deep_view()),
                continent_entries_ok(out.deep_view(), bv),
                continent_keys_covered(out.deep_view(), bv, i as int),
            decreases i,
        {
            i = i - 1;
            proof {
                assert(bv[i as int] == b.0@[i as int].deep_view());
            }
            let pair = &b.0[i];
            let ghost ov = out.deep_view();
            if !continent_key_contains(&out, pair.0.as_str()) {
                proof {
                    assert forall|i2: int| i < i2 < m implies (#[trigger] bv[i2]).0 != bv[i as int].0 by {
                        reveal(continent_keys_covered);
                        if bv[i2].0 == bv[i as int].0 {
                            assert(exists|j: int|
                                0 <= j < ov.len() && (#[trigger] ov[j]).0 == bv[i2].0);
                        }
                    }
                    lemma_last_key_index_from_back(bv, i as int, bv[i as int].0);
                }
                let converted = CountryMirrors::from_borrowed(&pair.1);
                out.push((pair.0.clone(), converted));
                proof {
                    let nv = out.deep_view();
                    assert(nv =~= ov.push((bv[i as int].0, converted.deep_view())));
                    assert(crate::assoc::keys_unique(nv)) by {
                        assert(forall|a: int| 0 <= a < ov.len() ==> (#[trigger] nv[a]) == ov[a]);
                        assert(nv[ov.len() as int].0 == bv[i as int].0);
                    }
                    assert(continent_entries_ok(nv, bv)) by {
                        reveal(continent_entries_ok);
                        assert(country_value_ok(converted.deep_view(), bv[i as int].1)) by {
                            reveal(country_value_ok);
                        }
                        assert forall|j: int|
                            0 <= j < nv.len() implies last_key_index(bv, (#[trigger] nv[j]).0) >= 0
                                && country_value_ok(nv[j].1, bv[last_key_index(bv, nv[j].0)].1) by {
                            if j < ov.len() {
                                assert(nv[j] == ov[j]);
                            } else {
                                assert(nv[j] == (bv[i as int].0, converted.deep_view()));
                                assert(last_key_index(bv, nv[j].0) == i);
                            }
                        }
                    }
                    assert(continent_keys_covered(nv, bv, i as int)) by {
                        reveal(continent_keys_covered);
                        assert forall|i2: int| i <= i2 < m implies exists|j: int|
                            0 <= j < nv.len() && (#[trigger] nv[j]).0 == (#[trigger] bv[i2]).0 by {
                            if i2 == i {
                                assert(nv[ov.len() as int].0 == bv[i as int].0);
                            } else {
                                let j = choose|j: int| 0 <= j < ov.len() && ov[j].0 == bv[i2].0;
                                assert(nv[j].0 == bv[i2].0);
                            }
                        }
                    }
                }
            } else {
                proof {
                    assert(continent_keys_covered(ov, bv, i as int)) by {
                        reveal(continent_keys_covered);
                        assert forall|i2: int| i <= i2 < m implies exists|j: int|
                            0 <= j < ov.len() && (#[trigger] ov[j]).0 == (#[trigger] bv[i2]).0 by {
                            if i2 == i {
                                let j = choose|j: int|
                                    0 <= j < ov.len() && ov[j].0 == bv[i as int].0;
                                assert(ov[j].0 == bv[i2].0);
                            }
                        }
                    }
                }
            }
        }
        ContinentMirrors(out)
    }
}

impl Mirrors {
    /// The parsed document as a map over continent names.
    #[verifier::rlimit(60)]
    pub fn from_borrowed(b: &BorrowedMirrors) -> (r: Mirrors)
        ensures
            mirrors_conv_ok(r.deep_view(), b.deep_view()),
    {
        let ghost bv = b.deep_view();
        let ghost m = bv.len() as int;
        let mut out: Vec<(String, ContinentMirrors)> = Vec::new();
        let mut i: usize = b.0.len();
        proof {
            assert(mirrors_entries_ok(out.deep_view(), bv)) by {
                reveal(mirrors_entries_ok);
            }
            assert(mirrors_keys_covered(out.deep_view(), bv, m)) by {
                reveal(mirrors_keys_covered);
            }
        }
        while i > 0
            invariant
                i <= b.0@.len(),
                bv == b.deep_view(),
                m == bv.len(),
                crate::assoc::keys_unique(out.deep_view()),
                mirrors_entries_ok(out.deep_view(), bv),
                mirrors_keys_covered(out.deep_view(), bv, i as int),
            decreases i,
        {
            i = i - 1;
            proof {
                assert(bv[i as int] == b.0@[i as int].deep_view());
            }
            let pair = &b.0[i];
            let ghost ov = out.deep_view();
            if !mirrors_key_contains(&out, pair.0.as_str()) {
                proof {
                    assert forall|i2: int| i < i2 < m implies (#[trigger] bv[i2]).0 != bv[i as int].0 by {
                        reveal(mirrors_keys_covered);
                        if bv[i2].0 == bv[i as int].0 {
                            assert(exists|j: int|
                                0 <= j < ov.len() && (#[trigger] ov[j]).0 == bv[i2].0);
                        }
                    }
                    lemma_last_key_index_from_back(bv, i as int, bv[i as int].0);
                }
                let converted = ContinentMirrors::from_borrowed(&pair.1);
                out.push((pair.0.clone(), converted));
                proof {
                    let nv = out.deep_view();
                    assert(nv =~= ov.push((bv[i as int].0, converted.deep_view())));
                    assert(crate::assoc::keys_unique(nv)) by {
                        assert(forall|a: int| 0 <= a < ov.len() ==> (#[trigger] nv[a]) == ov[a]);
                        assert(nv[ov.len() as int].0 == bv[i as int].0);
                    }
                    assert(mirrors_entries_ok(nv, bv)) by {
                        reveal(mirrors_entries_ok);
                        assert(continent_value_ok(converted.deep_view(), bv[i as int].1)) by {
                            reveal(continent_value_ok);
                        }
                        assert forall|j: int|
                            0 <= j < nv.len() implies last_key_index(bv, (#[trigger] nv[j]).0) >= 0
                                && continent_value_ok(
                                nv[j].1,
                                bv[last_key_index(bv, nv[j].0)].1,
                            ) by {
                            if j < ov.len() {
                                assert(nv[j] == ov[j]);
                            } else {
                                assert(nv[j] == (bv[i as int].0, converted.deep_view()));
                                assert(last_key_index(bv, nv[j].0) == i);
                            }
                        }
                    }
                    assert(mirrors_keys_covered(nv, bv, i as int)) by {
                        reveal(mirrors_keys_covered);
                        assert forall|i2: int| i <= i2 < m implies exists|j: int|
                            0 <= j < nv.len() && (#[trigger] nv[j]).0 == (#[trigger] bv[i2]).0 by {
                            if i2 == i {
                                assert(nv[ov.len() as int].0 == bv[i as int].0);
                            } else {
                                let j = choose|j: int| 0 <= j < ov.len() && ov[j].0 == bv[i2].0;
                                assert(nv[j].0 == bv[i2].0);
                            }
                        }
                    }
                }
            } else {
                proof {
                    assert(mirrors_keys_covered(ov, bv, i as int)) by {
                        reveal(mirrors_keys_covered);
                        assert forall|i2: int| i <= i2 < m implies exists|j: int|
                            0 <= j < ov.len() && (#[trigger] ov[j]).0 == (#[trigger] bv[i2]).0 by {
                            if i2 == i {
                                let j = choose|j: int|
                                    0 <= j < ov.len() && ov[j].0 == bv[i as int].0;
                                assert(ov[j].0 == bv[i2].0);
                            }
                        }
                    }
                }
            }
        }
        Mirrors(out)
    }
}

} // verus!

verus! {

// ---------------------------------------------------------------------------
// Serialization: the canonical text of a parsed topology, in source order
// with no decorative whitespace. Parsing it back yields the structure it
// was printed from (see the round-trip law below).
// ---------------------------------------------------------------------------

pub open spec fn ser_entry(url: Seq<char>) -> Seq<char> {
    seq!['\''] + url + seq!['\'', '=', '>', '1', ',']
}

pub open spec fn ser_mirror_list(l: Seq<Seq<char>>) -> Seq<char>
    decreases l.len(),
{
    if l.len() == 0 {
        Seq::empty()
    } else {
        ser_entry(l[0]) + ser_mirror_list(l.skip(1))
    }
}

pub open spec fn ser_country(name: Seq<char>, mirrors: Seq<Seq<char>>) -> Seq<char> {
    seq!['\''] + name + seq!['\'', '=', '>', '{'] + ser_mirror_list(mirrors) + seq!['}', ',']
}

pub open spec fn ser_country_list(l: Seq<(Seq<char>, Seq<Seq<char>>)>) -> Seq<char>
    decreases l.len(),
{
    if l.len() == 0 {
        Seq::empty()
    } else {
        ser_country(l[0].0, l[0].1) + ser_country_list(l.skip(1))
    }
}

pub open spec fn ser_continent(
    name: Seq<char>,
    countries: Seq<(Seq<char>, Seq<Seq<char>>)>,
) -> Seq<char> {
    seq!['\''] + name + seq!['\'', '=', '>', '{'] + ser_country_list(countries) + seq!['}', ',']
}

pub open spec fn ser_continent_list(
    l: Seq<(Seq<char>, Seq<(Seq<char>, Seq<Seq<char>>)>)>,
) -> Seq<char>
    decreases l.len(),
{
    if l.len() == 0 {
        Seq::empty()
    } else {
        ser_continent(l[0].0, l[0].1) + ser_continent_list(l.skip(1))
    }
}

pub open spec fn ser_mirrors(m: Seq<(Seq<char>, Seq<(Seq<char>, Seq<Seq<char>>)>)>) -> Seq<
    char,
> {
    seq!['$', 'm', 'i', 'r', 'r', 'o', 'r', 's', ' ', '=', ' ', '{'] + ser_continent_list(m) + seq![
        '}',
        ';',
        '\n',
    ]
}

fn append_quoted(out: &mut String, v: &str)
    ensures
        final(out)@ == old(out)@ + seq!['\''] + v@ + seq!['\''],
{
    proof {
        reveal_strlit("'");
    }
    out.append("'");
    out.append(v);
    out.append("'");
    proof {
        assert(out@ =~= old(out)@ + seq!['\''] + v@ + seq!['\'']);
    }
}

/// Prints a parsed topology back as topology text, entry for entry in its
/// own order.
pub fn serialize_mirrors(m: &BorrowedMirrors) -> (r: String)
    ensures
        r@ == ser_mirrors(m.deep_view()),
{
    let ghost mv = m.deep_view();
    let mut out = String::new();
    proof {
        reveal_strlit("$mirrors = {");
        assert("$mirrors = {"@ =~= seq!['$', 'm', 'i', 'r', 'r', 'o', 'r', 's', ' ', '=', ' ', '{']);
    }
    out.append("$mirrors = {");
    proof {
        assert(mv.skip(0) =~= mv);
        assert(out@ =~= seq!['$', 'm', 'i', 'r', 'r', 'o', 'r', 's', ' ', '=', ' ', '{']);
    }
    let nc = m.0.len();
    let mut c: usize = 0;
    while c < nc
        invariant
            c <= nc == m.0@.len(),
            mv == m.deep_view(),
            out@ + ser_continent_list(mv.skip(c as int)) == seq![
                '$', 'm', 'i', 'r', 'r', 'o', 'r', 's', ' ', '=', ' ', '{',
            ] + ser_continent_list(mv),
        decreases nc - c,
    {
        proof {
            assert(mv[c as int] == m.0@[c as int].deep_view());
            assert(mv.skip(c as int)[0] == mv[c as int]);
            assert(mv.skip(c as int).skip(1) =~= mv.skip(c + 1));
        }
        let ghost before = out@;
        let pair = &m.0[c];
        append_quoted(&mut out, pair.0.as_str());
        proof {
            reveal_strlit("=>{");
            assert("=>{"@ =~= seq!['=', '>', '{']);
        }
        out.append("=>{");
        let nk = pair.1.0.len();
        let ghost cv = mv[c as int].1;
        proof {
            assert(cv.skip(0) =~= cv);
            assert(out@ =~= before + seq!['\''] + mv[c as int].0 + seq!['\'', '=', '>', '{']);
        }
        let mut k: usize = 0;
        while k < nk
            invariant
                k <= nk == pair.1.0@.len(),
                cv == pair.1.deep_view(),
                out@ + ser_country_list(cv.skip(k as int)) == before + seq!['\''] + mv[c as int].0
                    + seq!['\'', '=', '>', '{'] + ser_country_list(cv),
            decreases nk - k,
        {
            proof {
                assert(cv[k as int] == pair.1.0@[k as int].deep_view());
                assert(cv.skip(k as int)[0] == cv[k as int]);
                assert(cv.skip(k as int).skip(1) =~= cv.skip(k + 1));
            }
            let ghost before_k = out@;
            let country = &pair.1.0[k];
            append_quoted(&mut out, country.0.as_str());
            proof {
                reveal_strlit("=>{");
                assert("=>{"@ =~= seq!['=', '>', '{']);
            }
            out.append("=>{");
            let nu = country.1.0.len();
            let ghost kv = cv[k as int].1;
            proof {
                assert(kv.skip(0) =~= kv);
                assert(out@ =~= before_k + seq!['\''] + cv[k as int].0 + seq!['\'', '=', '>', '{']);
            }
            let mut u: usize = 0;
            while u < nu
                invariant
                    u <= nu == country.1.0@.len(),
                    kv == country.1.deep_view(),
                    out@ + ser_mirror_list(kv.skip(u as int)) == before_k + seq!['\''] + cv[
                        k as int
                    ].0 + seq!['\'', '=', '>', '{'] + ser_mirror_list(kv),
                decreases nu - u,
            {
                proof {
                    assert(kv[u as int] == country.1.0@[u as int].deep_view());
                    assert(kv.skip(u as int)[0] == kv[u as int]);
                    assert(kv.skip(u as int).skip(1) =~= kv.skip(u + 1));
                }
                append_quoted(&mut out, country.1.0[u].0.as_str());
                proof {
                    reveal_strlit("=>1,");
                    assert("=>1,"@ =~= seq!['=', '>', '1', ',']);
                }
                out.append("=>1,");
                proof {
                    assert(out@ + ser_mirror_list(kv.skip(u + 1)) =~= before_k + seq!['\''] + cv[
                        k as int
                    ].0 + seq!['\'', '=', '>', '{'] + ser_mirror_list(kv));
                }
                u = u + 1;
            }
            proof {
                assert(kv.skip(nu as int) =~= Seq::<Seq<char>>::empty());
                assert(ser_mirror_list(kv.skip(nu as int)) =~= Seq::<char>::empty());
            }
            proof {
                reveal_strlit("},");
                assert("},"@ =~= seq!['}', ',']);
            }
            out.append("},");
            proof {
                assert(out@ =~= before_k + ser_country(cv[k as int].0, cv[k as int].1));
                assert(out@ + ser_country_list(cv.skip(k + 1)) =~= before + seq!['\''] + mv[
                    c as int
                ].0 + seq!['\'', '=', '>', '{'] + ser_country_list(cv));
            }
            k = k + 1;
        }
        proof {
            assert(cv.skip(nk as int) =~= Seq::<(Seq<char>, Seq<Seq<char>>)>::empty());
            assert(ser_country_list(cv.skip(nk as int)) =~= Seq::<char>::empty());
        }
        proof {
            reveal_strlit("},");
            assert("},"@ =~= seq!['}', ',']);
        }
        out.append("},");
        proof {
            assert(out@ =~= before + ser_continent(mv[c as int].0, mv[c as int].1));
            assert(out@ + ser_continent_list(mv.skip(c + 1)) =~= seq![
                '$', 'm', 'i', 'r', 'r', 'o', 'r', 's', ' ', '=', ' ', '{',
            ] + ser_continent_list(mv));
        }
        c = c + 1;
    }
    proof {
        assert(mv.skip(nc as int) =~= Seq::<
            (Seq<char>, Seq<(Seq<char>, Seq<Seq<char>>)>),
        >::empty());
        assert(ser_continent_list(mv.skip(nc as int)) =~= Seq::<char>::empty());
    }
    proof {
        reveal_strlit("};\n");
        assert("};\n"@ =~= seq!['}', ';', '\n']);
    }
    out.append("};\n");
    proof {
        assert(out@ =~= ser_mirrors(mv));
    }
    out
}

} // verus!

verus! {

// ---------------------------------------------------------------------------
// The round trip: parsing serialized topology text yields exactly the
// structure it was printed from.
// ---------------------------------------------------------------------------

/// A name or URL that survives quoting: non-empty, holding no quote
/// character (the format itself cannot carry one).
pub open spec fn text_ok(s: Seq<char>) -> bool {
    s.len() > 0 && forall|i: int| 0 <= i < s.len() ==> s[i] != '\''
}

pub open spec fn urls_ok(l: Seq<Seq<char>>) -> bool {
    forall|u: int| 0 <= u < l.len() ==> text_ok(#[trigger] l[u])
}

pub open spec fn countries_ok(l: Seq<(Seq<char>, Seq<Seq<char>>)>) -> bool {
    forall|k: int| 0 <= k < l.len() ==> text_ok((#[trigger] l[k]).0) && urls_ok(l[k].1)
}

/// Every name and URL in the topology survives quoting.
pub open spec fn topology_text_ok(m: Seq<(Seq<char>, Seq<(Seq<char>, Seq<Seq<char>>)>)>) -> bool {
    forall|c: int| 0 <= c < m.len() ==> text_ok((#[trigger] m[c]).0) && countries_ok(m[c].1)
}

proof fn lemma_scan_to_quote_exact(s: Seq<char>, i: int, e: int)
    requires
        0 <= i <= e < s.len(),
        forall|k: int| i <= k < e ==> s[k] != '\'',
        s[e] == '\'',
    ensures
        scan_to_quote(s, i) == e,
    decreases e - i,
{
    if i < e {
        lemma_scan_to_quote_exact(s, i + 1, e);
    }
}

proof fn lemma_skip_ws_stay(s: Seq<char>, i: int)
    requires
        0 <= i <= s.len(),
        i < s.len() ==> !crate::text_util::is_space(s[i]),
    ensures
        skip_ws(s, i) == i,
{
}

proof fn lemma_parse_ser_literal(s: Seq<char>, i: int, v: Seq<char>)
    requires
        0 <= i,
        text_ok(v),
        i + v.len() + 2 <= s.len(),
        s.subrange(i, i + v.len() + 2) == seq!['\''] + v + seq!['\''],
    ensures
        spec_string_literal(s, i) == Some((v, i + v.len() + 2)),
{
    let t = seq!['\''] + v + seq!['\''];
    assert forall|k: int| 0 <= k < t.len() implies s[i + k] == t[k] by {
        assert(s.subrange(i, i + v.len() + 2)[k] == s[i + k]);
    }
    assert(t[0] == '\'');
    assert(s[i] == '\'');
    assert(t[v.len() as int + 1] == '\'');
    assert(s[i + v.len() + 1] == '\'');
    assert forall|k: int| i + 1 <= k < i + 1 + v.len() implies s[k] != '\'' by {
        assert(t[k - i] == v[k - i - 1]);
        assert(s[k] == v[k - i - 1]);
    }
    lemma_scan_to_quote_exact(s, i + 1, i + 1 + v.len());
    assert(s.subrange(i + 1, i + 1 + v.len()) =~= v) by {
        assert forall|k: int| 0 <= k < v.len() implies s.subrange(i + 1, i + 1 + v.len())[k] == v[
            k
        ] by {
            assert(s.subrange(i + 1, i + 1 + v.len())[k] == s[i + 1 + k]);
            assert(t[1 + k] == v[k]);
        }
    }
}

proof fn lemma_parse_ser_entry(s: Seq<char>, i: int, url: Seq<char>)
    requires
        0 <= i,
        text_ok(url),
        i + ser_entry(url).len() <= s.len(),
        s.subrange(i, i + ser_entry(url).len()) == ser_entry(url),
    ensures
        ser_entry(url).len() == url.len() + 6,
        spec_mirror_entry(s, i) == Some((url, i + url.len() + 5)),
        s[i + url.len() + 5] == ',',
{
    let lth = url.len() as int;
    let t = ser_entry(url);
    assert forall|k: int| 0 <= k < lth + 6 implies s[i + k] == t[k] by {
        assert(s.subrange(i, i + t.len())[k] == s[i + k]);
    }
    assert(s.subrange(i, i + lth + 2) =~= seq!['\''] + url + seq!['\'']) by {
        assert forall|k: int| 0 <= k < lth + 2 implies s.subrange(i, i + lth + 2)[k] == (seq![
            '\'',
        ] + url + seq!['\''])[k] by {
            assert(s.subrange(i, i + lth + 2)[k] == s[i + k]);
            assert(t[k] == (seq!['\''] + url + seq!['\'', '=', '>', '1', ','])[k]);
        }
    }
    lemma_parse_ser_literal(s, i, url);
    let j = i + lth + 2;
    assert(t[lth + 2] == '=');
    assert(t[lth + 3] == '>');
    assert(t[lth + 4] == '1');
    assert(t[lth + 5] == ',');
    assert(s[j] == '=');
    assert(s[j + 1] == '>');
    assert(s[j + 2] == '1');
    assert(s[j + 3] == ',');
    lemma_skip_ws_stay(s, j);
    reveal_strlit("=>");
    assert("=>"@ =~= seq!['=', '>']);
    assert(s.subrange(j, j + 2) =~= seq!['=', '>']);
    assert(has_prefix_at(s, j, "=>"@));
    lemma_skip_ws_stay(s, j + 2);
}

proof fn lemma_parse_ser_mirror_list(s: Seq<char>, i: int, l: Seq<Seq<char>>)
    requires
        0 <= i,
        urls_ok(l),
        i + ser_mirror_list(l).len() < s.len(),
        s.subrange(i, i + ser_mirror_list(l).len()) == ser_mirror_list(l),
        s[i + ser_mirror_list(l).len()] == '}',
    ensures
        spec_mirror_list(s, i) == (l, i + ser_mirror_list(l).len()),
    decreases l.len(),
{
    let t = ser_mirror_list(l);
    assert forall|k: int| 0 <= k < t.len() implies s[i + k] == t[k] by {
        assert(s.subrange(i, i + t.len())[k] == s[i + k]);
    }
    if l.len() == 0 {
        assert(s[i] == '}');
        lemma_skip_ws_stay(s, i);
        assert(spec_string_literal(s, i) is None);
        assert(spec_mirror_entry(s, i) is None);
    } else {
        let e0 = ser_entry(l[0]);
        let rest = ser_mirror_list(l.skip(1));
        assert(t =~= e0 + rest);
        assert(s.subrange(i, i + e0.len()) =~= e0);
        assert(text_ok(l[0]));
        lemma_parse_ser_entry(s, i, l[0]);
        let k = i + l[0].len() + 5;
        assert(s[i] == '\'');
        lemma_skip_ws_stay(s, i);
        assert(s[k] == ',');
        let m = k + 1;
        assert(m == i + e0.len());
        assert(s.subrange(m, m + rest.len()) =~= rest) by {
            assert forall|u: int| 0 <= u < rest.len() implies s.subrange(m, m + rest.len())[u]
                == rest[u] by {
                assert(s.subrange(m, m + rest.len())[u] == s[m + u]);
                assert(s[m + u] == t[e0.len() + u]);
                assert(t[e0.len() + u] == (e0 + rest)[e0.len() + u]);
            }
        }
        assert(urls_ok(l.skip(1))) by {
            assert(forall|u: int| 0 <= u < l.len() - 1 ==> (#[trigger] l.skip(1)[u]) == l[u + 1]);
        }
        if l.len() == 1 {
            assert(s[m] == '}');
        } else {
            assert(rest[0] == '\'');
            assert(s[m] == '\'');
        }
        lemma_skip_ws_stay(s, m);
        lemma_parse_ser_mirror_list(s, m, l.skip(1));
        assert(spec_mirror_list(s, m) == (l.skip(1), i + t.len()));
        assert(seq![l[0]] + l.skip(1) =~= l);
    }
}

proof fn lemma_parse_ser_mirror_set(s: Seq<char>, i: int, l: Seq<Seq<char>>)
    requires
        0 <= i,
        urls_ok(l),
        i + ser_mirror_list(l).len() + 2 <= s.len(),
        s.subrange(i, i + ser_mirror_list(l).len() + 2) == seq!['{'] + ser_mirror_list(l) + seq![
            '}',
        ],
    ensures
        spec_mirror_set(s, i) == Some((l, i + ser_mirror_list(l).len() + 2)),
{
    let t = seq!['{'] + ser_mirror_list(l) + seq!['}'];
    let ln = ser_mirror_list(l).len() as int;
    assert forall|k: int| 0 <= k < t.len() implies s[i + k] == t[k] by {
        assert(s.subrange(i, i + t.len())[k] == s[i + k]);
    }
    assert(t[0] == '{');
    assert(s[i] == '{');
    assert(t[1 + ln] == '}');
    assert(s[i + 1 + ln] == '}');
    assert(s.subrange(i + 1, i + 1 + ln) =~= ser_mirror_list(l)) by {
        assert forall|k: int| 0 <= k < ln implies s.subrange(i + 1, i + 1 + ln)[k]
            == ser_mirror_list(l)[k] by {
            assert(s.subrange(i + 1, i + 1 + ln)[k] == s[i + 1 + k]);
            assert(t[1 + k] == ser_mirror_list(l)[k]);
        }
    }
    lemma_parse_ser_mirror_list(s, i + 1, l);
}

} // verus!

verus! {

proof fn lemma_parse_ser_country(s: Seq<char>, i: int, name: Seq<char>, mirrors: Seq<Seq<char>>)
    requires
        0 <= i,
        text_ok(name),
        urls_ok(mirrors),
        i + ser_country(name, mirrors).len() <= s.len(),
        s.subrange(i, i + ser_country(name, mirrors).len()) == ser_country(name, mirrors),
    ensures
        ser_country(name, mirrors).len() == name.len() + ser_mirror_list(mirrors).len() + 7,
        spec_country(s, i) == Some(
            ((name, mirrors), i + ser_country(name, mirrors).len() - 1),
        ),
        s[i + ser_country(name, mirrors).len() - 1] == ',',
{
    let lth = name.len() as int;
    let ln = ser_mirror_list(mirrors).len() as int;
    let t = ser_country(name, mirrors);
    assert forall|k: int| 0 <= k < t.len() implies s[i + k] == t[k] by {
        assert(s.subrange(i, i + t.len())[k] == s[i + k]);
    }
    assert(s.subrange(i, i + lth + 2) =~= seq!['\''] + name + seq!['\'']) by {
        assert forall|k: int| 0 <= k < lth + 2 implies s.subrange(i, i + lth + 2)[k] == (seq![
            '\'',
        ] + name + seq!['\''])[k] by {
            assert(s.subrange(i, i + lth + 2)[k] == s[i + k]);
            assert(t[k] == (seq!['\''] + name + seq!['\'', '=', '>', '{'])[k]);
        }
    }
    lemma_parse_ser_literal(s, i, name);
    let j = i + lth + 2;
    assert(t[lth + 2] == '=');
    assert(t[lth + 3] == '>');
    assert(t[lth + 4] == '{');
    assert(s[j] == '=');
    assert(s[j + 1] == '>');
    assert(s[j + 2] == '{');
    lemma_skip_ws_stay(s, j);
    reveal_strlit("=>");
    assert("=>"@ =~= seq!['=', '>']);
    assert(s.subrange(j, j + 2) =~= seq!['=', '>']);
    assert(has_prefix_at(s, j, "=>"@));
    lemma_skip_ws_stay(s, j + 2);
    let sm = j + 2;
    assert(s.subrange(sm, sm + ln + 2) =~= seq!['{'] + ser_mirror_list(mirrors) + seq!['}']) by {
        assert forall|k: int| 0 <= k < ln + 2 implies s.subrange(sm, sm + ln + 2)[k] == (seq![
            '{',
        ] + ser_mirror_list(mirrors) + seq!['}'])[k] by {
            assert(s.subrange(sm, sm + ln + 2)[k] == s[sm + k]);
            assert(s[sm + k] == t[lth + 4 + k]);
            assert(t[lth + 4 + k] == (seq!['{'] + ser_mirror_list(mirrors) + seq!['}', ','])[k]);
        }
    }
    lemma_parse_ser_mirror_set(s, sm, mirrors);
    let se = sm + ln + 2;
    assert(t[lth + ln + 6] == ',');
    assert(s[se] == ',');
    lemma_skip_ws_stay(s, se);
}

proof fn lemma_parse_ser_country_list(s: Seq<char>, i: int, l: Seq<(Seq<char>, Seq<Seq<char>>)>)
    requires
        0 <= i,
        countries_ok(l),
        i + ser_country_list(l).len() < s.len(),
        s.subrange(i, i + ser_country_list(l).len()) == ser_country_list(l),
        s[i + ser_country_list(l).len()] == '}',
    ensures
        spec_country_list(s, i) == (l, i + ser_country_list(l).len()),
    decreases l.len(),
{
    let t = ser_country_list(l);
    assert forall|k: int| 0 <= k < t.len() implies s[i + k] == t[k] by {
        assert(s.subrange(i, i + t.len())[k] == s[i + k]);
    }
    if l.len() == 0 {
        assert(s[i] == '}');
        lemma_skip_ws_stay(s, i);
        assert(spec_string_literal(s, i) is None);
        assert(spec_country(s, i) is None);
    } else {
        let e0 = ser_country(l[0].0, l[0].1);
        let rest = ser_country_list(l.skip(1));
        assert(t =~= e0 + rest);
        assert(s.subrange(i, i + e0.len()) =~= e0) by {
            assert forall|u: int| 0 <= u < e0.len() implies s.subrange(i, i + e0.len())[u] == e0[
                u
            ] by {
                assert(s.subrange(i, i + e0.len())[u] == s[i + u]);
                assert(t[u] == (e0 + rest)[u]);
            }
        }
        assert(text_ok(l[0].0) && urls_ok(l[0].1));
        lemma_parse_ser_country(s, i, l[0].0, l[0].1);
        let k = i + e0.len() - 1;
        assert(s[i] == '\'');
        lemma_skip_ws_stay(s, i);
        assert(s[k] == ',');
        let m = k + 1;
        assert(s.subrange(m, m + rest.len()) =~= rest) by {
            assert forall|u: int| 0 <= u < rest.len() implies s.subrange(m, m + rest.len())[u]
                == rest[u] by {
                assert(s.subrange(m, m + rest.len())[u] == s[m + u]);
                assert(s[m + u] == t[e0.len() + u]);
                assert(t[e0.len() + u] == (e0 + rest)[e0.len() + u]);
            }
        }
        assert(countries_ok(l.skip(1))) by {
            assert(forall|u: int| 0 <= u < l.len() - 1 ==> (#[trigger] l.skip(1)[u]) == l[u + 1]);
        }
        if l.len() == 1 {
            assert(s[m] == '}');
        } else {
            assert(rest[0] == '\'');
            assert(s[m] == '\'');
        }
        lemma_skip_ws_stay(s, m);
        lemma_parse_ser_country_list(s, m, l.skip(1));
        assert(seq![l[0]] + l.skip(1) =~= l);
    }
}

proof fn lemma_parse_ser_continent(
    s: Seq<char>,
    i: int,
    name: Seq<char>,
    countries: Seq<(Seq<char>, Seq<Seq<char>>)>,
)
    requires
        0 <= i,
        text_ok(name),
        countries_ok(countries),
        i + ser_continent(name, countries).len() <= s.len(),
        s.subrange(i, i + ser_continent(name, countries).len()) == ser_continent(name, countries),
    ensures
        ser_continent(name, countries).len() == name.len() + ser_country_list(countries).len()
            + 7,
        spec_continent(s, i) == Some(
            ((name, countries), i + ser_continent(name, countries).len() - 1),
        ),
        s[i + ser_continent(name, countries).len() - 1] == ',',
{
    let lth = name.len() as int;
    let ln = ser_country_list(countries).len() as int;
    let t = ser_continent(name, countries);
    assert forall|k: int| 0 <= k < t.len() implies s[i + k] == t[k] by {
        assert(s.subrange(i, i + t.len())[k] == s[i + k]);
    }
    assert(s.subrange(i, i + lth + 2) =~= seq!['\''] + name + seq!['\'']) by {
        assert forall|k: int| 0 <= k < lth + 2 implies s.subrange(i, i + lth + 2)[k] == (seq![
            '\'',
        ] + name + seq!['\''])[k] by {
            assert(s.subrange(i, i + lth + 2)[k] == s[i + k]);
            assert(t[k] == (seq!['\''] + name + seq!['\'', '=', '>', '{'])[k]);
        }
    }
    lemma_parse_ser_literal(s, i, name);
    let j = i + lth + 2;
    assert(t[lth + 2] == '=');
    assert(t[lth + 3] == '>');
    assert(t[lth + 4] == '{');
    assert(s[j] == '=');
    assert(s[j + 1] == '>');
    assert(s[j + 2] == '{');
    lemma_skip_ws_stay(s, j);
    reveal_strlit("=>");
    assert("=>"@ =~= seq!['=', '>']);
    assert(s.subrange(j, j + 2) =~= seq!['=', '>']);
    assert(has_prefix_at(s, j, "=>"@));
    lemma_skip_ws_stay(s, j + 2);
    let lb = j + 2;
    assert(s.subrange(lb + 1, lb + 1 + ln) =~= ser_country_list(countries)) by {
        assert forall|k: int| 0 <= k < ln implies s.subrange(lb + 1, lb + 1 + ln)[k]
            == ser_country_list(countries)[k] by {
            assert(s.subrange(lb + 1, lb + 1 + ln)[k] == s[lb + 1 + k]);
            assert(s[lb + 1 + k] == t[lth + 5 + k]);
            assert(t[lth + 5 + k] == (seq!['{'] + ser_country_list(countries) + seq!['}', ','])[1
                + k]);
        }
    }
    assert(t[lth + 5 + ln] == '}');
    assert(s[lb + 1 + ln] == '}');
    lemma_parse_ser_country_list(s, lb + 1, countries);
    assert(t[lth + ln + 6] == ',');
    assert(s[lb + ln + 2] == ',');
}

proof fn lemma_parse_ser_continent_list(
    s: Seq<char>,
    i: int,
    l: Seq<(Seq<char>, Seq<(Seq<char>, Seq<Seq<char>>)>)>,
)
    requires
        0 <= i,
        topology_text_ok(l),
        i + ser_continent_list(l).len() < s.len(),
        s.subrange(i, i + ser_continent_list(l).len()) == ser_continent_list(l),
        s[i + ser_continent_list(l).len()] == '}',
    ensures
        spec_continent_list(s, i) == (l, i + ser_continent_list(l).len()),
    decreases l.len(),
{
    let t = ser_continent_list(l);
    assert forall|k: int| 0 <= k < t.len() implies s[i + k] == t[k] by {
        assert(s.subrange(i, i + t.len())[k] == s[i + k]);
    }
    if l.len() == 0 {
        assert(s[i] == '}');
        lemma_skip_ws_stay(s, i);
        assert(spec_string_literal(s, i) is None);
        assert(spec_continent(s, i) is None);
    } else {
        let e0 = ser_continent(l[0].0, l[0].1);
        let rest = ser_continent_list(l.skip(1));
        assert(t =~= e0 + rest);
        assert(s.subrange(i, i + e0.len()) =~= e0) by {
            assert forall|u: int| 0 <= u < e0.len() implies s.subrange(i, i + e0.len())[u] == e0[
                u
            ] by {
                assert(s.subrange(i, i + e0.len())[u] == s[i + u]);
                assert(t[u] == (e0 + rest)[u]);
            }
        }
        assert(text_ok(l[0].0) && countries_ok(l[0].1));
        lemma_parse_ser_continent(s, i, l[0].0, l[0].1);
        let k = i + e0.len() - 1;
        assert(s[i] == '\'');
        lemma_skip_ws_stay(s, i);
        assert(s[k] == ',');
        let m = k + 1;
        assert(s.subrange(m, m + rest.len()) =~= rest) by {
            assert forall|u: int| 0 <= u < rest.len() implies s.subrange(m, m + rest.len())[u]
                == rest[u] by {
                assert(s.subrange(m, m + rest.len())[u] == s[m + u]);
                assert(s[m + u] == t[e0.len() + u]);
                assert(t[e0.len() + u] == (e0 + rest)[e0.len() + u]);
            }
        }
        assert(topology_text_ok(l.skip(1))) by {
            assert(forall|u: int| 0 <= u < l.len() - 1 ==> (#[trigger] l.skip(1)[u]) == l[u + 1]);
        }
        if l.len() == 1 {
            assert(s[m] == '}');
        } else {
            assert(rest[0] == '\'');
            assert(s[m] == '\'');
        }
        lemma_skip_ws_stay(s, m);
        lemma_parse_ser_continent_list(s, m, l.skip(1));
        assert(seq![l[0]] + l.skip(1) =~= l);
    }
}

/// Law: the round trip is exact. Serializing any topology whose names and
/// URLs the quoted format can carry, and parsing the text back, yields the
/// very same continents, countries, and mirrors — those duplicated across
/// countries included — with the whole text consumed.
pub proof fn lemma_serialize_parse_roundtrip(m: Seq<(Seq<char>, Seq<(Seq<char>, Seq<Seq<char>>)>)>)
    requires
        topology_text_ok(m),
    ensures
        spec_parse_mirrors(ser_mirrors(m), 0) == Some((m, ser_mirrors(m).len() as int)),
{
    let s = ser_mirrors(m);
    let head = seq!['$', 'm', 'i', 'r', 'r', 'o', 'r', 's', ' ', '=', ' ', '{'];
    let mid = ser_continent_list(m);
    let tail = seq!['}', ';', '\n'];
    let ln = mid.len() as int;
    assert(s =~= head + mid + tail);
    reveal_strlit("$mirrors = {");
    assert("$mirrors = {"@ =~= head);
    assert(s.subrange(0, 12) =~= head) by {
        assert forall|k: int| 0 <= k < 12 implies s.subrange(0, 12)[k] == head[k] by {
            assert(s[k] == (head + mid + tail)[k]);
        }
    }
    assert(has_prefix_at(s, 0, "$mirrors = {"@));
    assert(s.subrange(12, 12 + ln) =~= mid) by {
        assert forall|k: int| 0 <= k < ln implies s.subrange(12, 12 + ln)[k] == mid[k] by {
            assert(s.subrange(12, 12 + ln)[k] == s[12 + k]);
            assert(s[12 + k] == (head + mid + tail)[12 + k]);
        }
    }
    assert(s[12 + ln] == (head + mid + tail)[12 + ln]);
    assert(s[12 + ln] == '}');
    lemma_parse_ser_continent_list(s, 12, m);
    let e = 12 + ln;
    reveal_strlit("};\n");
    assert("};\n"@ =~= tail);
    assert(s.subrange(e, e + 3) =~= tail) by {
        assert forall|k: int| 0 <= k < 3 implies s.subrange(e, e + 3)[k] == tail[k] by {
            assert(s.subrange(e, e + 3)[k] == s[e + k]);
            assert(s[e + k] == (head + mid + tail)[e + k]);
        }
    }
    assert(has_prefix_at(s, e, "};\n"@));
}

} // verus!

verus! {

proof fn lemma_literal_text_ok(s: Seq<char>, i: int)
    requires
        spec_string_literal(s, i) is Some,
    ensures
        text_ok(spec_string_literal(s, i).unwrap().0),
{
    let e = scan_to_quote(s, i + 1);
    lemma_scan_while(s, i + 1, |c: char| c != '\'');
    let v = s.subrange(i + 1, e);
    assert forall|k: int| 0 <= k < v.len() implies v[k] != '\'' by {
        assert(v[k] == s[i + 1 + k]);
    }
}

proof fn lemma_mirror_list_text_ok(s: Seq<char>, i: int)
    requires
        0 <= i <= s.len(),
    ensures
        urls_ok(spec_mirror_list(s, i).0),
    decreases s.len() - i,
{
    let j = skip_ws(s, i);
    lemma_scan_while(s, i, |c: char| crate::text_util::is_space(c));
    if let Some(uk) = spec_mirror_entry(s, j) {
        lemma_literal_text_ok(s, j);
        if uk.1 < s.len() && s[uk.1] == ',' {
            let m = skip_ws(s, uk.1 + 1);
            if i < m && m <= s.len() {
                lemma_mirror_list_text_ok(s, m);
                let r = spec_mirror_list(s, m);
                assert forall|u: int| 0 <= u < spec_mirror_list(s, i).0.len() implies text_ok(
                    #[trigger] spec_mirror_list(s, i).0[u],
                ) by {
                    if u == 0 {
                        assert(spec_mirror_list(s, i).0[0] == uk.0);
                    } else {
                        assert(spec_mirror_list(s, i).0[u] == r.0[u - 1]);
                    }
                }
            }
        }
    }
}

proof fn lemma_country_text_ok(s: Seq<char>, i: int)
    requires
        0 <= i <= s.len(),
        spec_country(s, i) is Some,
    ensures
        text_ok(spec_country(s, i).unwrap().0.0),
        urls_ok(spec_country(s, i).unwrap().0.1),
{
    lemma_literal_text_ok(s, i);
    let nj = spec_string_literal(s, i).unwrap();
    let k = skip_ws(s, nj.1);
    let m = skip_ws(s, k + "=>"@.len());
    lemma_scan_while(s, nj.1, |c: char| crate::text_util::is_space(c));
    lemma_scan_while(s, k + "=>"@.len(), |c: char| crate::text_util::is_space(c));
    lemma_mirror_list_text_ok(s, m + 1);
}

proof fn lemma_country_list_text_ok(s: Seq<char>, i: int)
    requires
        0 <= i <= s.len(),
    ensures
        countries_ok(spec_country_list(s, i).0),
    decreases s.len() - i,
{
    let j = skip_ws(s, i);
    lemma_scan_while(s, i, |c: char| crate::text_util::is_space(c));
    if let Some(ck) = spec_country(s, j) {
        lemma_country_text_ok(s, j);
        if ck.1 < s.len() && s[ck.1] == ',' {
            let m = skip_ws(s, ck.1 + 1);
            if i < m && m <= s.len() {
                lemma_country_list_text_ok(s, m);
                let r = spec_country_list(s, m);
                assert forall|u: int| 0 <= u < spec_country_list(s, i).0.len() implies text_ok(
                    (#[trigger] spec_country_list(s, i).0[u]).0,
                ) && urls_ok(spec_country_list(s, i).0[u].1) by {
                    if u == 0 {
                        assert(spec_country_list(s, i).0[0] == ck.0);
                    } else {
                        assert(spec_country_list(s, i).0[u] == r.0[u - 1]);
                    }
                }
            }
        }
    }
}

proof fn lemma_continent_text_ok(s: Seq<char>, i: int)
    requires
        0 <= i <= s.len(),
        spec_continent(s, i) is Some,
    ensures
        text_ok(spec_continent(s, i).unwrap().0.0),
        countries_ok(spec_continent(s, i).unwrap().0.1),
{
    lemma_literal_text_ok(s, i);
    let nj = spec_string_literal(s, i).unwrap();
    let k = skip_ws(s, nj.1);
    let m = skip_ws(s, k + "=>"@.len());
    lemma_scan_while(s, nj.1, |c: char| crate::text_util::is_space(c));
    lemma_scan_while(s, k + "=>"@.len(), |c: char| crate::text_util::is_space(c));
    lemma_country_list_text_ok(s, m + 1);
}

proof fn lemma_continent_list_text_ok(s: Seq<char>, i: int)
    requires
        0 <= i <= s.len(),
    ensures
        topology_text_ok(spec_continent_list(s, i).0),
    decreases s.len() - i,
{
    let j = skip_ws(s, i);
    lemma_scan_while(s, i, |c: char| crate::text_util::is_space(c));
    if let Some(ck) = spec_continent(s, j) {
        lemma_continent_text_ok(s, j);
        if ck.1 < s.len() && s[ck.1] == ',' {
            let m = skip_ws(s, ck.1 + 1);
            if i < m && m <= s.len() {
                lemma_continent_list_text_ok(s, m);
                let r = spec_continent_list(s, m);
                assert forall|u: int|
                    0 <= u < spec_continent_list(s, i).0.len() implies text_ok(
                    (#[trigger] spec_continent_list(s, i).0[u]).0,
                ) && countries_ok(spec_continent_list(s, i).0[u].1) by {
                    if u == 0 {
                        assert(spec_continent_list(s, i).0[0] == ck.0);
                    } else {
                        assert(spec_continent_list(s, i).0[u] == r.0[u - 1]);
                    }
                }
            }
        }
    }
}

/// Law: the round trip holds for every well-formed topology document. What
/// parsing yields can always be serialized (quoted names never hold a
/// quote), and parsing the serialized text reconstructs exactly the parsed
/// structure — the same continent, country, and mirror membership.
pub proof fn lemma_parse_serialize_roundtrip(s: Seq<char>, i: int)
    requires
        0 <= i <= s.len(),
        spec_parse_mirrors(s, i) is Some,
    ensures
        topology_text_ok(spec_parse_mirrors(s, i).unwrap().0),
        ({
            let m = spec_parse_mirrors(s, i).unwrap().0;
            spec_parse_mirrors(ser_mirrors(m), 0) == Some((m, ser_mirrors(m).len() as int))
        }),
{
    lemma_continent_list_text_ok(s, i + "$mirrors = {"@.len());
    let m = spec_parse_mirrors(s, i).unwrap().0;
    lemma_serialize_parse_roundtrip(m);
}

} // verus!
