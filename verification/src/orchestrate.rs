//! Report assembly for the fetch orchestrator. The fan-out itself (one task
//! per continent, country, and mirror, each probe under a wall-clock budget)
//! is scheduling and lives with the caller; what is verified here is the
//! part that must not go wrong: the report has exactly the topology's shape,
//! every leaf carrying the verdict probed for it, and the resource paths are
//! derived exactly.

use vstd::prelude::*;
use vstd::string::StringExecFns;
use crate::classify::MirrorData;
use crate::parse_ctanmirrors::{Mirror, CountryMirrors, ContinentMirrors, Mirrors};
use crate::assoc::{assoc_map, lemma_assoc_map_dom};

verus! {

// ---------------------------------------------------------------------------
// The report: the topology's shape with a verdict at every mirror leaf.
// ---------------------------------------------------------------------------

#[derive(Debug, PartialEq, Eq, Clone)]
pub struct CountryMirrorsWithData(pub Vec<(Mirror, MirrorData)>);

#[derive(Debug, PartialEq, Eq, Clone)]
pub struct ContinentMirrorsWithData(pub Vec<(String, CountryMirrorsWithData)>);

#[derive(Debug, PartialEq, Eq, Clone)]
pub struct MirrorsWithData(pub Vec<(String, ContinentMirrorsWithData)>);

impl DeepView for MirrorData {
    type V = MirrorData;

    open spec fn deep_view(&self) -> MirrorData {
        *self
    }
}

impl DeepView for CountryMirrorsWithData {
    type V = Seq<(Seq<char>, MirrorData)>;

    open spec fn deep_view(&self) -> Seq<(Seq<char>, MirrorData)> {
        self.0.deep_view()
    }
}

impl DeepView for ContinentMirrorsWithData {
    type V = Seq<(Seq<char>, Seq<(Seq<char>, MirrorData)>)>;

    open spec fn deep_view(&self) -> Seq<(Seq<char>, Seq<(Seq<char>, MirrorData)>)> {
        self.0.deep_view()
    }
}

impl DeepView for MirrorsWithData {
    type V = Seq<(Seq<char>, Seq<(Seq<char>, Seq<(Seq<char>, MirrorData)>)>)>;

    open spec fn deep_view(&self) -> Seq<
        (Seq<char>, Seq<(Seq<char>, Seq<(Seq<char>, MirrorData)>)>),
    > {
        self.0.deep_view()
    }
}

/// One country's report against its topology row: the same mirrors in the
/// same order, each with the verdict probed at its position.
pub open spec fn country_report_matches(
    t: Seq<Seq<char>>,
    vs: Seq<MirrorData>,
    r: Seq<(Seq<char>, MirrorData)>,
) -> bool {
    &&& r.len() == t.len()
    &&& vs.len() == t.len()
    &&& forall|u: int|
        0 <= u < t.len() ==> (#[trigger] r[u]).0 == t[u] && r[u].1 == vs[u]
}

/// One continent's report against its topology row.
pub open spec fn continent_report_matches(
    t: Seq<(Seq<char>, Seq<Seq<char>>)>,
    vs: Seq<Seq<MirrorData>>,
    r: Seq<(Seq<char>, Seq<(Seq<char>, MirrorData)>)>,
) -> bool {
    &&& r.len() == t.len()
    &&& vs.len() == t.len()
    &&& forall|k: int|
        0 <= k < t.len() ==> (#[trigger] r[k]).0 == t[k].0 && country_report_matches(
            t[k].1,
            vs[k],
            r[k].1,
        )
}

/// The whole report against the whole topology: identical names at every
/// level, identical mirror leaves, each leaf holding its probed verdict.
pub open spec fn report_matches(
    t: Seq<(Seq<char>, Seq<(Seq<char>, Seq<Seq<char>>)>)>,
    vs: Seq<Seq<Seq<MirrorData>>>,
    r: Seq<(Seq<char>, Seq<(Seq<char>, Seq<(Seq<char>, MirrorData)>)>)>,
) -> bool {
    &&& r.len() == t.len()
    &&& vs.len() == t.len()
    &&& forall|c: int|
        0 <= c < t.len() ==> (#[trigger] r[c]).0 == t[c].0 && continent_report_matches(
            t[c].1,
            vs[c],
            r[c].1,
        )
}

fn build_country_report(t: &CountryMirrors, vs: &Vec<MirrorData>) -> (r: CountryMirrorsWithData)
    requires
        vs@.len() == t.0@.len(),
    ensures
        country_report_matches(t.deep_view(), vs.deep_view(), r.deep_view()),
{
    let mut out: Vec<(Mirror, MirrorData)> = Vec::new();
    let n = t.0.len();
    let mut u: usize = 0;
    while u < n
        invariant
            u <= n == t.0@.len() == vs@.len(),
            out.deep_view().len() == u,
            forall|j: int|
                0 <= j < u ==> (#[trigger] out.deep_view()[j]).0 == t.deep_view()[j]
                    && out.deep_view()[j].1 == vs.deep_view()[j],
        decreases n - u,
    {
        proof {
            assert(t.deep_view()[u as int] == t.0@[u as int].deep_view());
            assert(vs.deep_view()[u as int] == vs@[u as int]);
        }
        let ghost old_out = out.deep_view();
        out.push((Mirror(t.0[u].0.clone()), vs[u]));
        proof {
            assert(out.deep_view() =~= old_out.push(
                (t.deep_view()[u as int], vs.deep_view()[u as int]),
            ));
        }
        u = u + 1;
    }
    CountryMirrorsWithData(out)
}

fn build_continent_report(t: &ContinentMirrors, vs: &Vec<Vec<MirrorData>>) -> (r:
    ContinentMirrorsWithData)
    requires
        vs@.len() == t.0@.len(),
        forall|k: int| 0 <= k < t.0@.len() ==> (#[trigger] vs@[k])@.len() == t.0@[k].1.0@.len(),
    ensures
        continent_report_matches(t.deep_view(), vs.deep_view(), r.deep_view()),
{
    let mut out: Vec<(String, CountryMirrorsWithData)> = Vec::new();
    let n = t.0.len();
    let mut k: usize = 0;
    while k < n
        invariant
            k <= n == t.0@.len() == vs@.len(),
            forall|j: int| 0 <= j < n ==> (#[trigger] vs@[j])@.len() == t.0@[j].1.0@.len(),
            out.deep_view().len() == k,
            forall|j: int|
                0 <= j < k ==> (#[trigger] out.deep_view()[j]).0 == t.deep_view()[j].0
                    && country_report_matches(
                    t.deep_view()[j].1,
                    vs.deep_view()[j],
                    out.deep_view()[j].1,
                ),
        decreases n - k,
    {
        proof {
            assert(t.deep_view()[k as int] == t.0@[k as int].deep_view());
            assert(vs.deep_view()[k as int] == vs@[k as int].deep_view());
            assert(vs@[k as int].deep_view().len() == vs@[k as int]@.len());
        }
        let row = build_country_report(&t.0[k].1, &vs[k]);
        let ghost old_out = out.deep_view();
        out.push((t.0[k].0.clone(), row));
        proof {
            assert(out.deep_view() =~= old_out.push(
                (t.deep_view()[k as int].0, row.deep_view()),
            ));
        }
        k = k + 1;
    }
    ContinentMirrorsWithData(out)
}

/// Builds the report from the topology and the verdicts probed for its
/// mirrors, arranged leaf for leaf in the topology's own shape. The report's
/// names and mirrors are exactly the topology's, in the topology's order.
pub fn build_report(t: &Mirrors, vs: &Vec<Vec<Vec<MirrorData>>>) -> (r: MirrorsWithData)
    requires
        vs@.len() == t.0@.len(),
        forall|c: int| 0 <= c < t.0@.len() ==> (#[trigger] vs@[c])@.len() == t.0@[c].1.0@.len(),
        forall|c: int, k: int|
            0 <= c < t.0@.len() && 0 <= k < t.0@[c].1.0@.len() ==> (#[trigger] vs@[c]@[k])@.len()
                == t.0@[c].1.0@[k].1.0@.len(),
    ensures
        report_matches(t.deep_view(), vs.deep_view(), r.deep_view()),
{
    let mut out: Vec<(String, ContinentMirrorsWithData)> = Vec::new();
    let n = t.0.len();
    let mut c: usize = 0;
    while c < n
        invariant
            c <= n == t.0@.len() == vs@.len(),
            forall|j: int| 0 <= j < n ==> (#[trigger] vs@[j])@.len() == t.0@[j].1.0@.len(),
            forall|j: int, k: int|
                0 <= j < n && 0 <= k < t.0@[j].1.0@.len() ==> (#[trigger] vs@[j]@[k])@.len()
                    == t.0@[j].1.0@[k].1.0@.len(),
            out.deep_view().len() == c,
            forall|j: int|
                0 <= j < c ==> (#[trigger] out.deep_view()[j]).0 == t.deep_view()[j].0
                    && continent_report_matches(
                    t.deep_view()[j].1,
                    vs.deep_view()[j],
                    out.deep_view()[j].1,
                ),
        decreases n - c,
    {
        proof {
            assert(t.deep_view()[c as int] == t.0@[c as int].deep_view());
            assert(vs.deep_view()[c as int] == vs@[c as int].deep_view());
        }
        let row = build_continent_report(&t.0[c].1, &vs[c]);
        let ghost old_out = out.deep_view();
        out.push((t.0[c].0.clone(), row));
        proof {
            assert(out.deep_view() =~= old_out.push(
                (t.deep_view()[c as int].0, row.deep_view()),
            ));
        }
        c = c + 1;
    }
    MirrorsWithData(out)
}

/// Law: a built report's key set is exactly the topology's, at the top
/// level as maps and, by `report_matches`, name for name and mirror for
/// mirror below.
pub proof fn lemma_report_keys(
    t: Seq<(Seq<char>, Seq<(Seq<char>, Seq<Seq<char>>)>)>,
    vs: Seq<Seq<Seq<MirrorData>>>,
    r: Seq<(Seq<char>, Seq<(Seq<char>, Seq<(Seq<char>, MirrorData)>)>)>,
)
    requires
        report_matches(t, vs, r),
    ensures
        assoc_map(r).dom() =~= assoc_map(t).dom(),
{
    assert forall|k: Seq<char>| assoc_map(r).dom().contains(k) implies assoc_map(
        t,
    ).dom().contains(k) by {
        lemma_assoc_map_dom(r, k);
        lemma_assoc_map_dom(t, k);
        let i = choose|i: int| 0 <= i < r.len() && r[i].0 == k;
        assert(t[i].0 == k);
    }
    assert forall|k: Seq<char>| assoc_map(t).dom().contains(k) implies assoc_map(
        r,
    ).dom().contains(k) by {
        lemma_assoc_map_dom(r, k);
        lemma_assoc_map_dom(t, k);
        let i = choose|i: int| 0 <= i < t.len() && t[i].0 == k;
        assert(r[i].0 == k);
    }
}

// ---------------------------------------------------------------------------
// The derived resource paths.
// ---------------------------------------------------------------------------

/// The archive area under a mirror's base URL.
pub fn tl_mirror_url(base: &Mirror) -> (r: Mirror)
    ensures
        r.deep_view() == base.deep_view() + "systems/texlive/tlnet/"@,
{
    let mut s = base.0.clone();
    s.append("systems/texlive/tlnet/");
    Mirror(s)
}

/// Where the database's checksum file lives under a mirror's archive area.
pub fn tlpdb_hash_url(mirror: &Mirror) -> (r: String)
    ensures
        r@ == mirror.deep_view() + "tlpkg/texlive.tlpdb.sha512"@,
{
    let mut s = mirror.0.clone();
    s.append("tlpkg/texlive.tlpdb.sha512");
    s
}

/// Where the compressed database lives under a mirror's archive area.
pub fn tlpdb_archive_url(mirror: &Mirror) -> (r: String)
    ensures
        r@ == mirror.deep_view() + "tlpkg/texlive.tlpdb.xz"@,
{
    let mut s = mirror.0.clone();
    s.append("tlpkg/texlive.tlpdb.xz");
    s
}

} // verus!
