//! Liveness classification: a package-database document maps to exactly one
//! verdict. A well-formed, fully consumed document whose first record is the
//! distinguished configuration record and whose dependencies carry parseable
//! `release/` and `revision/` values is alive; everything else is dead.

use vstd::prelude::*;
use vstd::string::*;
use crate::parse_tlpdb::{spec_parse_entries, parse_entries};
use crate::text_util::{has_prefix_at, try_keyword, spec_parse_uint, parse_uint_str, str_equal};

verus! {

/// The verdict reported for one mirror.
#[derive(Debug, Clone, Copy, PartialEq, Eq, Structural)]
pub enum MirrorData {
    Dead,
    Alive { texlive_version: u16, revision: u32 },
    Timeout,
}

/// Scans a dependency list for `release/` and `revision/` values, each later
/// occurrence replacing the earlier; an occurrence whose value does not parse
/// at its width poisons the whole scan.
pub open spec fn spec_dep_scan(
    deps: Seq<Seq<char>>,
    rel: Option<u16>,
    rev: Option<u32>,
) -> Option<(Option<u16>, Option<u32>)>
    decreases deps.len(),
{
    if deps.len() == 0 {
        Some((rel, rev))
    } else {
        let d = deps[0];
        if has_prefix_at(d, 0, "release/"@) {
            match spec_parse_uint(d.skip("release/"@.len() as int), 0xffffu64) {
                Some(v) => spec_dep_scan(deps.skip(1), Some(v as u16), rev),
                None => None,
            }
        } else if has_prefix_at(d, 0, "revision/"@) {
            match spec_parse_uint(d.skip("revision/"@.len() as int), 0xffff_ffffu64) {
                Some(v) => spec_dep_scan(deps.skip(1), rel, Some(v as u32)),
                None => None,
            }
        } else {
            spec_dep_scan(deps.skip(1), rel, rev)
        }
    }
}

/// The verdict a document maps to. Every input has one: parse failure,
/// leftover input, an empty document, a wrong first record, or bad
/// release/revision values are all `Dead`.
pub open spec fn spec_classify(s: Seq<char>) -> MirrorData {
    let pr = spec_parse_entries(s, 0);
    if pr.1 != s.len() {
        MirrorData::Dead
    } else if pr.0.len() == 0 {
        MirrorData::Dead
    } else if pr.0[0].name != "00texlive.config"@ {
        MirrorData::Dead
    } else {
        match spec_dep_scan(pr.0[0].depend, None, None) {
            Some((Some(rel), Some(rev))) => MirrorData::Alive {
                texlive_version: rel,
                revision: rev,
            },
            _ => MirrorData::Dead,
        }
    }
}

/// Classifies a package-database document. Never fails: every input maps to
/// exactly the verdict that `spec_classify` assigns it.
pub fn get_mirror_data_from_tlpdb(s: &str) -> (r: MirrorData)
    ensures
        r == spec_classify(s@),
{
    let n = s.unicode_len();
    let (entries, rest) = parse_entries(s, 0);
    if rest != n {
        return MirrorData::Dead;
    }
    if entries.len() == 0 {
        return MirrorData::Dead;
    }
    proof {
        assert(entries.deep_view()[0] == entries@[0].deep_view());
    }
    let first = &entries[0];
    if !str_equal(first.name.as_str(), "00texlive.config") {
        return MirrorData::Dead;
    }
    let deps = &first.depend;
    let ghost deps0 = first.deep_view().depend;
    proof {
        assert(deps0.skip(0) =~= deps0);
    }
    let mut rel: Option<u16> = None;
    let mut rev: Option<u32> = None;
    let m = deps.len();
    let mut i: usize = 0;
    while i < m
        invariant
            i <= m == deps@.len(),
            deps0 == deps.deep_view(),
            spec_parse_entries(s@, 0).1 == s@.len(),
            spec_parse_entries(s@, 0).0.len() > 0,
            deps0 == spec_parse_entries(s@, 0).0[0].depend,
            spec_parse_entries(s@, 0).0[0].name == "00texlive.config"@,
            spec_dep_scan(deps0, None, None) == spec_dep_scan(deps0.skip(i as int), rel, rev),
        decreases m - i,
    {
        proof {
            assert(deps0.skip(i as int)[0] == deps0[i as int]);
            assert(deps0[i as int] == deps@[i as int]@);
            assert(deps0.skip(i as int).skip(1) =~= deps0.skip(i + 1));
        }
        let ghost rel0 = rel;
        let ghost rev0 = rev;
        let d = deps[i].as_str();
        let dn = d.unicode_len();
        if let Some(j) = try_keyword(d, 0, "release/") {
            let tail = d.substring_char(j, dn);
            proof {
                assert(tail@ =~= deps0[i as int].skip("release/"@.len() as int));
            }
            match parse_uint_str(tail, 0xffffu64) {
                Some(v) => {
                    rel = Some(v as u16);
                    proof {
                        assert(spec_dep_scan(deps0.skip(i as int), rel0, rev0)
                            == spec_dep_scan(deps0.skip(i + 1), rel, rev));
                    }
                },
                None => {
                    proof {
                        assert(spec_dep_scan(deps0.skip(i as int), rel0, rev0) is None);
                        assert(spec_classify(s@) == MirrorData::Dead);
                    }
                    return MirrorData::Dead;
                },
            }
        } else if let Some(j) = try_keyword(d, 0, "revision/") {
            let tail = d.substring_char(j, dn);
            proof {
                assert(tail@ =~= deps0[i as int].skip("revision/"@.len() as int));
            }
            match parse_uint_str(tail, 0xffff_ffffu64) {
                Some(v) => {
                    rev = Some(v as u32);
                    proof {
                        assert(spec_dep_scan(deps0.skip(i as int), rel0, rev0)
                            == spec_dep_scan(deps0.skip(i + 1), rel, rev));
                    }
                },
                None => {
                    proof {
                        assert(spec_dep_scan(deps0.skip(i as int), rel0, rev0) is None);
                        assert(spec_classify(s@) == MirrorData::Dead);
                    }
                    return MirrorData::Dead;
                },
            }
        } else {
            proof {
                assert(spec_dep_scan(deps0.skip(i as int), rel0, rev0) == spec_dep_scan(
                    deps0.skip(i + 1),
                    rel,
                    rev,
                ));
            }
        }
        i = i + 1;
    }
    proof {
        assert(deps0.skip(m as int) =~= Seq::<Seq<char>>::empty());
        assert(spec_dep_scan(deps0.skip(m as int), rel, rev) == Some((rel, rev)));
    }
    match (rel, rev) {
        (Some(r), Some(v)) => MirrorData::Alive { texlive_version: r, revision: v },
        _ => MirrorData::Dead,
    }
}

} // verus!
