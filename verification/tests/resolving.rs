use std::io::Read;
use tlmirror_audit::classify::MirrorData;
use tlmirror_audit::digest::extract_checksum;
use tlmirror_audit::orchestrate::{build_report, tl_mirror_url, tlpdb_archive_url, tlpdb_hash_url};
use tlmirror_audit::parse_ctanmirrors::{
    BorrowedContinentMirrors, BorrowedCountryMirrors, BorrowedMirror, BorrowedMirrors, Mirror,
    Mirrors,
};
use tlmirror_audit::resolver::{PollOutcome, TlpdbByHash};

fn alive_doc() -> String {
    String::from(
        "name 00texlive.config\ncategory TLCore\nrevision 54074\ndepend release/2024\ndepend revision/70660\n",
    )
}

fn xz_compress(text: &str) -> Vec<u8> {
    let mut out = Vec::new();
    xz::read::XzEncoder::new(text.as_bytes(), 6)
        .read_to_end(&mut out)
        .unwrap();
    out
}

fn sha512_hex(text: &str) -> String {
    hex::encode(<sha2::Sha512 as sha2::Digest>::digest(text.as_bytes()))
}

#[test]
fn resolver_serves_first_verified_candidate_to_everyone() {
    let doc = alive_doc();
    let good = xz_compress(&doc);
    let hash = sha512_hex(&doc);
    let mut resolver = TlpdbByHash::new();
    // The first two candidates fail (no fetch; corrupt archive); the third
    // verifies, and its verdict is what the entry resolves to.
    let verdict = resolver.resolve_candidates(
        &hash,
        &vec![None, Some(vec![0u8, 1, 2, 3]), Some(good)],
    );
    assert_eq!(
        verdict,
        MirrorData::Alive {
            texlive_version: 2024,
            revision: 70660
        }
    );
    // Every later caller observes the same verdict at once, with no fetch.
    assert_eq!(resolver.get(&hash), Some(verdict));
    match resolver.poll(&hash) {
        PollOutcome::Ready(v) => assert_eq!(v, verdict),
        _ => panic!("a resolved entry must answer immediately"),
    }
}

#[test]
fn digest_mismatch_hands_leadership_over() {
    let doc = alive_doc();
    let other = String::from("name 00texlive.config\ncategory TLCore\nrevision 1\n");
    let good = xz_compress(&doc);
    let wrong_content = xz_compress(&other);
    let hash = sha512_hex(&doc);
    let mut resolver = TlpdbByHash::new();
    // A leader whose content does not match the checksum fails and re-arms
    // the token; the next candidate takes over and succeeds.
    match resolver.poll(&hash) {
        PollOutcome::Lead => {}
        _ => panic!("the first caller must win leadership"),
    }
    let first = resolver.leader_step(&hash, Some(&wrong_content));
    assert_eq!(first, MirrorData::Dead);
    assert_eq!(resolver.get(&hash), None);
    match resolver.poll(&hash) {
        PollOutcome::Lead => {}
        _ => panic!("a failed leader must hand leadership over"),
    }
    let second = resolver.leader_step(&hash, Some(&good));
    assert_eq!(
        second,
        MirrorData::Alive {
            texlive_version: 2024,
            revision: 70660
        }
    );
    assert_eq!(resolver.get(&hash), Some(second));
}

#[test]
fn verified_dead_content_is_still_terminal() {
    // A document that verifies against its checksum but classifies dead
    // resolves the entry: dead is a terminal verdict, not a failure.
    let doc = String::from("name not.the.config\ncategory Package\nrevision 1\n");
    let good = xz_compress(&doc);
    let hash = sha512_hex(&doc);
    let mut resolver = TlpdbByHash::new();
    let verdict = resolver.resolve_candidates(&hash, &vec![Some(good)]);
    assert_eq!(verdict, MirrorData::Dead);
    assert_eq!(resolver.get(&hash), Some(MirrorData::Dead));
}

#[test]
fn all_candidates_failing_leaves_the_entry_open() {
    let doc = alive_doc();
    let good = xz_compress(&doc);
    let hash = sha512_hex(&doc);
    let mut resolver = TlpdbByHash::new();
    let verdict = resolver.resolve_candidates(&hash, &vec![None, None]);
    assert_eq!(verdict, MirrorData::Dead);
    assert_eq!(resolver.get(&hash), None);
    // A later caller with a working mirror can still resolve the checksum.
    let later = resolver.resolve_candidates(&hash, &vec![Some(good)]);
    assert_eq!(
        later,
        MirrorData::Alive {
            texlive_version: 2024,
            revision: 70660
        }
    );
}

#[test]
fn waiting_caller_cannot_take_a_held_token() {
    let mut resolver = TlpdbByHash::new();
    match resolver.poll("abc") {
        PollOutcome::Lead => {}
        _ => panic!("the first caller must win leadership"),
    }
    match resolver.poll("abc") {
        PollOutcome::Wait => {}
        _ => panic!("a second caller must wait while the leader works"),
    }
}

#[test]
fn checksum_file_yields_its_digest_prefix() {
    let digest: String = std::iter::repeat('a').take(128).collect();
    let mut file = digest.clone();
    file.push_str(" texlive.tlpdb\n");
    assert_eq!(extract_checksum(&file), Some(digest));
    assert_eq!(extract_checksum("too short"), None);
    let no_space: String = std::iter::repeat('a').take(200).collect();
    assert_eq!(extract_checksum(&no_space), None);
}

#[test]
fn derived_urls_append_the_fixed_paths() {
    let base = Mirror("https://mirror.example/".to_owned());
    let tl = tl_mirror_url(&base);
    assert_eq!(tl.0, "https://mirror.example/systems/texlive/tlnet/");
    assert_eq!(
        tlpdb_hash_url(&tl),
        "https://mirror.example/systems/texlive/tlnet/tlpkg/texlive.tlpdb.sha512"
    );
    assert_eq!(
        tlpdb_archive_url(&tl),
        "https://mirror.example/systems/texlive/tlnet/tlpkg/texlive.tlpdb.xz"
    );
}

#[test]
fn report_has_exactly_the_topology_shape() {
    let b = BorrowedMirrors(vec![(
        "Europe".to_owned(),
        BorrowedContinentMirrors(vec![
            (
                "Germany".to_owned(),
                BorrowedCountryMirrors(vec![
                    BorrowedMirror("https://a/".to_owned()),
                    BorrowedMirror("https://b/".to_owned()),
                ]),
            ),
            (
                "Spain".to_owned(),
                BorrowedCountryMirrors(vec![BorrowedMirror("https://c/".to_owned())]),
            ),
        ]),
    )]);
    let topology = Mirrors::from_borrowed(&b);
    // One verdict row per converted country, row for row in the converted
    // topology's own order.
    let mut verdicts: Vec<Vec<Vec<MirrorData>>> = Vec::new();
    let samples = [
        MirrorData::Alive {
            texlive_version: 2024,
            revision: 70660,
        },
        MirrorData::Timeout,
        MirrorData::Dead,
    ];
    let mut next: usize = 0;
    for (_name, continent) in topology.0.iter() {
        let mut rows = Vec::new();
        for (_country, row) in continent.0.iter() {
            let mut cells = Vec::new();
            for _ in row.0.iter() {
                cells.push(samples[next % samples.len()]);
                next += 1;
            }
            rows.push(cells);
        }
        verdicts.push(rows);
    }
    let report = build_report(&topology, &verdicts);
    assert_eq!(report.0.len(), topology.0.len());
    for (c, (name, continent)) in report.0.iter().enumerate() {
        assert_eq!(*name, topology.0[c].0);
        assert_eq!(continent.0.len(), topology.0[c].1 .0.len());
        for (k, (country, row)) in continent.0.iter().enumerate() {
            assert_eq!(*country, topology.0[c].1 .0[k].0);
            assert_eq!(row.0.len(), topology.0[c].1 .0[k].1 .0.len());
            for (u, (mirror, verdict)) in row.0.iter().enumerate() {
                assert_eq!(mirror.0, topology.0[c].1 .0[k].1 .0[u].0);
                assert_eq!(*verdict, verdicts[c][k][u]);
            }
        }
    }
}
