use tlmirror_audit::parse_ctanmirrors::{
    parse_continent, parse_country, parse_mirror_set, parse_mirrors, parse_string_literal,
    serialize_mirrors, BorrowedContinentMirrors, BorrowedCountryMirrors, BorrowedMirror,
    BorrowedMirrors, Mirrors,
};
use tlmirror_audit::parse_tlpdb::{
    parse_entries, parse_entry, BorrowedCatalogueEntry, BorrowedContactEntry, BorrowedEntry,
    BorrowedFiles, Category,
};

#[test]
fn test_parse_string_interval() {
    let input = "'https://example.com/pub/tex/'";
    let (parsed, end) = parse_string_literal(input, 0).unwrap();
    if end != input.chars().count() {
        panic!("Unexpected remaining tokens after parsing string literal")
    }
    assert_eq!(parsed, "https://example.com/pub/tex/");
}

#[test]
fn test_parse_mirror_set() {
    let input = "{
            'https://example.com/pub/tex/' => 1,
            'foobar' => 1,
        }";
    let (parsed, end) = parse_mirror_set(input, 0).unwrap();
    if end != input.chars().count() {
        panic!("Unexpected remaining tokens after parsing mirror set")
    }
    assert_eq!(
        parsed,
        BorrowedCountryMirrors(vec![
            BorrowedMirror("https://example.com/pub/tex/".to_owned()),
            BorrowedMirror("foobar".to_owned()),
        ])
    );
}

#[test]
fn test_parse_country() {
    let input = "'Germany' => {
            'https://example.com/pub/tex/' => 1,
            'foobar' => 1,
        }";
    let ((name, parsed), end) = parse_country(input, 0).unwrap();
    if end != input.chars().count() {
        panic!("Unexpected remaining tokens after parsing mirror set")
    }
    assert_eq!(name, "Germany");
    assert_eq!(
        parsed,
        BorrowedCountryMirrors(vec![
            BorrowedMirror("https://example.com/pub/tex/".to_owned()),
            BorrowedMirror("foobar".to_owned()),
        ])
    );
}

#[test]
fn test_parse_continent() {
    let input = "'Europe' => {
            'Germany' => {
                'https://example.com/pub/tex/' => 1,
                'foo' => 1,
            },
            'Spain' => {
                'https://example.org/pub/tex/' => 1,
                'bar' => 1,
            },
        }";
    let ((name, parsed), end) = parse_continent(input, 0).unwrap();
    if end != input.chars().count() {
        panic!("Unexpected remaining tokens after parsing mirror set")
    }
    assert_eq!(name, "Europe");
    assert_eq!(
        parsed,
        BorrowedContinentMirrors(vec![
            (
                "Germany".to_owned(),
                BorrowedCountryMirrors(vec![
                    BorrowedMirror("https://example.com/pub/tex/".to_owned()),
                    BorrowedMirror("foo".to_owned()),
                ])
            ),
            (
                "Spain".to_owned(),
                BorrowedCountryMirrors(vec![
                    BorrowedMirror("https://example.org/pub/tex/".to_owned()),
                    BorrowedMirror("bar".to_owned()),
                ])
            ),
        ])
    );
}

fn example_mirrors() -> BorrowedMirrors {
    BorrowedMirrors(vec![(
        "Europe".to_owned(),
        BorrowedContinentMirrors(vec![
            (
                "Germany".to_owned(),
                BorrowedCountryMirrors(vec![
                    BorrowedMirror("https://example.com/pub/tex/".to_owned()),
                    BorrowedMirror("foo".to_owned()),
                ]),
            ),
            (
                "Spain".to_owned(),
                BorrowedCountryMirrors(vec![
                    BorrowedMirror("https://example.org/pub/tex/".to_owned()),
                    BorrowedMirror("bar".to_owned()),
                ]),
            ),
        ]),
    )])
}

#[test]
fn test_parse_mirrors() {
    let input = "$mirrors = {
            'Europe' => {
                'Germany' => {
                    'https://example.com/pub/tex/' => 1,
                    'foo' => 1,
                },
                'Spain' => {
                    'https://example.org/pub/tex/' => 1,
                    'bar' => 1,
                },
            },
        };\n";
    let (parsed, end) = parse_mirrors(input, 0).unwrap();
    if end != input.chars().count() {
        panic!("Unexpected remaining tokens after parsing mirror set")
    }
    assert_eq!(parsed, example_mirrors());
}

#[test]
fn serialize_then_parse_is_identity() {
    let m = example_mirrors();
    let text = serialize_mirrors(&m);
    let (reparsed, end) = parse_mirrors(&text, 0).unwrap();
    assert_eq!(end, text.chars().count());
    assert_eq!(reparsed, m);
}

#[test]
fn serialize_keeps_mirrors_duplicated_across_countries() {
    let m = BorrowedMirrors(vec![(
        "Oceania".to_owned(),
        BorrowedContinentMirrors(vec![
            (
                "Fiji".to_owned(),
                BorrowedCountryMirrors(vec![BorrowedMirror("https://shared.example/".to_owned())]),
            ),
            (
                "Samoa".to_owned(),
                BorrowedCountryMirrors(vec![BorrowedMirror("https://shared.example/".to_owned())]),
            ),
        ]),
    )]);
    let text = serialize_mirrors(&m);
    let (reparsed, end) = parse_mirrors(&text, 0).unwrap();
    assert_eq!(end, text.chars().count());
    assert_eq!(reparsed, m);
}

#[test]
fn rejects_missing_trailing_comma() {
    let input = "$mirrors = {'A' => {'B' => {'u' => 1}},};\n";
    assert!(parse_mirrors(input, 0).is_none());
}

#[test]
fn test_parse_entry() {
    let input = "name 00texlive.config
category TLCore
revision 54074
shortdesc TeX Live network archive option settings
longdesc This package contains configuration options for the TeX Live
longdesc archive. If container_split_{doc,src}_files/1 are dependencies,
longdesc the {doc,src} files are split into separate containers
longdesc (.tar.xz) during container build time. This has NO effect on
longdesc the appearance within texlive.tlpdb. It is only on the
longdesc container level. The container_format/WHATEVER specifies the
longdesc format, currently \"xz\" is the only supported value (generating
longdesc .tar.xz files). release/YYYY specifies the release number as
longdesc used in the installer. minrelease/ZZZZ specifies the minimum
longdesc release for which this repository is valid, i.e., a release of
longdesc ZZZZ or later can theoretically be upgraded. Further
longdesc information concerning upgrades can be found at
longdesc http://www.tug.org/texlive/upgrade.html frozen/[01] specifies
longdesc whether the release has been frozen The default values are
longdesc taken from TeXLive::TLConfig::TLPDBConfigs hash values at tlpdb
longdesc creation time but can be overridden here if necessary. For
longdesc information on the 00texlive prefix see
longdesc 00texlive.installation(.tlpsrc)
depend container_format/xz
depend container_split_doc_files/1
depend container_split_src_files/1
depend frozen/0
depend minrelease/2016
depend release/2024
depend revision/70660
";
    let (parsed, end) = parse_entry(input, 0).unwrap();
    if end != input.chars().count() {
        panic!("Unexpected remaining tokens after parsing string literal")
    }
    assert_eq!(
        parsed,
        BorrowedEntry {
            name: "00texlive.config".to_owned(),
            category: Category::TLCore,
            catalogue: BorrowedCatalogueEntry {
                name: None,
                alias: None,
                also: None,
                contact: BorrowedContactEntry {
                    announce: None,
                    bugs: None,
                    development: None,
                    home: None,
                    repository: None,
                    support: None,
                },
                ctan: None,
                license: None,
                topics: None,
                version: None,
            },
            container_checksum: None,
            container_size: None,
            depend: vec![
                "container_format/xz".to_owned(),
                "container_split_doc_files/1".to_owned(),
                "container_split_src_files/1".to_owned(),
                "frozen/0".to_owned(),
                "minrelease/2016".to_owned(),
                "release/2024".to_owned(),
                "revision/70660".to_owned(),
            ],
            execute: Vec::new(),
            long_desc: Some("This package contains configuration options for the TeX Live archive. If container_split_{doc,src}_files/1 are dependencies, the {doc,src} files are split into separate containers (.tar.xz) during container build time. This has NO effect on the appearance within texlive.tlpdb. It is only on the container level. The container_format/WHATEVER specifies the format, currently \"xz\" is the only supported value (generating .tar.xz files). release/YYYY specifies the release number as used in the installer. minrelease/ZZZZ specifies the minimum release for which this repository is valid, i.e., a release of ZZZZ or later can theoretically be upgraded. Further information concerning upgrades can be found at http://www.tug.org/texlive/upgrade.html frozen/[01] specifies whether the release has been frozen The default values are taken from TeXLive::TLConfig::TLPDBConfigs hash values at tlpdb creation time but can be overridden here if necessary. For information on the 00texlive prefix see 00texlive.installation(.tlpsrc)".to_owned()),
            post_action: Vec::new(),
            relocated: false,
            revision: 54074,
            short_desc: Some("TeX Live network archive option settings".to_owned()),
            bin_files: Vec::new(),
            doc_container_checksum: None,
            doc_container_size: None,
            doc_files: None,
            run_files: None,
            src_container_checksum: None,
            src_container_size: None,
            src_files: None,
        }
    );
}

#[test]
fn longdesc_lines_concatenate_with_single_spaces() {
    let input = "name pkg\ncategory Package\nrevision 1\nlongdesc A\nlongdesc B.\nlongdesc C\n";
    let (parsed, end) = parse_entry(input, 0).unwrap();
    assert_eq!(end, input.chars().count());
    assert_eq!(parsed.long_desc, Some("A B. C".to_owned()));
}

#[test]
fn duplicate_single_field_fails_record() {
    let input = "name pkg\ncategory Package\nrevision 1\nrevision 2\n";
    assert!(parse_entry(input, 0).is_none());
}

#[test]
fn revision_wider_than_its_width_fails_record() {
    let input = "name pkg\ncategory Package\nrevision 99999999999\n";
    assert!(parse_entry(input, 0).is_none());
}

#[test]
fn file_groups_collect_indented_paths() {
    let input = "name pkg\ncategory Package\nrevision 7\nrunfiles size=12\n a/b.sty\n a/c.sty\nbinfiles arch=x86_64-linux size=3\n bin/tool\nbinfiles arch=x86_64-linux size=4\n bin/tool2\n";
    let (parsed, end) = parse_entry(input, 0).unwrap();
    assert_eq!(end, input.chars().count());
    let run = parsed.run_files.unwrap();
    assert_eq!(run.size, 12);
    assert_eq!(run.files, vec!["a/b.sty".to_owned(), "a/c.sty".to_owned()]);
    assert_eq!(parsed.bin_files.len(), 1);
    assert_eq!(parsed.bin_files[0].0, "x86_64-linux");
    assert_eq!(parsed.bin_files[0].1.size, 4);
    assert_eq!(parsed.bin_files[0].1.files, vec!["bin/tool2".to_owned()]);
}

#[test]
fn comments_are_skipped_between_lines() {
    let input = "name pkg\n# a comment\ncategory Package\n# another\nrevision 5\n";
    let (parsed, end) = parse_entry(input, 0).unwrap();
    assert_eq!(end, input.chars().count());
    assert_eq!(parsed.revision, 5);
    assert!(matches!(parsed.category, Category::Package));
}

#[test]
fn records_separated_by_blank_lines() {
    let input = "name a\ncategory Package\nrevision 1\n\nname b\ncategory Scheme\nrevision 2\n";
    let (entries, end) = parse_entries(input, 0);
    assert_eq!(end, input.chars().count());
    assert_eq!(entries.len(), 2);
    assert_eq!(entries[0].name, "a");
    assert_eq!(entries[1].name, "b");
    assert_eq!(entries[1].revision, 2);
}

#[test]
fn unknown_field_stops_the_parse() {
    let input = "name a\ncategory Package\nrevision 1\nbogus x\n";
    let (entries, end) = parse_entries(input, 0);
    assert!(entries.is_empty());
    assert_eq!(end, 0);
    assert!(end != input.chars().count());
}

#[test]
fn missing_required_field_fails_record() {
    let input = "name a\ncategory Package\n";
    assert!(parse_entry(input, 0).is_none());
}

#[test]
fn converted_topology_deduplicates_and_merges() {
    let b = BorrowedMirrors(vec![
        (
            "Europe".to_owned(),
            BorrowedContinentMirrors(vec![(
                "Germany".to_owned(),
                BorrowedCountryMirrors(vec![
                    BorrowedMirror("https://a/".to_owned()),
                    BorrowedMirror("https://a/".to_owned()),
                    BorrowedMirror("https://b/".to_owned()),
                ]),
            )]),
        ),
        (
            "Europe".to_owned(),
            BorrowedContinentMirrors(vec![(
                "France".to_owned(),
                BorrowedCountryMirrors(vec![BorrowedMirror("https://c/".to_owned())]),
            )]),
        ),
    ]);
    let m = Mirrors::from_borrowed(&b);
    assert_eq!(m.0.len(), 1);
    assert_eq!(m.0[0].0, "Europe");
    let continent = &m.0[0].1;
    assert_eq!(continent.0.len(), 1);
    assert_eq!(continent.0[0].0, "France");
    assert_eq!(continent.0[0].1 .0.len(), 1);
    assert_eq!(continent.0[0].1 .0[0].0, "https://c/");
}
