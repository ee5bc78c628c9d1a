use tlmirror_audit::classify::{get_mirror_data_from_tlpdb, MirrorData};

fn config_doc(deps: &[&str]) -> String {
    let mut doc = String::from("name 00texlive.config\ncategory TLCore\nrevision 54074\n");
    for d in deps {
        doc.push_str("depend ");
        doc.push_str(d);
        doc.push('\n');
    }
    doc
}

#[test]
fn release_and_revision_classify_alive() {
    let doc = config_doc(&[
        "container_format/xz",
        "frozen/0",
        "release/2024",
        "revision/70660",
    ]);
    assert_eq!(
        get_mirror_data_from_tlpdb(&doc),
        MirrorData::Alive {
            texlive_version: 2024,
            revision: 70660
        }
    );
}

#[test]
fn missing_revision_classifies_dead() {
    let doc = config_doc(&["container_format/xz", "release/2024"]);
    assert_eq!(get_mirror_data_from_tlpdb(&doc), MirrorData::Dead);
}

#[test]
fn missing_release_classifies_dead() {
    let doc = config_doc(&["revision/70660"]);
    assert_eq!(get_mirror_data_from_tlpdb(&doc), MirrorData::Dead);
}

#[test]
fn wrong_first_record_classifies_dead() {
    let doc = "name other.package\ncategory TLCore\nrevision 1\ndepend release/2024\ndepend revision/70660\n";
    assert_eq!(get_mirror_data_from_tlpdb(doc), MirrorData::Dead);
}

#[test]
fn unparsable_release_classifies_dead() {
    let doc = config_doc(&["release/not-a-year", "revision/70660"]);
    assert_eq!(get_mirror_data_from_tlpdb(doc.as_str()), MirrorData::Dead);
}

#[test]
fn release_beyond_its_width_classifies_dead() {
    let doc = config_doc(&["release/70000", "revision/70660"]);
    assert_eq!(get_mirror_data_from_tlpdb(doc.as_str()), MirrorData::Dead);
}

#[test]
fn later_duplicate_dependency_wins() {
    let doc = config_doc(&["release/2023", "release/2024", "revision/70660"]);
    assert_eq!(
        get_mirror_data_from_tlpdb(&doc),
        MirrorData::Alive {
            texlive_version: 2024,
            revision: 70660
        }
    );
}

#[test]
fn signed_values_parse_as_the_standard_library_does() {
    let doc = config_doc(&["release/+2024", "revision/70660"]);
    assert_eq!(
        get_mirror_data_from_tlpdb(&doc),
        MirrorData::Alive {
            texlive_version: 2024,
            revision: 70660
        }
    );
}

#[test]
fn trailing_garbage_classifies_dead() {
    let mut doc = config_doc(&["release/2024", "revision/70660"]);
    doc.push_str("\nnot a record\n");
    assert_eq!(get_mirror_data_from_tlpdb(&doc), MirrorData::Dead);
}

#[test]
fn empty_document_classifies_dead() {
    assert_eq!(get_mirror_data_from_tlpdb(""), MirrorData::Dead);
}
