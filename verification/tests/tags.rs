use buidl::tags::{
    checked_new_tag, compute_new_tag, last_tag, new_tag_among, read_tag, without_v, Semver,
    TagError, TagProblem, DEFAULT_VERSION,
};

fn strings(items: &[&str]) -> Vec<String> {
    items.iter().map(|s| s.to_string()).collect()
}

#[test]
fn tags_are_read_with_and_without_v() {
    let v = Semver { major: 1, minor: 22, patch: 333 };
    assert_eq!(read_tag("v1.22.333"), Ok(v));
    assert_eq!(read_tag("1.22.333"), Ok(v));
    assert_eq!(read_tag("vv1.22.333"), Err(TagProblem::MajorNotU32));
}

#[test]
fn a_version_has_three_parts_and_no_more() {
    assert_eq!(read_tag("v1.2.3.4"), Err(TagProblem::TooManyParts));
    assert_eq!(read_tag("1.2.3."), Err(TagProblem::TooManyParts));
    assert_eq!(read_tag("v1.2.3.beta"), Err(TagProblem::TooManyParts));
    assert_eq!(read_tag("v1.2.x.4"), Err(TagProblem::PatchNotU32));
    assert_eq!(read_tag("v1.2.3-rc1"), Err(TagProblem::PatchNotU32));
    match checked_new_tag(&strings(&["v1.2.3.4"]), "patch") {
        Err(TagError::Malformed { tag, problem }) => {
            assert_eq!(tag, "v1.2.3.4");
            assert_eq!(problem, TagProblem::TooManyParts);
        }
        other => panic!("{other:?}"),
    }
    assert_eq!(last_tag(&strings(&["v1.2.3.4", "v0.3.0"])), "0.3.0");
}

#[test]
fn the_first_three_parts_are_enough_among_mixed_tags() {
    let tags = strings(&["v1.2.3.4", "v0.3.0", "v9.9", "8.x.0"]);
    assert_eq!(new_tag_among(&tags, "patch").unwrap(), "v1.2.4");
}

#[test]
fn each_problem_of_a_tag_is_named() {
    assert_eq!(read_tag(""), Err(TagProblem::MissingMinor));
    assert_eq!(read_tag("latest"), Err(TagProblem::MissingMinor));
    assert_eq!(read_tag("v1.2"), Err(TagProblem::MissingPatch));
    assert_eq!(read_tag("x.2.3"), Err(TagProblem::MajorNotU32));
    assert_eq!(read_tag("1..3"), Err(TagProblem::MinorNotU32));
    assert_eq!(read_tag("1.2.z"), Err(TagProblem::PatchNotU32));
}

#[test]
fn numbers_are_read_as_the_standard_library_reads_them() {
    let cases = [
        "0", "00", "007", "+7", "++7", "-0", "", "+", " 1", "1 ", "4294967295", "4294967296",
        "00000000004294967295", "99999999999999999999", "1_0", "0x1", "٣", "1e3",
    ];
    for case in cases {
        let tag = format!("{case}.0.0");
        let expected = case.parse::<u32>().ok();
        assert_eq!(read_tag(&tag).ok().map(|v| v.major), expected, "{case:?}");
    }
}

#[test]
fn a_new_tag_is_read_back_as_the_version_that_was_cut() {
    let tag = compute_new_tag(&strings(&["v4.9.20"]), "minor");
    assert_eq!(tag, "v4.10.0");
    assert_eq!(read_tag(&tag), Ok(Semver { major: 4, minor: 10, patch: 0 }));
}

#[test]
fn the_default_version_is_a_version() {
    assert_eq!(read_tag(DEFAULT_VERSION), Ok(Semver { major: 0, minor: 1, patch: 0 }));
}

#[test]
fn a_new_tag_is_newer_than_all_and_not_among_them() {
    let tags = strings(&["v0.9.9", "v1.0.0", "0.10.0", "v1.0.0"]);
    for (kind, new) in [("patch", "v1.0.1"), ("minor", "v1.1.0"), ("major", "v2.0.0")] {
        let tag = compute_new_tag(&tags, kind);
        assert_eq!(tag, new);
        assert!(!tags.contains(&tag));
    }
}

#[test]
fn an_unknown_kind_raises_the_patch() {
    assert_eq!(compute_new_tag(&strings(&["v1.2.3"]), "whatever"), "v1.2.4");
}

#[test]
fn the_order_of_the_tags_does_not_count() {
    let a = strings(&["v0.1.0", "v0.10.0", "v0.2.0"]);
    let b = strings(&["v0.10.0", "v0.2.0", "v0.1.0", "v0.2.0"]);
    assert_eq!(last_tag(&a), "0.10.0");
    assert_eq!(last_tag(&a), last_tag(&b));
}

#[test]
fn a_malformed_tag_is_an_error_where_all_have_to_be_versions() {
    let tags = strings(&["v1.0.0", "latest", "also-bad"]);
    match checked_new_tag(&tags, "patch") {
        Err(TagError::Malformed { tag, problem }) => {
            assert_eq!(tag, "latest");
            assert_eq!(problem, TagProblem::MissingMinor);
        }
        other => panic!("{other:?}"),
    }
    assert_eq!(new_tag_among(&tags, "patch").unwrap(), "v1.0.1");
}

#[test]
fn the_largest_number_has_no_successor() {
    let tags = strings(&["v1.2.4294967295"]);
    assert!(matches!(checked_new_tag(&tags, "patch"), Err(TagError::Overflow)));
    assert!(matches!(new_tag_among(&tags, "patch"), Err(TagError::Overflow)));
    assert_eq!(checked_new_tag(&tags, "minor").unwrap(), "v1.3.0");
    let tags = strings(&["v4294967295.4294967295.0"]);
    assert!(matches!(checked_new_tag(&tags, "major"), Err(TagError::Overflow)));
    assert!(matches!(checked_new_tag(&tags, "minor"), Err(TagError::Overflow)));
    assert_eq!(checked_new_tag(&tags, "patch").unwrap(), "v4294967295.4294967295.1");
}

#[test]
fn one_leading_v_is_taken_off() {
    assert_eq!(without_v("v1.2.3"), "1.2.3");
    assert_eq!(without_v("1.2.3"), "1.2.3");
    assert_eq!(without_v("vv1"), "v1");
    assert_eq!(without_v(""), "");
}

#[test]
fn the_released_version_is_the_next_seed() {
    let mut tags = strings(&["v0.9.0", "junk", "1.4.1"]);
    for kind in ["patch", "minor", "major", "patch"] {
        let new = new_tag_among(&tags, kind).unwrap();
        tags.push(new.clone());
        assert_eq!(last_tag(&tags), without_v(&new));
    }
    assert_eq!(last_tag(&tags), "2.0.1");
}
