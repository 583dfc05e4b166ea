use nextsv::{Error, Level, Semantic};

fn text_of(result: Result<Semantic, Error>) -> String {
    match result {
        Ok(s) => s.to_string(),
        Err(e) => e.to_string(),
    }
}

#[test]
fn semantic_display_semantic_version_number() {
    let version = Semantic::default();

    assert_eq!("0.0.0", &version.to_string());
}

#[test]
fn semantic_bump_patch_version_number_by_one() {
    let mut version = Semantic::default();
    let updated_version = version.increment_patch();

    assert_eq!("0.0.1", &updated_version.to_string());
}

#[test]
fn semantic_bump_minor_version_number_by_one() {
    let mut version = Semantic::default();
    let updated_version = version.increment_minor();

    assert_eq!("0.1.0", &updated_version.to_string());
}

#[test]
fn semantic_bump_major_version_number_by_one() {
    let mut version = Semantic::default();
    let updated_version = version.increment_major();

    assert_eq!("1.0.0", &updated_version.to_string());
}

#[test]
fn nextsv_display_semantic_version_number() {
    let version = Semantic::default();

    assert_eq!("0.0.0", &version.to_string());
}

#[test]
fn nextsv_bump_patch_version_number_by_one() {
    let mut version = Semantic::default();
    let updated_version = version.increment_patch();

    assert_eq!("0.0.1", &updated_version.to_string());
}

#[test]
fn nextsv_bump_minor_version_number_by_one() {
    let mut version = Semantic::default();
    let updated_version = version.increment_minor();

    assert_eq!("0.1.0", &updated_version.to_string());
}

#[test]
fn nextsv_bump_major_version_number_by_one() {
    let mut version = Semantic::default();
    let updated_version = version.increment_major();

    assert_eq!("1.0.0", &updated_version.to_string());
}

#[test]
fn parse_valid_version_tag_to_new_semantic_struct() {
    let tag = "v0.3.90";
    let version_prefix = "v";
    let semantic = Semantic::parse(tag, version_prefix);

    assert!(semantic.is_ok());
    let semantic = text_of(semantic);
    assert_eq!(tag, semantic);
}

#[test]
fn parse_long_valid_version_tag_to_new_semantic_struct() {
    let tag = "Release Version 0.3.90";
    let version_prefix = "Release Version ";
    let semantic = Semantic::parse(tag, version_prefix);

    assert!(semantic.is_ok());
    let semantic = text_of(semantic);
    assert_eq!(tag, semantic);
}

#[test]
fn parse_error_failed_not_version_tag() {
    let tag = "0.3.90";
    let version_prefix = "v";
    let semantic = Semantic::parse(tag, version_prefix);

    assert!(semantic.is_err());
    let semantic = text_of(semantic);
    assert_eq!(
        r#"Version tags must start with "v" but tag is 0.3.90"#,
        semantic
    );
}

#[test]
fn parse_error_too_many_components() {
    let tag = "v0.3.90.8";
    let version_prefix = "v";
    let semantic = Semantic::parse(tag, version_prefix);

    assert!(semantic.is_err());
    let semantic = text_of(semantic);
    assert_eq!(
        "Version must have three components but at least 4 were found",
        semantic
    );
}

#[test]
fn parse_error_not_enough_components() {
    let tag = "v0.3";
    let version_prefix = "v";
    let semantic = Semantic::parse(tag, version_prefix);

    assert!(semantic.is_err());
    let semantic = text_of(semantic);
    assert_eq!(
        "Version must have three components but only 2 found",
        semantic
    );
}

#[test]
fn parse_error_version_must_be_a_number() {
    let tag = "v0.3.90-8";
    let version_prefix = "v";
    let semantic = Semantic::parse(tag, version_prefix);

    assert!(semantic.is_err());
    let semantic = text_of(semantic);
    assert_eq!("Invalid PreRelease format: 8", semantic);
}

#[test]
fn parse_reads_the_three_numbers() {
    let version = Semantic::parse("v0.2.3", "v").unwrap();

    assert_eq!(0, version.major());
    assert_eq!(2, version.minor());
    assert_eq!(3, version.patch());
    assert!(version.pre_release().is_none());
}

#[test]
fn parse_reads_a_pre_release() {
    let version = Semantic::parse("v0.3.90-rc.4", "v").unwrap();

    assert_eq!(0, version.major());
    assert_eq!(3, version.minor());
    assert_eq!(90, version.patch());
    let pre = version.pre_release().unwrap();
    assert_eq!("rc", pre.suffix());
    assert_eq!(4, pre.id());
}

#[test]
fn round_trip_of_the_tags_that_parse() {
    for (tag, prefix) in [
        ("v0.3.90", "v"),
        ("v0.3.90-rc.4", "v"),
        ("Release Version 0.3.90", "Release Version "),
        ("0.0.0", ""),
        ("v10.20.30-alpha-1.0", "v"),
        ("v18446744073709551615.0.0", "v"),
    ] {
        let version = Semantic::parse(tag, prefix).unwrap();
        assert_eq!(tag, version.to_string());
        let again = Semantic::parse(&version.to_string(), prefix).unwrap();
        assert_eq!(version.to_string(), again.to_string());
    }
}

#[test]
fn parse_takes_the_prefix_away_once() {
    assert_eq!(
        "Version must be a number but found v1",
        text_of(Semantic::parse("vv1.2.3", "v"))
    );
}

#[test]
fn parse_refuses_what_is_not_a_numeral() {
    assert_eq!(
        "Version must be a number but found ",
        text_of(Semantic::parse("v", "v"))
    );
    assert_eq!(
        "Version must be a number but found x",
        text_of(Semantic::parse("v1.x", "v"))
    );
    assert_eq!(
        "Version must be a number but found 01",
        text_of(Semantic::parse("v01.2.3", "v"))
    );
    assert_eq!(
        "Version must be a number but found +1",
        text_of(Semantic::parse("v+1.2.3", "v"))
    );
    assert_eq!(
        "Version must be a number but found -1",
        text_of(Semantic::parse("v1.-1.3", "v"))
    );
    assert_eq!(
        "Version must be a number but found 18446744073709551616",
        text_of(Semantic::parse("v18446744073709551616.0.0", "v"))
    );
    assert_eq!(
        "Version must be a number but found x",
        text_of(Semantic::parse("v1.2.x.4", "v"))
    );
    assert_eq!(
        "Version must be a number but found x",
        text_of(Semantic::parse("v1.2.x-rc.1", "v"))
    );
    assert_eq!(
        "Version must be a number but found x",
        text_of(Semantic::parse("v1.2.x-rc", "v"))
    );
    assert_eq!(
        "Version must be a number but found ",
        text_of(Semantic::parse("v1.2.-rc.1", "v"))
    );
}

#[test]
fn parse_counts_the_components() {
    assert_eq!(
        "Version must have three components but only 1 found",
        text_of(Semantic::parse("v1", "v"))
    );
    assert_eq!(
        "Version must have three components but at least 4 were found",
        text_of(Semantic::parse("v1.2.3.4.5", "v"))
    );
}

#[test]
fn parse_refuses_a_malformed_pre_release() {
    assert_eq!(
        "Invalid PreRelease format: .4",
        text_of(Semantic::parse("v1.2.3-.4", "v"))
    );
    assert_eq!(
        "Invalid PreRelease format: rc.x",
        text_of(Semantic::parse("v1.2.3-rc.x", "v"))
    );
    assert_eq!(
        "Invalid PreRelease format: rc.4.5",
        text_of(Semantic::parse("v1.2.3-rc.4.5", "v"))
    );
    assert_eq!(
        "Invalid PreRelease format: rc.",
        text_of(Semantic::parse("v1.2.3-rc.", "v"))
    );
    assert_eq!(
        "Invalid PreRelease format: rc",
        text_of(Semantic::parse("v1.2.3-rc", "v"))
    );
    assert_eq!(
        "Invalid PreRelease format: ",
        text_of(Semantic::parse("v1.2.3-", "v"))
    );
    assert_eq!(
        "Invalid PreRelease format: 8",
        text_of(Semantic::parse("v0.3.90-8", "v"))
    );
    assert_eq!(
        "Invalid PreRelease format: rc-1",
        text_of(Semantic::parse("v1.2.3-rc-1", "v"))
    );
}

#[test]
fn parse_errors_are_told_apart() {
    assert!(matches!(
        Semantic::parse("1.2.3", "v"),
        Err(Error::NotVersionTag(prefix, tag)) if prefix == "v" && tag == "1.2.3"
    ));
    assert!(matches!(
        Semantic::parse("v1.2.3.4", "v"),
        Err(Error::TooManyComponents(4))
    ));
    assert!(matches!(
        Semantic::parse("v1.2", "v"),
        Err(Error::TooFewComponents(2))
    ));
    assert!(matches!(
        Semantic::parse("v1.2.a", "v"),
        Err(Error::MustBeNumber(text)) if text == "a"
    ));
    assert!(matches!(
        Semantic::parse("v1.2.3-rc.a", "v"),
        Err(Error::InvalidPreReleaseFormat(text)) if text == "rc.a"
    ));
}

#[test]
fn increments_change_their_own_number_and_reset_the_lower_ones() {
    let start = Semantic::parse("v4.5.6", "v").unwrap();

    let mut version = start.clone();
    version.increment_patch();
    assert_eq!((4, 5, 7), (version.major(), version.minor(), version.patch()));

    let mut version = start.clone();
    version.increment_minor();
    assert_eq!((4, 6, 0), (version.major(), version.minor(), version.patch()));

    let mut version = start.clone();
    version.increment_major();
    assert_eq!((5, 0, 0), (version.major(), version.minor(), version.patch()));

    let mut version = start.clone();
    version.increment_patch().increment_minor().increment_major();
    assert_eq!("v5.0.0", version.to_string());
}

#[test]
fn increments_keep_the_prefix_and_the_pre_release() {
    let mut version = Semantic::parse("v4.5.6-rc.2", "v").unwrap();
    version.increment_minor();

    assert_eq!("v4.6.0-rc.2", version.to_string());
}

#[test]
fn breaking_increment_goes_by_the_major_number() {
    let mut version = Semantic::parse("v0.5.6", "v").unwrap();
    version.breaking_increment();
    assert_eq!("v0.6.0", version.to_string());

    let mut version = Semantic::parse("v1.5.6", "v").unwrap();
    version.breaking_increment();
    assert_eq!("v2.0.0", version.to_string());
}

#[test]
fn first_production_is_made_once() {
    let mut version = Semantic::parse("v0.5.6", "v").unwrap();
    assert!(version.first_production().is_ok());
    assert_eq!("v1.0.0", version.to_string());

    let again = version.first_production();
    assert!(matches!(again, Err(Error::MajorAlreadyUsed(major)) if major == "1"));
    assert_eq!("v1.0.0", version.to_string());

    let mut version = Semantic::parse("v12.5.6", "v").unwrap();
    let error = version.first_production().unwrap_err();
    assert_eq!(
        "First production release already deployed. Current major version: 12",
        error.to_string()
    );
}

#[test]
fn first_production_leaves_the_pre_release_behind() {
    let mut version = Semantic::parse("v0.5.6-rc.1", "v").unwrap();
    assert!(version.first_production().is_ok());

    assert_eq!("v1.0.0", version.to_string());
}

#[test]
fn pre_release_lifecycle() {
    let mut version = Semantic::default();

    version.first_pre_release("rc");
    assert_eq!("0.0.0-rc.0", version.to_string());

    version.increment_pre_release();
    assert_eq!("0.0.0-rc.1", version.to_string());

    version.unset_pre_release();
    assert_eq!("0.0.0", version.to_string());
    assert!(version.pre_release().is_none());
}

#[test]
fn new_builds_a_release() {
    let version = Semantic::new("ver".to_string(), 7, 8, 9);

    assert_eq!("ver7.8.9", version.to_string());
}

#[test]
fn versions_are_equal_by_what_they_hold() {
    let a = Semantic::parse("v1.2.3-rc.1", "v").unwrap();
    let b = Semantic::parse("v1.2.3-rc.1", "v").unwrap();
    let c = Semantic::parse("v1.2.3-rc.2", "v").unwrap();

    assert!(a == b);
    assert!(a != c);
    assert!(a == a.clone());
}

#[test]
fn level_names() {
    assert_eq!("none", Level::NoChange.to_string());
    assert_eq!("patch", Level::Patch.to_string());
    assert_eq!("minor", Level::Minor.to_string());
    assert_eq!("major", Level::Major.to_string());
    assert_eq!("pre-release", Level::PreRelease.to_string());
    assert_eq!("release", Level::Release.to_string());
    assert_eq!("alpha", Level::Alpha.to_string());
    assert_eq!("beta", Level::Beta.to_string());
    assert_eq!("rc", Level::Rc.to_string());
    assert_eq!(Level::NoChange, Level::default());
    assert!(Level::NoChange < Level::Patch);
    assert!(Level::Patch < Level::Minor);
    assert!(Level::Minor < Level::Major);
}

#[test]
fn parse_counts_characters_not_bytes() {
    let version = Semantic::parse("vé1.2.3-β.4", "vé").unwrap();

    assert_eq!(1, version.major());
    assert_eq!("β", version.pre_release().unwrap().suffix());
    assert_eq!("vé1.2.3-β.4", version.to_string());
    assert_eq!(
        "Version must be a number but found é",
        text_of(Semantic::parse("v1.é.3", "v"))
    );
}

#[test]
fn versions_are_ordered() {
    let ordered = [
        "v0.0.1",
        "v0.1.0",
        "v0.1.1",
        "v0.2.0",
        "v1.0.0-alpha.0",
        "v1.0.0-alpha.1",
        "v1.0.0-alpha.10",
        "v1.0.0-alphabet.0",
        "v1.0.0-beta.0",
        "v1.0.0",
        "v1.0.1-rc.0",
        "v2.0.0",
        "v10.0.0",
    ];
    for (i, lower) in ordered.iter().enumerate() {
        let a = Semantic::parse(lower, "v").unwrap();
        assert!(!(a < a));
        assert!(a <= a);
        for higher in &ordered[i + 1..] {
            let b = Semantic::parse(higher, "v").unwrap();
            assert!(a < b);
            assert!(b > a);
            assert!(!(b < a));
            assert!(a != b);
        }
    }
}

#[test]
fn versions_under_two_prefixes_are_not_compared() {
    let a = Semantic::parse("v1.0.0", "v").unwrap();
    let b = Semantic::parse("w1.0.0", "w").unwrap();
    let c = Semantic::parse("w1.0.1", "w").unwrap();

    assert!(a.partial_cmp(&b).is_none());
    assert!(a != b);
    assert!(a < c);
}

#[test]
fn increments_go_up() {
    let start = Semantic::parse("v4.5.6-rc.1", "v").unwrap();

    let mut next = start.clone();
    next.increment_patch();
    assert!(start < next);
    let mut next = start.clone();
    next.increment_minor();
    assert!(start < next);
    let mut next = start.clone();
    next.increment_major();
    assert!(start < next);
    let mut next = start.clone();
    next.increment_pre_release();
    assert!(start < next);
    let mut next = start.clone();
    next.unset_pre_release();
    assert!(start < next);
}

#[test]
fn suffix_of_a_pre_release() {
    assert!(Semantic::can_be_suffix("rc"));
    assert!(Semantic::can_be_suffix("alpha-1"));
    assert!(Semantic::can_be_suffix("β"));
    assert!(!Semantic::can_be_suffix(""));
    assert!(!Semantic::can_be_suffix("rc.1"));
    assert!(!Semantic::can_be_suffix("."));
    assert!(!Semantic::can_be_suffix("rc."));
}

#[test]
fn versions_that_are_made_read_back() {
    let mut version = Semantic::new("release-".to_string(), 3, 0, 7);
    for suffix in ["rc", "alpha-1", "1", "-"] {
        version.first_pre_release(suffix);
        version.increment_pre_release();
        version.increment_minor();
        let text = version.to_string();
        let again = Semantic::parse(&text, "release-").unwrap();
        assert!(version == again);
        assert_eq!(text, again.to_string());
    }
    version.unset_pre_release();
    let again = Semantic::parse(&version.to_string(), "release-").unwrap();
    assert!(version == again);
}
