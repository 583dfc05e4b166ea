use nextsv::{
    calculate, check_level, has_existing_pre_release, latest, output_text, Answer, Change, Error,
    ForceLevel, ForceOptions, Level, Semantic, TypeHierarchy, VersionCalculator,
};

fn names(list: &[&str]) -> Vec<String> {
    list.iter().map(|name| name.to_string()).collect()
}

fn change(summary: &str, files: &[&str]) -> Change {
    Change {
        summary: Some(summary.to_string()),
        files: names(files),
    }
}

fn calculator(tag: &str, pre_release: Option<&str>) -> VersionCalculator {
    VersionCalculator::from_version(
        Semantic::parse(tag, "v").unwrap(),
        pre_release.map(|suffix| suffix.to_string()),
    )
}

fn walked(tag: &str, pre_release: Option<&str>, summaries: &[&str]) -> VersionCalculator {
    let changes: Vec<Change> = summaries.iter().map(|s| change(s, &[])).collect();
    calculator(tag, pre_release).walk_commits(&changes)
}

fn answer_of(mut calculator: VersionCalculator) -> (Level, String, Option<TypeHierarchy>) {
    let answer = calculator.next_version();
    (
        answer.bump_level,
        answer.version_number.to_string(),
        answer.change_level,
    )
}

#[test]
fn latest_is_the_highest_version_tag() {
    let tags = names(&[
        "refs/tags/v0.1.0",
        "refs/tags/v0.10.0",
        "refs/tags/v0.9.3",
        "refs/tags/not-a-version",
        "refs/heads/v9.9.9",
        "refs/tags/w3.0.0",
        "v8.0.0",
    ]);

    assert_eq!("v0.10.0", latest(&tags, "v").unwrap().to_string());
    assert_eq!("w3.0.0", latest(&tags, "w").unwrap().to_string());
}

#[test]
fn latest_puts_a_release_after_its_pre_releases() {
    let tags = names(&[
        "refs/tags/v1.0.0-rc.2",
        "refs/tags/v1.0.0",
        "refs/tags/v1.0.0-rc.10",
        "refs/tags/v0.9.9",
    ]);
    assert_eq!("v1.0.0", latest(&tags, "v").unwrap().to_string());

    let tags = names(&[
        "refs/tags/v1.0.0-rc.2",
        "refs/tags/v1.0.0-rc.10",
        "refs/tags/v1.0.0-beta.30",
        "refs/tags/v0.9.9",
    ]);
    assert_eq!("v1.0.0-rc.10", latest(&tags, "v").unwrap().to_string());
}

#[test]
fn latest_needs_a_version_tag() {
    let tags = names(&["refs/tags/one", "refs/tags/1.2.3", "v1.2.3"]);

    let error = latest(&tags, "v").unwrap_err();
    assert!(matches!(error, Error::NoVersionTag));
    assert_eq!(
        "No valid version tag found in the repository",
        error.to_string()
    );
    assert!(matches!(latest(&Vec::new(), "v"), Err(Error::NoVersionTag)));
}

#[test]
fn new_starts_from_the_latest_tag() {
    let tags = names(&["refs/tags/v0.1.0", "refs/tags/v0.2.0"]);
    let mut calculator = VersionCalculator::new(&tags, "v", Some("rc".to_string())).unwrap();

    assert_eq!("v0.2.0", calculator.name().to_string());
    assert_eq!(None, calculator.top_level());
    assert_eq!(0, calculator.count_commits_by_type("feat"));
    assert!(!calculator.breaking());
    assert_eq!(Some("rc".to_string()), calculator.get_pre_release());

    assert!(matches!(
        VersionCalculator::new(&tags, "x", None),
        Err(Error::NoVersionTag)
    ));
}

#[test]
fn no_commits_no_change() {
    let (level, version, change_level) = answer_of(calculator("v1.2.3", None));

    assert_eq!(Level::NoChange, level);
    assert_eq!("v1.2.3", version);
    assert_eq!(None, change_level);
}

#[test]
fn commits_without_a_conventional_one_change_nothing() {
    let (level, version, change_level) =
        answer_of(walked("v1.2.3", None, &["Merge branch", "update"]));

    assert_eq!(Level::NoChange, level);
    assert_eq!("v1.2.3", version);
    assert_eq!(None, change_level);
}

#[test]
fn decision_table_from_one_on() {
    assert_eq!(
        (Level::Major, "v2.0.0".to_string(), Some(TypeHierarchy::Breaking)),
        answer_of(walked("v1.2.3", None, &["fix!: a", "feat: b"]))
    );
    assert_eq!(
        (Level::Minor, "v1.3.0".to_string(), Some(TypeHierarchy::Feature)),
        answer_of(walked("v1.2.3", None, &["fix: a", "feat: b"]))
    );
    assert_eq!(
        (Level::Patch, "v1.2.4".to_string(), Some(TypeHierarchy::Fix)),
        answer_of(walked("v1.2.3", None, &["fix: a", "docs: b"]))
    );
    assert_eq!(
        (Level::Patch, "v1.2.4".to_string(), Some(TypeHierarchy::Other)),
        answer_of(walked("v1.2.3", None, &["chore: a"]))
    );
}

#[test]
fn decision_table_before_one() {
    assert_eq!(
        (Level::Minor, "v0.3.0".to_string(), Some(TypeHierarchy::Breaking)),
        answer_of(walked("v0.2.3", None, &["fix!: a", "feat: b"]))
    );
    assert_eq!(
        (Level::Patch, "v0.2.4".to_string(), Some(TypeHierarchy::Feature)),
        answer_of(walked("v0.2.3", None, &["feat: b"]))
    );
    assert_eq!(
        (Level::Patch, "v0.2.4".to_string(), Some(TypeHierarchy::Fix)),
        answer_of(walked("v0.2.3", None, &["fix: b"]))
    );
}

#[test]
fn breaking_wins_over_a_feature() {
    let mut calculator = walked("v3.0.0", None, &["feat: new", "feat!: newer"]);

    assert!(calculator.breaking());
    assert_eq!(2, calculator.count_commits_by_type("feat"));
    assert_eq!(Level::Major, calculator.next_version().bump_level);
}

#[test]
fn next_version_leaves_the_calculator_as_it_is() {
    let mut calculator = walked("v1.2.3", None, &["feat: b"]);
    let first = calculator.next_version();
    let second = calculator.next_version();

    assert_eq!("v1.3.0", first.version_number.to_string());
    assert_eq!("v1.3.0", second.version_number.to_string());
    assert_eq!("v1.2.3", calculator.name().to_string());
}

#[test]
fn force_replaces_the_tally() {
    let mut calculator = walked("v1.2.3", None, &["feat!: b", "fix: c"]);

    let mut forced = calculator.force(ForceLevel::Patch);
    assert!(!forced.breaking());
    assert_eq!(1, forced.count_commits_by_type("fix"));
    assert_eq!(0, forced.count_commits_by_type("feat"));
    assert_eq!(None, forced.top_level());
    let answer = forced.next_version();
    assert_eq!(Level::Patch, answer.bump_level);
    assert_eq!("v1.2.4", answer.version_number.to_string());
    assert_eq!(None, answer.change_level);
    assert_eq!(1, calculator.count_commits_by_type("fix"));

    let answer = calculator.force(ForceLevel::Minor).next_version();
    assert_eq!(Level::Minor, answer.bump_level);
    assert_eq!("v1.3.0", answer.version_number.to_string());

    let answer = calculator.force(ForceLevel::Major).next_version();
    assert_eq!(Level::Major, answer.bump_level);
    assert_eq!("v2.0.0", answer.version_number.to_string());
}

#[test]
fn force_is_dampened_before_one() {
    let mut calculator = calculator("v0.2.3", None);

    let answer = calculator.force(ForceLevel::Major).next_version();
    assert_eq!(Level::Minor, answer.bump_level);
    assert_eq!("v0.3.0", answer.version_number.to_string());

    let answer = calculator.force(ForceLevel::Minor).next_version();
    assert_eq!(Level::Patch, answer.bump_level);
    assert_eq!("v0.2.4", answer.version_number.to_string());
}

#[test]
fn force_level_names() {
    assert_eq!("major", ForceLevel::Major.to_string());
    assert_eq!("minor", ForceLevel::Minor.to_string());
    assert_eq!("patch", ForceLevel::Patch.to_string());
    assert_eq!("major", ForceOptions::Major.to_string());
    assert_eq!("minor", ForceOptions::Minor.to_string());
    assert_eq!("patch", ForceOptions::Patch.to_string());
    assert_eq!("first", ForceOptions::First.to_string());
}

#[test]
fn promote_first_is_made_once() {
    let mut calculator = walked("v0.4.2", None, &["fix: a"]);

    let answer = calculator.promote_first().unwrap();
    assert_eq!(Level::Major, answer.bump_level);
    assert_eq!("v1.0.0", answer.version_number.to_string());
    assert_eq!(None, answer.change_level);
    assert_eq!(Some(TypeHierarchy::Fix), calculator.top_level());
    assert_eq!("v1.0.0", calculator.name().to_string());

    let error = calculator.promote_first().unwrap_err();
    assert!(matches!(&error, Error::MajorAlreadyUsed(major) if major == "1"));
    assert_eq!(
        "First production release already deployed. Current major version: 1",
        error.to_string()
    );
    assert_eq!("v1.0.0", calculator.name().to_string());
}

#[test]
fn walk_commits_lists_the_files() {
    let changes = vec![
        change("feat: a", &["lib.rs", "CHANGELOG.md"]),
        Change {
            summary: None,
            files: names(&["README.md", "lib.rs"]),
        },
        change("not conventional", &["Cargo.toml"]),
    ];
    let calculator = calculator("v1.0.0", None).walk_commits(&changes);

    assert_eq!(1, calculator.count_commits_by_type("feat"));
    assert_eq!(Some(TypeHierarchy::Feature), calculator.top_level());
    assert!(calculator
        .has_required(
            names(&["CHANGELOG.md", "README.md", "Cargo.toml", "lib.rs"]),
            TypeHierarchy::Other
        )
        .is_ok());
    let error = calculator
        .has_required(names(&["LICENSE"]), TypeHierarchy::Other)
        .unwrap_err();
    assert!(matches!(error, Error::MissingRequiredFile(missing) if missing == names(&["LICENSE"])));
}

#[test]
fn required_files_are_asked_for_from_the_level_on() {
    let changes = vec![change("fix: a", &["lib.rs"])];
    let calculator = calculator("v1.0.0", None).walk_commits(&changes);

    assert!(calculator
        .has_required(names(&["CHANGELOG.md"]), TypeHierarchy::Feature)
        .is_ok());
    assert!(calculator
        .has_required(names(&["CHANGELOG.md"]), TypeHierarchy::Breaking)
        .is_ok());
    assert!(calculator
        .has_required(names(&["CHANGELOG.md"]), TypeHierarchy::Fix)
        .is_err());
    assert!(calculator
        .has_required(names(&["CHANGELOG.md"]), TypeHierarchy::Other)
        .is_err());
}

#[test]
fn required_files_that_are_missing_are_all_named() {
    let changes = vec![change("feat: a", &["lib.rs", "b.txt"])];
    let calculator = calculator("v1.0.0", None).walk_commits(&changes);

    let error = calculator
        .has_required(
            names(&["a.txt", "b.txt", "c.txt", "lib.rs", "a.txt"]),
            TypeHierarchy::Feature,
        )
        .unwrap_err();
    assert_eq!(
        "Missing the required file(s): [\"a.txt\", \"c.txt\", \"a.txt\"].",
        error.to_string()
    );
    assert_eq!(13, error.exit_code());
    assert_eq!(Some(error.to_string()), error.exit_message());
    match error {
        Error::MissingRequiredFile(missing) => {
            assert_eq!(names(&["a.txt", "c.txt", "a.txt"]), missing)
        }
        _ => panic!("another error"),
    }
}

#[test]
fn required_files_need_the_list_of_changed_files() {
    let mut calculator = calculator("v1.0.0", None);

    let error = calculator
        .has_required(names(&["a.txt"]), TypeHierarchy::Other)
        .unwrap_err();
    assert!(matches!(error, Error::NoFilesListed));
    assert!(calculator
        .has_required(names(&["a.txt"]), TypeHierarchy::Fix)
        .is_ok());

    calculator.force(ForceLevel::Major);
    assert!(calculator
        .has_required(names(&["a.txt"]), TypeHierarchy::Breaking)
        .is_ok());
    assert!(matches!(
        calculator.has_required(Vec::new(), TypeHierarchy::Other),
        Err(Error::NoFilesListed)
    ));
}

#[test]
fn pre_release_setting() {
    let mut calculator = calculator("v1.0.0", None);
    assert_eq!(None, calculator.get_pre_release());
    calculator.set_pre_release(Some("alpha".to_string()));
    assert_eq!(Some("alpha".to_string()), calculator.get_pre_release());
    calculator.set_pre_release(None);
    assert_eq!(None, calculator.get_pre_release());
}

#[test]
fn answer_holds_what_it_is_given() {
    let answer = Answer::new(
        Level::Minor,
        Semantic::parse("v1.1.0", "v").unwrap(),
        Some(TypeHierarchy::Feature),
    );
    assert_eq!(Level::Minor, answer.bump_level);
    assert_eq!("v1.1.0", answer.version_number.to_string());
    assert_eq!(TypeHierarchy::Feature, answer.change_level());

    let answer = Answer::new(Level::NoChange, Semantic::default(), None);
    assert_eq!(TypeHierarchy::Other, answer.change_level());
}

#[test]
fn existing_pre_release_is_told() {
    assert!(has_existing_pre_release(
        Semantic::parse("v1.0.0-rc.1", "v").unwrap()
    ));
    assert!(!has_existing_pre_release(
        Semantic::parse("v1.0.0", "v").unwrap()
    ));
}

#[test]
fn check_level_reports_either_way() {
    assert!(check_level(None, TypeHierarchy::Breaking).is_ok());
    assert!(matches!(
        check_level(Some(TypeHierarchy::Feature), TypeHierarchy::Feature),
        Err(Error::MinimumChangeLevelMet)
    ));
    assert!(matches!(
        check_level(Some(TypeHierarchy::Feature), TypeHierarchy::Breaking),
        Err(Error::MinimumChangeLevelMet)
    ));
    assert!(matches!(
        check_level(Some(TypeHierarchy::Feature), TypeHierarchy::Fix),
        Err(Error::MinimumChangeLevelNotMet)
    ));
    assert!(matches!(
        check_level(Some(TypeHierarchy::Other), TypeHierarchy::Other),
        Err(Error::MinimumChangeLevelMet)
    ));
}

fn decided(
    calculator: VersionCalculator,
    force: Option<ForceOptions>,
) -> (Level, String, Option<TypeHierarchy>) {
    let answer = calculate(calculator, force, None, TypeHierarchy::Feature).unwrap();
    (
        answer.bump_level,
        answer.version_number.to_string(),
        answer.change_level,
    )
}

#[test]
fn calculate_goes_by_the_commits() {
    assert_eq!(
        (Level::Minor, "v1.3.0".to_string(), Some(TypeHierarchy::Feature)),
        decided(walked("v1.2.3", None, &["feat: a"]), None)
    );
    assert_eq!(
        (Level::NoChange, "v1.2.3".to_string(), None),
        decided(walked("v1.2.3", None, &[]), None)
    );
}

#[test]
fn calculate_continues_a_pre_release() {
    assert_eq!(
        (Level::PreRelease, "v1.2.3-rc.5".to_string(), None),
        decided(calculator("v1.2.3-rc.4", Some("rc")), None)
    );
    assert!(calculator("v1.2.3-rc.4", Some("rc")).continues_pre_release());
    assert!(!calculator("v1.2.3-rc.4", Some("beta")).continues_pre_release());
    assert!(!calculator("v1.2.3-rc.4", None).continues_pre_release());
    assert!(!calculator("v1.2.3", Some("rc")).continues_pre_release());
    assert_eq!(
        (Level::PreRelease, "v1.2.3-rc.5".to_string(), None),
        decided(
            walked("v1.2.3-rc.4", Some("rc"), &["feat!: a"]),
            Some(ForceOptions::Major)
        )
    );
}

#[test]
fn calculate_releases_a_pre_release() {
    assert_eq!(
        (Level::Release, "v1.2.3".to_string(), None),
        decided(walked("v1.2.3-rc.4", None, &["feat: a"]), None)
    );
}

#[test]
fn calculate_starts_a_pre_release() {
    assert_eq!(
        (
            Level::PreRelease,
            "v1.3.0-alpha.0".to_string(),
            Some(TypeHierarchy::Feature)
        ),
        decided(walked("v1.2.3", Some("alpha"), &["feat: a"]), None)
    );
    assert_eq!(
        (Level::PreRelease, "v1.2.3-alpha.0".to_string(), None),
        decided(walked("v1.2.3", Some("alpha"), &[]), None)
    );
    assert_eq!(
        (
            Level::PreRelease,
            "v1.2.3-beta.0".to_string(),
            Some(TypeHierarchy::Fix)
        ),
        decided(walked("v1.2.3-alpha.7", Some("beta"), &["fix: a"]), None)
    );
}

#[test]
fn calculate_refuses_an_empty_suffix() {
    let result = calculate(
        walked("v1.2.3", Some(""), &["fix: a"]),
        None,
        None,
        TypeHierarchy::Feature,
    );
    assert!(matches!(result, Err(Error::InvalidPreReleaseFormat(text)) if text.is_empty()));
}

#[test]
fn calculate_refuses_a_suffix_with_a_dot() {
    for tag in ["v1.2.3", "v1.2.3-alpha.4"] {
        let result = calculate(
            walked(tag, Some("rc.1"), &["fix: a"]),
            None,
            None,
            TypeHierarchy::Feature,
        );
        assert!(matches!(result, Err(Error::InvalidPreReleaseFormat(text)) if text == "rc.1"));
    }
}

#[test]
fn calculate_with_a_forced_level() {
    assert_eq!(
        (Level::Major, "v2.0.0".to_string(), None),
        decided(walked("v1.2.3", None, &["fix: a"]), Some(ForceOptions::Major))
    );
    assert_eq!(
        (Level::Minor, "v1.3.0".to_string(), None),
        decided(walked("v1.2.3", None, &["fix: a"]), Some(ForceOptions::Minor))
    );
    assert_eq!(
        (Level::Patch, "v1.2.4".to_string(), None),
        decided(walked("v1.2.3", None, &["feat!: a"]), Some(ForceOptions::Patch))
    );
    assert_eq!(
        (Level::Major, "v1.0.0".to_string(), None),
        decided(walked("v0.2.3", None, &["fix: a"]), Some(ForceOptions::First))
    );
    let result = calculate(
        walked("v1.2.3", None, &["fix: a"]),
        Some(ForceOptions::First),
        None,
        TypeHierarchy::Feature,
    );
    assert!(matches!(result, Err(Error::MajorAlreadyUsed(major)) if major == "1"));
}

#[test]
fn calculate_checks_the_required_files_first() {
    let changes = vec![change("feat: a", &["lib.rs"])];
    let result = calculate(
        calculator("v1.2.3", None).walk_commits(&changes),
        Some(ForceOptions::Major),
        Some(names(&["CHANGELOG.md"])),
        TypeHierarchy::Feature,
    );
    assert!(
        matches!(result, Err(Error::MissingRequiredFile(missing)) if missing == names(&["CHANGELOG.md"]))
    );

    let result = calculate(
        calculator("v1.2.3", None).walk_commits(&changes),
        None,
        Some(names(&["CHANGELOG.md"])),
        TypeHierarchy::Breaking,
    );
    assert_eq!("v1.3.0", result.unwrap().version_number.to_string());

    let result = calculate(
        calculator("v1.2.3", None),
        None,
        Some(names(&["CHANGELOG.md"])),
        TypeHierarchy::Other,
    );
    assert!(matches!(result, Err(Error::NoFilesListed)));
}

#[test]
fn output_is_the_level_or_the_number_or_both() {
    let answer = Answer::new(
        Level::Minor,
        Semantic::parse("v1.1.0", "v").unwrap(),
        None,
    );
    assert_eq!("minor", output_text(false, false, &answer));
    assert_eq!("minor", output_text(false, true, &answer));
    assert_eq!("v1.1.0", output_text(true, false, &answer));
    assert_eq!("v1.1.0\nminor", output_text(true, true, &answer));
}

#[test]
fn errors_have_their_messages_and_codes() {
    let cases: Vec<(Error, &str, i32, bool)> = vec![
        (
            Error::NotVersionTag("v".to_string(), "1.0.0".to_string()),
            "Version tags must start with \"v\" but tag is 1.0.0",
            10,
            false,
        ),
        (
            Error::TooManyComponents(4),
            "Version must have three components but at least 4 were found",
            10,
            false,
        ),
        (
            Error::TooFewComponents(12),
            "Version must have three components but only 12 found",
            10,
            false,
        ),
        (
            Error::MustBeNumber("x".to_string()),
            "Version must be a number but found x",
            10,
            false,
        ),
        (
            Error::NoVersionTag,
            "No valid version tag found in the repository",
            10,
            false,
        ),
        (
            Error::MajorAlreadyUsed("3".to_string()),
            "First production release already deployed. Current major version: 3",
            10,
            false,
        ),
        (
            Error::NoConventionalCommits,
            "No conventional commits have been loaded into the VersionCalculator struct. May have been called before `commits`.",
            10,
            false,
        ),
        (
            Error::MissingRequiredFile(vec!["a \"b\"".to_string()]),
            "Missing the required file(s): [\"a \\\"b\\\"\"].",
            13,
            true,
        ),
        (
            Error::NotTypeHierachyName("x".to_string()),
            "x is not a valid type hierarchy namne.",
            10,
            false,
        ),
        (
            Error::NoFilesListed,
            "No files have been listed. May have been called before `commits`.",
            15,
            true,
        ),
        (
            Error::MinimumChangeLevelMet,
            "Minimum change Level has been met.",
            0,
            true,
        ),
        (
            Error::MinimumChangeLevelNotMet,
            "Minimum change level has not been met.",
            14,
            true,
        ),
        (
            Error::InvalidPreReleaseFormat("rc".to_string()),
            "Invalid PreRelease format: rc",
            10,
            false,
        ),
    ];
    for (error, message, code, reported) in cases {
        assert_eq!(message, error.to_string());
        assert_eq!(code, error.exit_code());
        assert_eq!(reported, error.exit_message().is_some());
        if reported {
            assert_eq!(Some(message.to_string()), error.exit_message());
        }
    }
}

#[test]
fn counts_by_name_of_the_type() {
    let calculator = walked(
        "v1.0.0",
        None,
        &[
            "feat: a",
            "fix: b",
            "fix: c",
            "docs: d",
            "chore: e",
            "chore: f",
            "chore: g",
            "refactor: h",
        ],
    );

    assert_eq!(1, calculator.feat_commits());
    assert_eq!(2, calculator.fix_commits());
    assert_eq!(1, calculator.docs_commits());
    assert_eq!(3, calculator.chore_commits());
    assert_eq!(1, calculator.refactor_commits());

    let untouched = VersionCalculator::from_version(Semantic::default(), None);
    assert_eq!(0, untouched.feat_commits());
    assert_eq!(0, untouched.fix_commits());
    assert_eq!(0, untouched.docs_commits());
    assert_eq!(0, untouched.chore_commits());
    assert_eq!(0, untouched.refactor_commits());
}

#[test]
fn force_by_name_of_the_level() {
    let mut calculator = walked("v1.2.3", None, &["docs: a"]);

    assert_eq!(
        "v2.0.0",
        calculator.force_major().next_version().version_number.to_string()
    );
    assert!(calculator.breaking());
    assert_eq!(
        "v1.3.0",
        calculator.force_minor().next_version().version_number.to_string()
    );
    assert_eq!(1, calculator.feat_commits());
    assert!(!calculator.breaking());
    assert_eq!(
        "v1.2.4",
        calculator.force_patch().next_version().version_number.to_string()
    );
    assert_eq!(1, calculator.fix_commits());
    assert_eq!(0, calculator.feat_commits());
}

#[test]
fn level_of_the_next_version() {
    assert_eq!(
        Level::NoChange,
        calculator("v1.2.3", None).level_of_next()
    );
    assert_eq!(
        Level::Major,
        walked("v1.2.3", None, &["feat!: a"]).level_of_next()
    );
    assert_eq!(
        Level::Minor,
        walked("v0.2.3", None, &["feat!: a"]).level_of_next()
    );
    assert_eq!(
        Level::Patch,
        walked("v0.2.3", None, &["feat: a"]).level_of_next()
    );
    assert_eq!(
        Level::Patch,
        walked("v1.2.3", None, &["docs: a"]).level_of_next()
    );
}

#[test]
fn calculation_needs_room_for_the_number_it_increases() {
    let full = "v18446744073709551615.18446744073709551615.18446744073709551615";
    let version = Semantic::parse(full, "v").unwrap();
    assert!(!version.has_room(&Level::Major));
    assert!(!version.has_room(&Level::Minor));
    assert!(!version.has_room(&Level::Patch));
    assert!(version.has_room(&Level::NoChange));
    assert!(version.has_room(&Level::Release));

    let version = Semantic::parse("v1.18446744073709551615.3", "v").unwrap();
    assert!(version.has_room(&Level::Major));
    assert!(!version.has_room(&Level::Minor));
    assert!(version.has_room(&Level::Patch));

    let tag = "v1.18446744073709551615.3";
    assert!(nextsv::can_calculate(&walked(tag, None, &[]), None));
    assert!(nextsv::can_calculate(&walked(tag, None, &["fix: a"]), None));
    assert!(!nextsv::can_calculate(&walked(tag, None, &["feat: a"]), None));
    assert!(nextsv::can_calculate(&walked(tag, None, &["feat!: a"]), None));
    assert!(nextsv::can_calculate(
        &walked(tag, None, &["feat: a"]),
        Some(ForceOptions::Patch)
    ));
    assert!(!nextsv::can_calculate(
        &walked(tag, None, &["fix: a"]),
        Some(ForceOptions::Minor)
    ));
    assert!(nextsv::can_calculate(
        &walked(tag, None, &["feat: a"]),
        Some(ForceOptions::First)
    ));
    assert!(!nextsv::can_calculate(
        &calculator("v1.2.3-rc.18446744073709551615", Some("rc")),
        None
    ));
    assert!(nextsv::can_calculate(
        &calculator("v1.2.3-rc.18446744073709551615", Some("beta")),
        None
    ));
    assert!(nextsv::can_calculate(
        &calculator("v1.2.3-rc.18446744073709551615", None),
        None
    ));
    assert_eq!(
        "v2.0.0",
        calculate(
            walked(tag, None, &["feat!: a"]),
            None,
            None,
            TypeHierarchy::Feature
        )
        .unwrap()
        .version_number
        .to_string()
    );
}

#[test]
fn walk_does_not_depend_on_the_order_of_the_commits() {
    let newest_first = vec![
        change("fix: a", &["a.rs", "b.rs"]),
        change("feat!: b", &["c.rs"]),
        Change {
            summary: None,
            files: names(&["d.rs"]),
        },
        change("docs: c", &["a.rs"]),
    ];
    let oldest_first = vec![
        change("docs: c", &["a.rs"]),
        Change {
            summary: None,
            files: names(&["d.rs"]),
        },
        change("feat!: b", &["c.rs"]),
        change("fix: a", &["a.rs", "b.rs"]),
    ];
    let mut one = calculator("v1.2.3", None).walk_commits(&newest_first);
    let mut other = calculator("v1.2.3", None).walk_commits(&oldest_first);

    for kind in ["fix", "feat", "docs", "chore"] {
        assert_eq!(
            one.count_commits_by_type(kind),
            other.count_commits_by_type(kind)
        );
    }
    assert_eq!(one.breaking(), other.breaking());
    assert_eq!(one.top_level(), other.top_level());
    for file in ["a.rs", "b.rs", "c.rs", "d.rs", "e.rs"] {
        assert_eq!(
            one.has_required(names(&[file]), TypeHierarchy::Other).is_ok(),
            other.has_required(names(&[file]), TypeHierarchy::Other).is_ok()
        );
    }
    assert!(one.has_required(names(&["d.rs"]), TypeHierarchy::Other).is_ok());
    assert!(one.has_required(names(&["e.rs"]), TypeHierarchy::Other).is_err());
    let first = one.next_version();
    let second = other.next_version();
    assert_eq!(first.bump_level, second.bump_level);
    assert_eq!(first.version_number, second.version_number);
    assert_eq!(first.change_level, second.change_level);
    assert_eq!("v2.0.0", first.version_number.to_string());
}

#[test]
fn missing_files_are_listed_between_brackets() {
    assert_eq!(
        "Missing the required file(s): [].",
        Error::MissingRequiredFile(Vec::new()).to_string()
    );
    assert_eq!(
        "Missing the required file(s): [\"a\"].",
        Error::MissingRequiredFile(names(&["a"])).to_string()
    );
    assert_eq!(
        "Missing the required file(s): [\"a\", \"b\\\\c\", \"d\\ne\"].",
        Error::MissingRequiredFile(names(&["a", "b\\c", "d\ne"])).to_string()
    );
    let files = names(&["x y", "tab\there", "quote\"d", "é"]);
    assert_eq!(
        format!("Missing the required file(s): {:?}.", files),
        Error::MissingRequiredFile(files).to_string()
    );
}

#[test]
fn calculators_are_equal_by_what_they_hold() {
    let one = calculator("v1.2.3", Some("rc"));
    assert!(one == calculator("v1.2.3", Some("rc")));
    assert!(one == one.clone());
    assert!(one != calculator("v1.2.4", Some("rc")));
    assert!(one != calculator("v1.2.3", Some("beta")));
    assert!(one != calculator("v1.2.3", None));

    let changes = vec![change("fix: a", &["a.rs", "b.rs"])];
    let same_files = vec![change("fix: a", &["b.rs", "a.rs", "b.rs"])];
    let other_files = vec![change("fix: a", &["a.rs"])];
    let other_commit = vec![change("feat: a", &["a.rs", "b.rs"])];
    let walked = calculator("v1.2.3", None).walk_commits(&changes);
    assert!(walked == calculator("v1.2.3", None).walk_commits(&changes));
    assert!(walked == calculator("v1.2.3", None).walk_commits(&same_files));
    assert!(walked != calculator("v1.2.3", None).walk_commits(&other_files));
    assert!(walked != calculator("v1.2.3", None).walk_commits(&other_commit));
    assert!(walked != calculator("v1.2.3", None));
    assert!(walked != calculator("v1.2.3", None).walk_commits(&Vec::new()));
}
