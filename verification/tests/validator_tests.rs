use nervctf::models::{
    Challenge, ChallengeType, Extra, FlagContent, FlagType, PrereqValue, Requirements, State,
};
use nervctf::validator::{validate_challenges, Issue, Severity, ValidationReport};
use tempfile::tempdir;

/// Creates the file `<prefix><suffix>` in `dir`, kept while the handle lives.
fn touch(dir: &std::path::Path, prefix: &str, suffix: &str) -> tempfile::NamedTempFile {
    tempfile::Builder::new()
        .prefix(prefix)
        .suffix(suffix)
        .rand_bytes(0)
        .tempfile_in(dir)
        .unwrap()
}


// ── Helper ────────────────────────────────────────────────────────────────

fn make_challenge(name: &str) -> Challenge {
    Challenge {
        name: name.to_string(),
        category: "web".to_string(),
        value: 100,
        challenge_type: ChallengeType::Standard,
        description: Some("A test challenge.".to_string()),
        id: None,
        challenge_id: None,
        author: None,
        extra: None,
        instance: None,
        image: None,
        protocol: None,
        host: None,
        connection_info: None,
        healthcheck: None,
        attempts: None,
        flags: Some(vec![FlagContent::Simple("flag{test}".to_string())]),
        topics: None,
        tags: None,
        files: None,
        hints: None,
        requirements: None,
        next: None,
        state: Some(State::Visible),
        script: None,
        solved_by_me: None,
        solves: None,
        template: None,
        version: "0.1".to_string(),
        source_path: String::new(),
        unknown_yaml_keys: Vec::new(),
    }
}

fn errors(report: &ValidationReport) -> Vec<&Issue> {
    report
        .issues
        .iter()
        .filter(|i| i.severity == Severity::Error)
        .collect()
}

fn warnings(report: &ValidationReport) -> Vec<&Issue> {
    report
        .issues
        .iter()
        .filter(|i| i.severity == Severity::Warning)
        .collect()
}

fn has_issue(report: &ValidationReport, field: &str, fragment: &str) -> bool {
    report.issues.iter().any(|i| {
        i.field.as_deref() == Some(field) && i.message.contains(fragment)
    })
}

// ── Clean challenge ───────────────────────────────────────────────────────

#[test]
fn clean_challenge_no_issues() {
    let c = make_challenge("test");
    let report = validate_challenges(&[c]);
    assert!(report.is_clean(), "Expected no issues, got: {:?}", report.issues);
}

// ── name ──────────────────────────────────────────────────────────────────

#[test]
fn empty_name_is_error() {
    let mut c = make_challenge("");
    c.name = String::new();
    let report = validate_challenges(&[c]);
    assert!(has_issue(&report, "name", "must not be empty"));
    assert!(!errors(&report).is_empty());
}

#[test]
fn whitespace_name_is_error() {
    let mut c = make_challenge("   ");
    c.name = "   ".to_string();
    let report = validate_challenges(&[c]);
    assert!(has_issue(&report, "name", "must not be empty"));
}

// ── category ──────────────────────────────────────────────────────────────

#[test]
fn empty_category_is_error() {
    let mut c = make_challenge("test");
    c.category = String::new();
    let report = validate_challenges(&[c]);
    assert!(has_issue(&report, "category", "must not be empty"));
}

// ── value ─────────────────────────────────────────────────────────────────

#[test]
fn zero_value_standard_is_error() {
    let mut c = make_challenge("test");
    c.value = 0;
    let report = validate_challenges(&[c]);
    assert!(has_issue(&report, "value", "must be > 0"));
}

#[test]
fn nonzero_value_standard_is_ok() {
    let mut c = make_challenge("test");
    c.value = 1;
    let report = validate_challenges(&[c]);
    assert!(!has_issue(&report, "value", "must be > 0"));
}

#[test]
fn zero_value_dynamic_no_value_error() {
    // Dynamic challenges use extra.initial, not value — value=0 is fine
    let mut c = make_challenge("test");
    c.challenge_type = ChallengeType::Dynamic;
    c.value = 0;
    c.extra = Some(Extra {
        initial: Some(500),
        decay: Some(50),
        minimum: Some(100),
        ..Default::default()
    });
    let report = validate_challenges(&[c]);
    assert!(!has_issue(&report, "value", "must be > 0"));
}

// ── dynamic extra ─────────────────────────────────────────────────────────

#[test]
fn dynamic_missing_extra_is_error() {
    let mut c = make_challenge("test");
    c.challenge_type = ChallengeType::Dynamic;
    c.extra = None;
    let report = validate_challenges(&[c]);
    assert!(has_issue(&report, "extra", "required"));
}

#[test]
fn dynamic_initial_zero_is_error() {
    let mut c = make_challenge("test");
    c.challenge_type = ChallengeType::Dynamic;
    c.extra = Some(Extra { initial: Some(0), decay: Some(50), minimum: Some(10), ..Default::default() });
    let report = validate_challenges(&[c]);
    assert!(has_issue(&report, "extra.initial", "must be > 0"));
}

#[test]
fn dynamic_initial_missing_is_error() {
    let mut c = make_challenge("test");
    c.challenge_type = ChallengeType::Dynamic;
    c.extra = Some(Extra { initial: None, decay: Some(50), minimum: Some(10), ..Default::default() });
    let report = validate_challenges(&[c]);
    assert!(has_issue(&report, "extra.initial", "required"));
}

#[test]
fn dynamic_decay_zero_is_error() {
    let mut c = make_challenge("test");
    c.challenge_type = ChallengeType::Dynamic;
    c.extra = Some(Extra { initial: Some(500), decay: Some(0), minimum: Some(10), ..Default::default() });
    let report = validate_challenges(&[c]);
    assert!(has_issue(&report, "extra.decay", "must be > 0"));
}

#[test]
fn dynamic_decay_missing_is_error() {
    let mut c = make_challenge("test");
    c.challenge_type = ChallengeType::Dynamic;
    c.extra = Some(Extra { initial: Some(500), decay: None, minimum: Some(10), ..Default::default() });
    let report = validate_challenges(&[c]);
    assert!(has_issue(&report, "extra.decay", "required"));
}

#[test]
fn dynamic_missing_minimum_is_warning() {
    let mut c = make_challenge("test");
    c.challenge_type = ChallengeType::Dynamic;
    c.extra = Some(Extra { initial: Some(500), decay: Some(50), minimum: None, ..Default::default() });
    let report = validate_challenges(&[c]);
    assert!(has_issue(&report, "extra.minimum", "not set"));
    assert!(warnings(&report).iter().any(|i| i.field.as_deref() == Some("extra.minimum")));
}

#[test]
fn dynamic_all_valid_no_errors() {
    let mut c = make_challenge("test");
    c.challenge_type = ChallengeType::Dynamic;
    c.extra = Some(Extra { initial: Some(500), decay: Some(50), minimum: Some(100), ..Default::default() });
    let report = validate_challenges(&[c]);
    assert!(errors(&report).is_empty());
}

// ── description ───────────────────────────────────────────────────────────

#[test]
fn missing_description_is_warning() {
    let mut c = make_challenge("test");
    c.description = None;
    let report = validate_challenges(&[c]);
    assert!(has_issue(&report, "description", "missing"));
    assert!(warnings(&report).iter().any(|i| i.field.as_deref() == Some("description")));
}

#[test]
fn empty_description_is_warning() {
    let mut c = make_challenge("test");
    c.description = Some(String::new());
    let report = validate_challenges(&[c]);
    assert!(has_issue(&report, "description", "empty"));
}

#[test]
fn present_description_no_warning() {
    let mut c = make_challenge("test");
    c.description = Some("Find the flag!".to_string());
    let report = validate_challenges(&[c]);
    assert!(!has_issue(&report, "description", "missing"));
    assert!(!has_issue(&report, "description", "empty"));
}

// ── flags ─────────────────────────────────────────────────────────────────

#[test]
fn no_flags_is_error() {
    let mut c = make_challenge("test");
    c.flags = None;
    let report = validate_challenges(&[c]);
    assert!(has_issue(&report, "flags", "no flags defined"));
}

#[test]
fn empty_flags_vec_is_error() {
    let mut c = make_challenge("test");
    c.flags = Some(vec![]);
    let report = validate_challenges(&[c]);
    assert!(has_issue(&report, "flags", "no flags defined"));
}

#[test]
fn empty_flag_content_is_error() {
    let mut c = make_challenge("test");
    c.flags = Some(vec![FlagContent::Simple(String::new())]);
    let report = validate_challenges(&[c]);
    assert!(has_issue(&report, "flags[0]", "empty flag content"));
}

#[test]
fn whitespace_flag_content_is_error() {
    let mut c = make_challenge("test");
    c.flags = Some(vec![FlagContent::Simple("   ".to_string())]);
    let report = validate_challenges(&[c]);
    assert!(has_issue(&report, "flags[0]", "empty flag content"));
}

#[test]
fn empty_detailed_flag_content_is_error() {
    let mut c = make_challenge("test");
    c.flags = Some(vec![FlagContent::Detailed {
        id: None,
        challenge_id: None,
        type_: FlagType::Static,
        content: String::new(),
        data: None,
    }]);
    let report = validate_challenges(&[c]);
    assert!(has_issue(&report, "flags[0]", "empty flag content"));
}

#[test]
fn multiple_flags_second_empty_reports_correct_index() {
    let mut c = make_challenge("test");
    c.flags = Some(vec![
        FlagContent::Simple("flag{ok}".to_string()),
        FlagContent::Simple(String::new()),
    ]);
    let report = validate_challenges(&[c]);
    assert!(has_issue(&report, "flags[1]", "empty flag content"));
    assert!(!has_issue(&report, "flags[0]", "empty flag content"));
}

// ── files ─────────────────────────────────────────────────────────────────

#[test]
fn referenced_file_not_found_is_error() {
    let tmp = tempdir().unwrap();
    let mut c = make_challenge("test");
    c.source_path = tmp.path().to_string_lossy().to_string();
    c.files = Some(vec!["nonexistent.zip".to_string()]);
    let report = validate_challenges(&[c]);
    assert!(has_issue(&report, "files", "not found"));
}

#[test]
fn referenced_file_exists_no_error() {
    let tmp = tempdir().unwrap();
    let _f = touch(tmp.path(), "exploit", ".py");
    let mut c = make_challenge("test");
    c.source_path = tmp.path().to_string_lossy().to_string();
    c.files = Some(vec!["exploit.py".to_string()]);
    let report = validate_challenges(&[c]);
    assert!(!has_issue(&report, "files", "not found"));
}

#[test]
fn multiple_files_only_missing_one_errors() {
    let tmp = tempdir().unwrap();
    let _f = touch(tmp.path(), "present", ".py");
    let mut c = make_challenge("test");
    c.source_path = tmp.path().to_string_lossy().to_string();
    c.files = Some(vec!["present.py".to_string(), "missing.bin".to_string()]);
    let report = validate_challenges(&[c]);
    assert!(report.issues.iter().any(|i| i.message.contains("missing.bin")));
    assert!(!report.issues.iter().any(|i| i.message.contains("present.py")));
}

// ── requirements ─────────────────────────────────────────────────────────

#[test]
fn requirement_self_reference_is_error() {
    let mut c = make_challenge("test");
    c.requirements = Some(Requirements::Simple(vec![
        PrereqValue::Text("test".to_string()),
    ]));
    let report = validate_challenges(&[c]);
    assert!(has_issue(&report, "requirements", "itself"));
}

#[test]
fn requirement_not_in_local_set_is_warning() {
    let mut c = make_challenge("test");
    c.requirements = Some(Requirements::Simple(vec![
        PrereqValue::Text("other-challenge".to_string()),
    ]));
    let report = validate_challenges(&[c]);
    assert!(has_issue(&report, "requirements", "not found in local"));
    assert!(warnings(&report).iter().any(|i| i.field.as_deref() == Some("requirements")));
}

#[test]
fn requirement_found_in_local_set_no_issue() {
    let c1 = make_challenge("alpha");
    let mut c2 = make_challenge("beta");
    c2.requirements = Some(Requirements::Simple(vec![
        PrereqValue::Text("alpha".to_string()),
    ]));
    let report = validate_challenges(&[c1, c2]);
    assert!(!has_issue(&report, "requirements", "not found in local"));
    assert!(!has_issue(&report, "requirements", "itself"));
}

#[test]
fn numeric_requirement_id_is_skipped() {
    let mut c = make_challenge("test");
    // Numeric IDs refer to remote CTFd challenges — validator must skip them
    c.requirements = Some(Requirements::Simple(vec![
        PrereqValue::Number(42),
    ]));
    let report = validate_challenges(&[c]);
    assert!(!has_issue(&report, "requirements", "not found in local"));
}

// ── next ──────────────────────────────────────────────────────────────────

#[test]
fn next_self_reference_is_error() {
    let mut c = make_challenge("test");
    c.next = Some("test".to_string());
    let report = validate_challenges(&[c]);
    assert!(has_issue(&report, "next", "itself"));
}

#[test]
fn next_not_in_local_set_is_warning() {
    let mut c = make_challenge("test");
    c.next = Some("follow-up".to_string());
    let report = validate_challenges(&[c]);
    assert!(has_issue(&report, "next", "not found in local"));
}

#[test]
fn next_found_in_local_set_no_issue() {
    let c1 = make_challenge("part-1");
    let mut c2 = make_challenge("part-2");
    c2.next = Some("part-1".to_string()); // part-1 exists
    let report = validate_challenges(&[c1, c2]);
    assert!(!has_issue(&report, "next", "not found in local"));
    assert!(!has_issue(&report, "next", "itself"));
}

// ── duplicate names ───────────────────────────────────────────────────────

#[test]
fn duplicate_names_is_error() {
    let c1 = make_challenge("dup");
    let c2 = make_challenge("dup");
    let report = validate_challenges(&[c1, c2]);
    assert!(report
        .issues
        .iter()
        .any(|i| i.severity == Severity::Error && i.message.contains("dup")));
}

#[test]
fn unique_names_no_duplicate_error() {
    let c1 = make_challenge("alpha");
    let c2 = make_challenge("beta");
    let report = validate_challenges(&[c1, c2]);
    assert!(!report.issues.iter().any(|i| i.message.contains("duplicate")));
}

// ── ValidationReport methods ──────────────────────────────────────────────

#[test]
fn report_has_errors_true_when_errors_present() {
    let mut c = make_challenge("test");
    c.flags = None;
    let report = validate_challenges(&[c]);
    assert!(report.has_errors());
}

#[test]
fn report_has_errors_false_when_only_warnings() {
    let mut c = make_challenge("test");
    c.description = None; // warning only
    let report = validate_challenges(&[c]);
    assert!(!report.has_errors());
}

#[test]
fn report_is_clean_with_valid_challenge() {
    let c = make_challenge("clean");
    let report = validate_challenges(&[c]);
    assert!(report.is_clean());
}

#[test]
fn report_counts_are_correct() {
    let mut c = make_challenge("test");
    c.flags = None;         // 1 error
    c.description = None;   // 1 warning
    let report = validate_challenges(&[c]);
    assert_eq!(report.error_count(), 1);
    assert_eq!(report.warning_count(), 1);
}

#[test]
fn errors_sort_before_warnings() {
    let mut c = make_challenge("test");
    c.flags = None;
    c.description = None;
    let report = validate_challenges(&[c]);
    // First issue must be an error
    assert_eq!(report.issues[0].severity, Severity::Error);
}

#[test]
fn empty_challenge_list_is_clean() {
    let report = validate_challenges(&[]);
    assert!(report.is_clean());
}

