use nervctf::models::{Challenge, ChallengeType, FlagContent, FlagType, State};
use nervctf::report::{challenge_compact_lines, challenge_dict_lines, flag_display, frow, frow_sub, truncate_str};
use nervctf::scanner::ScanFailure;
use nervctf::validator::{validate_challenges, Issue, Severity, ValidationReport};

fn chall(name: &str) -> Challenge {
    Challenge {
        name: name.to_string(),
        category: "web".to_string(),
        value: 100,
        challenge_type: ChallengeType::Standard,
        description: Some("A test challenge.".to_string()),
        id: None,
        challenge_id: None,
        author: None,
        extra: None,
        instance: None,
        image: None,
        protocol: None,
        host: None,
        connection_info: None,
        healthcheck: None,
        attempts: None,
        flags: Some(vec![FlagContent::Simple("flag{test}".to_string())]),
        topics: None,
        tags: None,
        files: None,
        hints: None,
        requirements: None,
        next: None,
        state: Some(State::Visible),
        script: None,
        solved_by_me: None,
        solves: None,
        template: None,
        version: "0.1".to_string(),
        source_path: String::new(),
        unknown_yaml_keys: Vec::new(),
    }
}

fn issue(sev: Severity, challenge: &str, field: &str, message: &str) -> Issue {
    Issue { severity: sev, challenge: challenge.to_string(), field: Some(field.to_string()), message: message.to_string() }
}

#[test]
fn truncation_marks_a_cut() {
    assert_eq!(truncate_str("abcdef", 4), "abc…");
    assert_eq!(truncate_str("abcdef", 1), "…");
    assert_eq!(truncate_str("abcdef", 0), "");
    assert_eq!(truncate_str("héllo wörld", 6), "héllo…");
    assert_eq!(truncate_str("abcd", 4), "abcd");
    assert_eq!(truncate_str("abc", 4), "abc");
    assert_eq!(truncate_str("", 0), "");
}

#[test]
fn flags_are_summarised() {
    assert_eq!(flag_display(&FlagContent::Simple(String::new())), "(empty)");
    assert_eq!(flag_display(&FlagContent::Simple("flag{x}".to_string())), "flag{x}");
    let d = FlagContent::Detailed {
        id: None,
        challenge_id: None,
        type_: FlagType::Regex,
        content: "a".repeat(40),
        data: None,
    };
    assert_eq!(flag_display(&d), format!("regex: {}…", "a".repeat(33)));
}

#[test]
fn field_rows() {
    assert_eq!(frow(16, "name", Some("x"), &vec![]), "  name               ok  x");
    assert_eq!(frow(16, "author", None, &vec![]), "  author             --  (not set)");
    let e = vec![issue(Severity::Error, "t", "flags", "no flags defined")];
    assert_eq!(frow(16, "flags", None, &e), "  flags             [E]  MISSING  ->  no flags defined");
    let w = vec![issue(Severity::Warning, "t", "description", "missing"), issue(Severity::Warning, "t", "description", "again")];
    assert_eq!(frow(16, "description", None, &w), "  description       [W]  (not set)  ->  missing;  again");
    let f = vec![issue(Severity::Error, "t", "flags[0]", "empty flag content")];
    assert_eq!(frow_sub(16, "flags[0]", None, &f), "    flags[0]        [E]  (empty)  ->  empty flag content");
}

#[test]
fn compact_view_lists_issues() {
    let issues = vec![issue(Severity::Error, "t", "flags", "no flags defined"), issue(Severity::Warning, "t", "description", "missing")];
    assert_eq!(
        challenge_compact_lines("t", "web", &issues),
        vec![
            "[x] \"t\"  [web]".to_string(),
            "   [E]  flags: no flags defined".to_string(),
            "   [W]  description: missing".to_string(),
            String::new(),
        ]
    );
    assert!(challenge_compact_lines("t", "web", &vec![]).is_empty());
}

#[test]
fn detailed_view_of_clean_challenge_is_header_only() {
    let c = chall("clean");
    assert_eq!(challenge_dict_lines(&c, &vec![]), vec!["✅ \"clean\"  [web]".to_string(), String::new()]);
}

#[test]
fn detailed_view_shows_every_field() {
    let mut c = chall("t");
    c.flags = None;
    let issues = vec![issue(Severity::Error, "t", "flags", "no flags defined"), issue(Severity::Warning, "t", "odd", "strange")];
    let lines = challenge_dict_lines(&c, &issues);
    assert_eq!(lines[0], "[x] \"t\"  [web]");
    assert_eq!(lines[1], "  name               ok  t");
    assert!(lines.contains(&"  flags             [E]  MISSING  ->  no flags defined".to_string()));
    assert!(lines.contains(&"  state              ok  visible".to_string()));
    assert!(lines.contains(&"  odd               [W]  (not set)  ->  strange".to_string()));
    let n = lines.len();
    assert_eq!(lines[n - 3], format!("  {}", "-".repeat(28)));
    assert_eq!(lines[n - 2], "  [x] 1 error(s), 1 warning(s)");
    assert_eq!(lines[n - 1], "");
}

#[test]
fn report_summary_lines() {
    let mut c = chall("t");
    c.flags = None;
    let report = validate_challenges(&[c.clone(), chall("ok")]);
    let failures = vec![ScanFailure { path: "x/challenge.yml".to_string(), error: "line 1\nline 2".to_string() }];
    let lines = report.print_lines(&vec![c, chall("ok")], &failures, false);
    assert_eq!(lines[0], "PARSE FAILURES  (1 file(s) could not be loaded)");
    assert_eq!(lines[1], "  [x]  x/challenge.yml");
    assert_eq!(lines[2], "      line 1");
    assert_eq!(lines[3], "      line 2");
    assert_eq!(lines[4], "");
    assert!(lines.contains(&"Validated 3 challenge(s): 1 clean, 1 with issues (1 error(s), 0 warning(s)), 1 failed to parse".to_string()));
    assert_eq!(lines[lines.len() - 1], "Run `nervctf validate --debug` for the full field-by-field view.");

    let clean = ValidationReport { issues: vec![] };
    assert_eq!(clean.print_lines(&vec![chall("a")], &vec![], true), vec!["✅ \"a\"  [web]".to_string(), String::new(), "all 1 challenge(s) valid -- no issues found.".to_string()]);
}
