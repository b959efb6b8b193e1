use nervctf::models::{Challenge, ChallengeType, FlagContent, HintContent, State};
use nervctf::scanner::{finish_loaded, is_json_file, source_dir, unknown_keys, DirectoryScanner, ScanFailure};

fn chall(name: &str, category: &str, value: u32, flags: Vec<&str>) -> Challenge {
    Challenge {
        name: name.to_string(),
        category: category.to_string(),
        value,
        challenge_type: ChallengeType::Standard,
        description: None,
        id: None,
        challenge_id: None,
        author: None,
        extra: None,
        instance: None,
        image: None,
        protocol: None,
        host: None,
        connection_info: None,
        healthcheck: None,
        attempts: None,
        flags: Some(flags.into_iter().map(|f| FlagContent::Simple(f.to_string())).collect()),
        topics: None,
        tags: None,
        files: None,
        hints: None,
        requirements: None,
        next: None,
        state: None,
        script: None,
        solved_by_me: None,
        solves: None,
        template: None,
        version: "0.1".to_string(),
        source_path: String::new(),
        unknown_yaml_keys: Vec::new(),
    }
}

#[test]
fn test_is_challenge_file() {
    let scanner = DirectoryScanner::new();

    assert!(scanner.is_challenge_file("challenge.yml"));
    assert!(scanner.is_challenge_file("challenge.yaml"));
    assert!(scanner.is_challenge_file("challenge.json"));
    assert!(scanner.is_challenge_file("web-challenge.yml"));
    assert!(!scanner.is_challenge_file("config.yml"));
    assert!(!scanner.is_challenge_file("README.md"));
}

#[test]
fn challenge_file_name_is_matched_case_insensitively() {
    let scanner = DirectoryScanner::new();
    assert!(scanner.is_challenge_file("web/sqli/My-Challenge.YAML") == false);
    assert!(scanner.is_challenge_file("web/sqli/My-Challenge.yaml"));
    assert!(!scanner.is_challenge_file("web/sqli/challenge.txt"));
    assert!(scanner.is_challenge_file("web/sqli/challenge.yml"));
}

#[test]
fn test_get_stats_counts_correctly() {
    let mut c = chall("x", "web", 100, vec!["flag{x}", "flag{alt}"]);
    c.hints = Some(vec![
        HintContent::Simple("free hint".to_string()),
        HintContent::Detailed { content: "paid".to_string(), cost: Some(50), title: None },
    ]);
    c.files = Some(vec!["file.zip".to_string()]);
    c.state = Some(State::Visible);

    let scanner = DirectoryScanner::new();
    let stats = scanner.get_stats(&[c]);

    assert_eq!(stats.total_challenges, 1);
    assert_eq!(stats.total_points, 100);
    assert_eq!(stats.total_flags, 2);
    assert_eq!(stats.total_hints, 2);
    assert_eq!(stats.total_files, 1);
    assert_eq!(stats.categories, vec!["web"]);
}

#[test]
fn test_get_stats_multiple_categories() {
    let challenges = vec![
        chall("a", "web", 100, vec!["flag{a}"]),
        chall("b", "crypto", 200, vec!["flag{b}"]),
        chall("c", "web", 50, vec!["flag{c}"]),
    ];

    let scanner = DirectoryScanner::new();
    let stats = scanner.get_stats(&challenges);

    assert_eq!(stats.total_challenges, 3);
    assert_eq!(stats.total_points, 350);
    assert_eq!(stats.categories.len(), 2);
    assert!(stats.categories.contains(&"web".to_string()));
    assert!(stats.categories.contains(&"crypto".to_string()));
    assert_eq!(stats.categories, vec!["web", "crypto"]);
}

#[test]
fn stats_of_nothing_are_zero() {
    let stats = DirectoryScanner::new().get_stats(&[]);
    assert_eq!(stats.total_challenges, 0);
    assert_eq!(stats.total_points, 0);
    assert!(stats.categories.is_empty());
}

#[test]
fn source_dir_is_parent_of_challenge_file() {
    assert_eq!(source_dir("web/sqli/challenge.yml"), "web/sqli");
    assert_eq!(source_dir("challenge.yml"), "");
    assert_eq!(source_dir("/"), ".");
}

#[test]
fn unknown_keys_are_those_outside_the_spec() {
    let keys: Vec<String> = ["name", "flagz", "instance", "custom", "value"].iter().map(|s| s.to_string()).collect();
    assert_eq!(unknown_keys(&keys), vec!["flagz", "custom"]);
}

#[test]
fn finishing_a_yaml_challenge_records_unknown_keys() {
    let mut c = chall("x", "web", 1, vec!["f"]);
    let keys: Vec<String> = ["name", "bogus"].iter().map(|s| s.to_string()).collect();
    finish_loaded(&mut c, "rev/easy/challenge.yml", &keys);
    assert_eq!(c.source_path, "rev/easy");
    assert_eq!(c.unknown_yaml_keys, vec!["bogus"]);

    let mut j = chall("y", "web", 1, vec!["f"]);
    finish_loaded(&mut j, "rev/easy/challenge.json", &keys);
    assert!(j.unknown_yaml_keys.is_empty());
    assert!(is_json_file("a/challenge.json"));
    assert!(!is_json_file("a/challenge.yml"));
}

#[test]
fn scan_failure_holds_path_and_error() {
    let f = ScanFailure { path: "a/challenge.yml".to_string(), error: "bad".to_string() };
    assert_eq!(f.path, "a/challenge.yml");
    assert_eq!(f.error, "bad");
}

#[test]
fn stats_report_lines() {
    let challenges = vec![chall("a", "web", 100, vec!["flag{a}"]), chall("b", "crypto", 200, vec!["flag{b}"])];
    let lines = DirectoryScanner::new().get_stats(&challenges).lines();
    assert_eq!(
        lines,
        vec![
            "stats:",
            "  Total Challenges: 2",
            "  Total Points: 300",
            "  Total Flags: 2",
            "  Total Hints: 0",
            "  Total Files: 0",
            "  Categories: web, crypto",
        ]
    );
}
