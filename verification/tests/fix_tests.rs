use nervctf::config::{find_config_path, nearest_existing, Config};
use nervctf::fix::{author_fix, has_field, inject_field, split_lines, state_fix, version_fix, Issues};

#[test]
fn lines_split_like_str_lines() {
    assert_eq!(split_lines("a\nb\r\nc"), vec!["a", "b", "c"]);
    assert_eq!(split_lines("a\n"), vec!["a"]);
    assert_eq!(split_lines(""), Vec::<String>::new());
    assert_eq!(split_lines("\n\nx\r"), vec!["", "", "x\r"]);
}

#[test]
fn has_field_needs_a_top_level_key() {
    let yaml = "name: x\n  state: nested\n# version: 1\nauthor:me\n";
    assert!(has_field(yaml, "name"));
    assert!(!has_field(yaml, "state"));
    assert!(!has_field(yaml, "version"));
    assert!(has_field(yaml, "author"));
}

#[test]
fn inject_after_anchor_key() {
    let out = inject_field("name: x\ntype: standard\nflags:\n  - a\n", "state", "visible", "type", "version");
    assert_eq!(out, "name: x\ntype: standard\nstate: visible\nflags:\n  - a\n");
    assert!(has_field(&out, "state"));
}

#[test]
fn inject_before_fallback_key() {
    let out = inject_field("name: x\nversion: '0.3'", "state", "hidden", "type", "version");
    assert_eq!(out, "name: x\nstate: hidden\nversion: '0.3'\n");
}

#[test]
fn inject_at_end_without_anchors() {
    let out = inject_field("name: x\n# type: standard\n", "state", "visible", "type", "version");
    assert_eq!(out, "name: x\n# type: standard\nstate: visible\n");
}

#[test]
fn inject_into_empty_file() {
    assert_eq!(inject_field("", "version", "'0.3'", "files", "flags"), "version: '0.3'\n");
}

#[test]
fn issues_record_missing_fields() {
    let mut issues = Issues::new();
    assert!(issues.is_empty());
    issues.record("a/challenge.yml", "name: a\nstate: visible\n");
    assert_eq!(issues.missing_state, Vec::<String>::new());
    assert_eq!(issues.missing_author, vec!["a/challenge.yml"]);
    assert_eq!(issues.missing_version, vec!["a/challenge.yml"]);
    assert!(!issues.is_empty());
}

#[test]
fn fix_answers_become_edits() {
    let v = state_fix(0).unwrap();
    assert_eq!((v.key.as_str(), v.value.as_str(), v.after_key.as_str(), v.fallback_key.as_str()), ("state", "visible", "type", "version"));
    assert_eq!(state_fix(1).unwrap().value, "hidden");
    assert!(state_fix(2).is_none());
    assert!(author_fix("   ").is_none());
    let a = author_fix("alice").unwrap();
    assert_eq!((a.key.as_str(), a.value.as_str(), a.after_key.as_str(), a.fallback_key.as_str()), ("author", "alice", "name", "category"));
    let ver = version_fix(true).unwrap();
    assert_eq!((ver.key.as_str(), ver.value.as_str(), ver.after_key.as_str(), ver.fallback_key.as_str()), ("version", "'0.3'", "files", "flags"));
    assert!(version_fix(false).is_none());
}

#[test]
fn config_default_has_nothing_set() {
    let c = Config::default();
    assert!(c.monitor_url.is_none());
    assert!(c.max_instances_per_team.is_none());
}

#[test]
fn config_path_defaults_to_start_dir() {
    let dir = tempfile::tempdir().unwrap();
    let start = dir.path().join("a").join("b");
    let start = start.to_string_lossy().to_string();
    let p = find_config_path(&start);
    assert_eq!(p, format!("{}/.nervctf.yml", start));
}

#[test]
fn config_path_is_found_in_an_ancestor() {
    let dir = tempfile::tempdir().unwrap();
    let _cfg = tempfile::Builder::new()
        .prefix(".nervctf")
        .suffix(".yaml")
        .rand_bytes(0)
        .tempfile_in(dir.path())
        .unwrap();
    let start = dir.path().join("x").join("y").to_string_lossy().to_string();
    let p = find_config_path(&start);
    assert_eq!(p, dir.path().join(".nervctf.yaml").to_string_lossy().to_string());
}

#[test]
fn injecting_one_field_keeps_the_others() {
    let yaml = "name: x\r\nstate: visible\nvalue: 10\n";
    let out = inject_field(yaml, "author", "me", "name", "category");
    assert!(has_field(&out, "author"));
    assert!(has_field(&out, "state"));
    assert!(has_field(&out, "name"));
    assert!(has_field(&out, "value"));
}

#[test]
fn nearest_existing_picks_the_first() {
    let cands = vec!["a".to_string(), "b".to_string(), "c".to_string()];
    assert_eq!(nearest_existing(&cands, &vec![false, true, true]), Some(1));
    assert_eq!(nearest_existing(&cands, &vec![true, false, true]), Some(0));
    assert_eq!(nearest_existing(&cands, &vec![false, false, false]), None);
    assert_eq!(nearest_existing(&Vec::new(), &Vec::new()), None);
}

#[test]
fn config_path_prefers_the_nearest_directory_and_yml() {
    let dir = tempfile::tempdir().unwrap();
    let _far = tempfile::Builder::new().prefix(".nervctf").suffix(".yml").rand_bytes(0).tempfile_in(dir.path()).unwrap();
    let x = tempfile::Builder::new().prefix("x").rand_bytes(0).tempdir_in(dir.path()).unwrap();
    let _yaml = tempfile::Builder::new().prefix(".nervctf").suffix(".yaml").rand_bytes(0).tempfile_in(x.path()).unwrap();
    let _yml = tempfile::Builder::new().prefix(".nervctf").suffix(".yml").rand_bytes(0).tempfile_in(x.path()).unwrap();
    let start = x.path().join("y").to_string_lossy().to_string();
    assert_eq!(find_config_path(&start), x.path().join(".nervctf.yml").to_string_lossy().to_string());
}

#[test]
fn injecting_adds_exactly_one_line() {
    let before = "name: x\nvalue: 1";
    let after = inject_field(before, "author", "me", "name", "category");
    assert_eq!(after, "name: x\nauthor: me\nvalue: 1\n");
    let mut lines: Vec<&str> = after.lines().collect();
    let pos = lines.iter().position(|l| *l == "author: me").unwrap();
    lines.remove(pos);
    assert_eq!(lines, before.lines().collect::<Vec<_>>());
}
