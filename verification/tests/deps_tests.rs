use nervctf::deps::SyncAction;
use nervctf::models::{Challenge, ChallengeType, FlagContent, PrereqValue, Requirements, RequirementsQueue, State};

fn challenge(name: &str, reqs: &[&str]) -> Challenge {
    Challenge {
        name: name.to_string(),
        category: "web".to_string(),
        value: 100,
        challenge_type: ChallengeType::Standard,
        description: Some("d".to_string()),
        id: None,
        challenge_id: None,
        author: None,
        extra: None,
        instance: None,
        image: None,
        protocol: None,
        host: None,
        connection_info: None,
        healthcheck: None,
        attempts: None,
        flags: Some(vec![FlagContent::Simple("flag{x}".to_string())]),
        topics: None,
        tags: None,
        files: None,
        hints: None,
        requirements: if reqs.is_empty() {
            None
        } else {
            Some(Requirements::Simple(reqs.iter().map(|r| PrereqValue::Text(r.to_string())).collect()))
        },
        next: None,
        state: Some(State::Visible),
        script: None,
        solved_by_me: None,
        solves: None,
        template: None,
        version: "0.1".to_string(),
        source_path: String::new(),
        unknown_yaml_keys: Vec::new(),
    }
}

fn names(actions: &[SyncAction]) -> Vec<String> {
    actions
        .iter()
        .map(|a| match a {
            SyncAction::Create { name, .. } => format!("create:{}", name),
            SyncAction::Update { name, .. } => format!("update:{}", name),
            SyncAction::UpToDate { name } => format!("same:{}", name),
            SyncAction::RemoteOnly { name } => format!("remote:{}", name),
        })
        .collect()
}

#[test]
fn prerequisites_are_deployed_first() {
    let q = RequirementsQueue::new();
    let actions = vec![
        SyncAction::Create { name: "c".to_string(), challenge: challenge("c", &["b"]) },
        SyncAction::Create { name: "b".to_string(), challenge: challenge("b", &["a"]) },
        SyncAction::UpToDate { name: "x".to_string() },
        SyncAction::Create { name: "a".to_string(), challenge: challenge("a", &[]) },
    ];
    let ordered = q.resolve_dependencies(actions);
    assert_eq!(names(&ordered), vec!["create:a", "create:b", "create:c", "same:x"]);
}

#[test]
fn unknown_prerequisite_does_not_hold_back() {
    let q = RequirementsQueue::new();
    let actions = vec![
        SyncAction::Create { name: "lonely".to_string(), challenge: challenge("lonely", &["ghost"]) },
        SyncAction::RemoteOnly { name: "r".to_string() },
    ];
    let ordered = q.resolve_dependencies(actions);
    assert_eq!(names(&ordered), vec!["create:lonely", "remote:r"]);
}

#[test]
fn deployed_prerequisite_does_not_hold_back() {
    let q = RequirementsQueue::new();
    let actions = vec![
        SyncAction::UpToDate { name: "w".to_string() },
        SyncAction::Create { name: "a".to_string(), challenge: challenge("a", &["w"]) },
        SyncAction::Update { name: "b".to_string(), local: challenge("b", &["a", "w"]), remote_id: 2 },
    ];
    let ordered = q.resolve_dependencies(actions);
    assert_eq!(names(&ordered), vec!["create:a", "update:b", "same:w"]);
}

#[test]
fn cycle_is_kept_after_the_ordered() {
    let q = RequirementsQueue::new();
    let actions = vec![
        SyncAction::Create { name: "p".to_string(), challenge: challenge("p", &["q"]) },
        SyncAction::Update { name: "q".to_string(), local: challenge("q", &["p"]), remote_id: 4 },
        SyncAction::Create { name: "free".to_string(), challenge: challenge("free", &[]) },
        SyncAction::UpToDate { name: "x".to_string() },
    ];
    let ordered = q.resolve_dependencies(actions);
    assert_eq!(names(&ordered), vec!["create:free", "create:p", "update:q", "same:x"]);
}
