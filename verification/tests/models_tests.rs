use nervctf::models::{
    default_version, ChallengeWaiting, HintContent, PrereqValue, Requirements, RequirementsQueue, Tag,
};

#[test]
fn prerequisite_names_filters_nulls() {
    let reqs = Requirements::Simple(vec![
        PrereqValue::Text("Warmup".to_string()),
        PrereqValue::Other,
        PrereqValue::Number(5),
    ]);
    let names = reqs.prerequisite_names();
    assert_eq!(names, vec!["Warmup", "5"]);
}

#[test]
fn hint_content_str_simple() {
    let h = HintContent::Simple("check cookies".to_string());
    assert_eq!(h.content_str(), "check cookies");
}

#[test]
fn hint_content_str_detailed() {
    let h = HintContent::Detailed {
        content: "look harder".to_string(),
        cost: Some(50),
        title: None,
    };
    assert_eq!(h.content_str(), "look harder");
}

#[test]
fn tag_value_str_simple() {
    let t = Tag::Simple("sql".to_string());
    assert_eq!(t.value_str(), "sql");
}

#[test]
fn tag_value_str_detailed() {
    let t = Tag::Detailed {
        challenge_id: None,
        id: None,
        value: "xss".to_string(),
    };
    assert_eq!(t.value_str(), "xss");
}

#[test]
fn version_default_is_01() {
    assert_eq!(default_version(), "0.1");
}

#[test]
fn advanced_requirements_list_their_prerequisites() {
    let reqs = Requirements::Advanced {
        prerequisites: vec![PrereqValue::Number(7), PrereqValue::Text("Intro".to_string())],
        anonymize: true,
    };
    assert_eq!(reqs.prerequisite_names(), vec!["7", "Intro"]);
}

#[test]
fn waiting_entry_is_satisfied_only_without_prerequisites() {
    assert!(ChallengeWaiting::new("a".to_string(), vec![]).satisfied());
    assert!(!ChallengeWaiting::new("a".to_string(), vec!["b".to_string()]).satisfied());
}

#[test]
fn processing_a_deployed_challenge_releases_its_dependents() {
    let mut q = RequirementsQueue::new();
    q.add("b".to_string(), vec!["a".to_string()]);
    q.add("c".to_string(), vec!["a".to_string(), "b".to_string()]);
    assert!(q.contains("b"));
    q.process("a");
    // "b" waited only for "a": it is dropped from the queue.
    assert!(!q.contains("b"));
    assert!(q.contains("c"));
    q.refresh("b".to_string());
    assert!(q.is_empty());
}

#[test]
fn pop_satisfied_returns_ready_names_in_order() {
    let mut q = RequirementsQueue::new();
    q.add("x".to_string(), vec![]);
    q.add("y".to_string(), vec!["x".to_string()]);
    q.add("z".to_string(), vec![]);
    let ready = q.pop_satisfied();
    assert_eq!(ready, vec!["x", "z"]);
    assert!(q.contains("y"));
    assert!(!q.contains("x"));
}

#[test]
fn queue_report_lines() {
    let mut q = RequirementsQueue::new();
    assert_eq!(q.lines(), vec!["\u{2705} All challenges are ready to be processed.".to_string()]);
    q.add("b".to_string(), vec!["a".to_string(), "c".to_string()]);
    assert_eq!(
        q.lines(),
        vec![
            "\u{23f3} Challenges waiting for dependencies:".to_string(),
            "  - b (waiting for: a, c)".to_string(),
        ]
    );
}
