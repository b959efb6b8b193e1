use nervctf::deploy::{
    backend_label, build_upload, follow_up_jobs, is_confirmation, lookup_remote_id, merges_extra_fields, plan_deploy,
    resolve_challenge_type_and_description, resolve_prereq_ids, state_name, DeployError,
};
use nervctf::models::{
    Challenge, ChallengeType, Extra, FlagContent, InstanceBackend, InstanceConfig, PrereqValue, Requirements, State,
};

fn chall(name: &str) -> Challenge {
    Challenge {
        name: name.to_string(),
        category: "web".to_string(),
        value: 100,
        challenge_type: ChallengeType::Standard,
        description: Some("desc".to_string()),
        id: None,
        challenge_id: None,
        author: None,
        extra: None,
        instance: None,
        image: None,
        protocol: None,
        host: None,
        connection_info: None,
        healthcheck: None,
        attempts: None,
        flags: Some(vec![FlagContent::Simple("flag{x}".to_string())]),
        topics: None,
        tags: None,
        files: None,
        hints: None,
        requirements: None,
        next: None,
        state: Some(State::Visible),
        script: None,
        solved_by_me: None,
        solves: None,
        template: None,
        version: "0.1".to_string(),
        source_path: "chals/x".to_string(),
        unknown_yaml_keys: Vec::new(),
    }
}

fn remote(name: &str, id: Option<u32>) -> Challenge {
    let mut c = chall(name);
    c.id = id;
    c
}

fn instance(backend: InstanceBackend) -> InstanceConfig {
    InstanceConfig {
        backend,
        image: None,
        compose_file: None,
        compose_service: None,
        lxc_image: None,
        vagrantfile: None,
        internal_port: 80,
        connection: "http".to_string(),
        timeout_minutes: None,
        max_renewals: None,
        command: None,
        flag_mode: None,
        flag_prefix: None,
        flag_suffix: None,
        random_flag_length: None,
        flag_delivery: None,
        flag_file_path: None,
        flag_service: None,
    }
}

#[test]
fn plan_sorts_locals_into_create_update_and_same() {
    let mut changed = chall("c");
    changed.value = 500;
    let locals = vec![chall("a"), chall("b"), changed];
    let remotes = vec![remote("b", Some(3)), remote("c", Some(7))];
    match plan_deploy(&locals, &remotes) {
        Ok(plan) => {
            assert_eq!(plan.to_create, vec![0]);
            assert_eq!(plan.to_update, vec![(2, 7)]);
            assert_eq!(plan.up_to_date, vec![1]);
        },
        Err(_) => panic!("plan expected"),
    }
}

#[test]
fn plan_fails_when_remote_has_no_id() {
    let mut changed = chall("c");
    changed.category = "pwn".to_string();
    let locals = vec![chall("a"), changed];
    let remotes = vec![remote("c", None)];
    match plan_deploy(&locals, &remotes) {
        Err(DeployError::MissingRemoteId(name)) => assert_eq!(name, "c"),
        Ok(_) => panic!("missing id must fail"),
    }
}

#[test]
fn last_remote_of_a_name_is_matched() {
    let mut old = remote("a", Some(1));
    old.value = 1;
    let locals = vec![chall("a")];
    let remotes = vec![old, remote("a", Some(2))];
    let plan = match plan_deploy(&locals, &remotes) {
        Ok(p) => p,
        Err(_) => panic!("plan expected"),
    };
    assert_eq!(plan.up_to_date, vec![0]);
}

#[test]
fn confirmation_is_y_in_any_case() {
    assert!(is_confirmation("y\n"));
    assert!(is_confirmation("  Y "));
    assert!(!is_confirmation("yes"));
    assert!(!is_confirmation(""));
}

#[test]
fn prerequisites_resolve_to_remote_ids() {
    let remotes = vec![remote("alpha", Some(3)), remote("nameless", None)];
    let names: Vec<String> = ["", "5", "alpha", "ghost", "nameless"].iter().map(|s| s.to_string()).collect();
    let (ids, missing) = resolve_prereq_ids(&names, &remotes);
    assert_eq!(ids, vec![5, 3]);
    assert_eq!(missing, vec!["ghost", "nameless"]);
    assert_eq!(lookup_remote_id(&remotes, "alpha"), Some(3));
    assert_eq!(lookup_remote_id(&remotes, "nameless"), None);
}

#[test]
fn type_and_description_for_ctfd() {
    let mut c = chall("a");
    c.challenge_type = ChallengeType::Instance;
    c.description = None;
    let (t, d) = resolve_challenge_type_and_description(&c);
    assert_eq!((t.as_str(), d.as_str()), ("instance", ""));
    assert_eq!(state_name(&None), "visible");
    assert_eq!(state_name(&Some(State::Hidden)), "hidden");
}

#[test]
fn extra_fields_merge_for_dynamic_scoring() {
    let mut d = chall("d");
    d.challenge_type = ChallengeType::Dynamic;
    d.extra = Some(Extra { initial: Some(500), ..Default::default() });
    assert!(merges_extra_fields(&d));
    let mut i = chall("i");
    i.challenge_type = ChallengeType::Instance;
    i.extra = Some(Extra { decay: Some(5), ..Default::default() });
    assert!(!merges_extra_fields(&i));
    i.extra = Some(Extra { initial: Some(100), ..Default::default() });
    assert!(merges_extra_fields(&i));
}

#[test]
fn follow_up_jobs_for_created_challenge() {
    let mut c = chall("a");
    c.files = Some(vec!["f.zip".to_string()]);
    c.requirements = Some(Requirements::Simple(vec![PrereqValue::Text("intro".to_string())]));
    let (files, reqs, next) = follow_up_jobs(&c, 9, true, true, Some("b".to_string()));
    let files = files.unwrap();
    assert_eq!((files.challenge_id, files.source_path.as_str()), (9, "chals/x"));
    assert_eq!(files.files, vec!["f.zip"]);
    assert_eq!(reqs.unwrap().prereq_names, vec!["intro"]);
    assert_eq!(next.unwrap().next_name, "b");
    let (f2, r2, n2) = follow_up_jobs(&c, 9, false, false, None);
    assert!(f2.is_none() && r2.is_none() && n2.is_none());
}

#[test]
fn instance_build_context() {
    assert_eq!(backend_label(InstanceBackend::Compose), "compose");
    let mut c = chall("a");
    let mut inst = instance(InstanceBackend::Docker);
    inst.image = Some(".".to_string());
    c.instance = Some(inst.clone());
    let up = build_upload(&c).unwrap();
    assert_eq!((up.context_dir.as_str(), up.endpoint.as_str()), ("chals/x", "/instance/build"));
    inst.image = Some("./srv".to_string());
    c.instance = Some(inst.clone());
    assert_eq!(build_upload(&c).unwrap().context_dir, "chals/x/./srv");
    inst.image = Some("nginx:latest".to_string());
    c.instance = Some(inst);
    assert!(build_upload(&c).is_none());
    let mut comp = instance(InstanceBackend::Compose);
    comp.compose_file = Some("docker-compose.yml".to_string());
    c.instance = Some(comp.clone());
    assert_eq!(build_upload(&c).unwrap().endpoint, "/instance/build-compose");
    comp.compose_file = Some("/abs/c.yml".to_string());
    c.instance = Some(comp);
    assert!(build_upload(&c).is_none());
}

#[test]
fn redeploying_the_same_catalogue_changes_nothing() {
    let cs = vec![chall("a"), chall("b"), chall("c")];
    let plan = match plan_deploy(&cs, &cs) {
        Ok(p) => p,
        Err(DeployError::MissingRemoteId(n)) => panic!("unexpected missing id for {}", n),
    };
    assert!(plan.to_create.is_empty());
    assert!(plan.to_update.is_empty());
    assert_eq!(plan.up_to_date, vec![0, 1, 2]);
}
