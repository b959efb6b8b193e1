use nervctf::clock::{format_utc_now, utc_timestamp};
use nervctf::ctfd_sql::{
    challenge_record, dynamic_row_on_create, dynamic_row_on_update, full_query, insert_columns, insert_params,
    insert_statement, instance_row, is_scored_type, new_challenge_row, select_list, update_plan, update_statement,
    writes_instance_row_on_create, writes_instance_row_on_update, ChallengeBody, ChallengeColumns, DynamicRow,
    SqlValue,
};
use nervctf::diff::{diff_challenges, find_last, DiffEntry};
use nervctf::probe::ChallengesSchema;
use nervctf::request::{limit_reached_message, request_step, RequestStep, Requester};
use nervctf::resync::{
    files_step, flag_contents, hint_contents, hint_post_fields, is_html_or_redirect, last_segment, replace_step,
    same_strings, tag_values, upload_names, FilesStep, ListedItem, Listing, ReplaceStep,
};
use nervctf::models::{FlagContent, FlagData, FlagType, HintContent, Tag};

fn empty_body() -> ChallengeBody {
    ChallengeBody {
        name: None,
        category: None,
        description: None,
        value: None,
        type_: None,
        state: None,
        max_attempts: None,
        attempts: None,
        connection_info: None,
        requirements: None,
        next_id: None,
        logic: None,
        attribution: None,
        initial: None,
        minimum: None,
        decay: None,
        function: None,
        initial_value: None,
        minimum_value: None,
        decay_value: None,
        decay_function: None,
        backend: None,
        image: None,
        command: None,
        compose_file: None,
        compose_service: None,
        lxc_image: None,
        vagrantfile: None,
        internal_port: None,
        connection: None,
        timeout_minutes: None,
        max_renewals: None,
        flag_mode: None,
        flag_prefix: None,
        flag_suffix: None,
        random_flag_length: None,
    }
}

fn old_schema() -> ChallengesSchema {
    ChallengesSchema {
        has_attribution: false,
        has_logic: false,
        has_position: false,
        dynamic_in_challenges: false,
        dynamic_partial: false,
        has_next_id: false,
        has_dynamic_table: true,
        dynamic_table_has_scoring: true,
    }
}

fn new_schema() -> ChallengesSchema {
    ChallengesSchema {
        has_attribution: true,
        has_logic: true,
        has_position: true,
        dynamic_in_challenges: true,
        dynamic_partial: false,
        has_next_id: true,
        has_dynamic_table: true,
        dynamic_table_has_scoring: false,
    }
}

fn text(s: &str) -> SqlValue {
    SqlValue::Text(s.to_string())
}

#[test]
fn full_query_on_old_ctfd_joins_dynamic_table_and_pads_with_null() {
    let q = full_query(false, &old_schema());
    assert!(q.starts_with("SELECT c.id, c.name, c.description, c.category, c.value, c.`type`, c.state, c.max_attempts, c.connection_info, c.requirements, NULL, NULL, NULL, NULL, d.initial, d.minimum, d.decay, d.`function`, NULL"));
    assert!(q.ends_with(" FROM challenges c LEFT JOIN dynamic_challenge d ON d.id = c.id "));
    assert_eq!(select_list(false, &old_schema()).len(), 37);
}

#[test]
fn full_query_on_new_ctfd_reads_inline_scoring_and_instances() {
    let q = full_query(true, &new_schema());
    assert!(q.contains("c.requirements, c.next_id, c.attribution, c.logic, c.position, c.initial, c.minimum, c.decay, c.`function`, i.backend, i.image"));
    assert!(q.ends_with("i.decay_function FROM challenges c  LEFT JOIN nervctf_instance_challenge i ON i.id = c.id"));
    assert_eq!(select_list(true, &new_schema()).len(), 37);
}

#[test]
fn new_row_defaults() {
    let r = new_challenge_row(&empty_body());
    assert_eq!(r.name, "");
    assert_eq!(r.category, "");
    assert_eq!(r.value, 0);
    assert_eq!(r.type_, "standard");
    assert_eq!(r.state, "hidden");
    assert_eq!(r.max_attempts, 0);
    assert!(!r.scored);
    assert_eq!(r.initial, None);
}

#[test]
fn new_row_takes_attempts_and_scoring_aliases() {
    let mut b = empty_body();
    b.type_ = Some("dynamic".to_string());
    b.attempts = Some(5);
    b.initial_value = Some(500);
    b.minimum = Some(100);
    b.decay_function = Some("logarithmic".to_string());
    let r = new_challenge_row(&b);
    assert_eq!(r.max_attempts, 5);
    assert!(r.scored);
    assert_eq!(r.initial, Some(500));
    assert_eq!(r.minimum, Some(100));
    assert_eq!(r.decay, None);
    assert_eq!(r.function, Some("logarithmic".to_string()));
    b.max_attempts = Some(2);
    assert_eq!(new_challenge_row(&b).max_attempts, 2);
}

#[test]
fn standard_challenge_ignores_scoring() {
    let mut b = empty_body();
    b.initial = Some(500);
    let r = new_challenge_row(&b);
    assert_eq!(r.initial, None);
    assert!(!is_scored_type("standard"));
    assert!(is_scored_type("instance"));
}

#[test]
fn insert_statement_matches_columns() {
    let mut b = empty_body();
    b.name = Some("web1".to_string());
    b.type_ = Some("dynamic".to_string());
    b.initial = Some(500);
    let r = new_challenge_row(&b);
    let cols = insert_columns(&new_schema(), r.scored);
    assert_eq!(cols.len(), 15);
    let sql = insert_statement(&cols);
    assert_eq!(
        sql,
        "INSERT INTO challenges (name, category, description, value, `type`, state, max_attempts, connection_info, requirements, next_id, logic, initial, minimum, decay, `function`) VALUES (?, ?, ?, ?, ?, ?, ?, ?, ?, ?, ?, ?, ?, ?, ?)"
    );
    let params = insert_params(&new_schema(), &r);
    assert_eq!(params.len(), 15);
    assert_eq!(params[0], text("web1"));
    assert_eq!(params[2], SqlValue::Null);
    assert_eq!(params[4], text("dynamic"));
    assert_eq!(params[11], SqlValue::Int(500));
    assert_eq!(params[14], SqlValue::Null);
}

#[test]
fn insert_on_old_ctfd_has_nine_columns() {
    let cols = insert_columns(&old_schema(), true);
    assert_eq!(cols.len(), 9);
    assert_eq!(
        insert_statement(&cols),
        "INSERT INTO challenges (name, category, description, value, `type`, state, max_attempts, connection_info, requirements) VALUES (?, ?, ?, ?, ?, ?, ?, ?, ?)"
    );
}

#[test]
fn dynamic_row_defaults_on_create_and_update() {
    let mut b = empty_body();
    b.type_ = Some("dynamic".to_string());
    b.value = Some(300);
    let r = new_challenge_row(&b);
    assert_eq!(
        dynamic_row_on_create(&old_schema(), &r),
        DynamicRow::Scored { initial: 300, minimum: 1, decay: 50, function: "linear".to_string() }
    );
    assert_eq!(dynamic_row_on_create(&new_schema(), &r), DynamicRow::Stub);
    assert_eq!(
        dynamic_row_on_update(&old_schema(), &b),
        DynamicRow::Scored { initial: 0, minimum: 1, decay: 50, function: "linear".to_string() }
    );
    b.type_ = Some("standard".to_string());
    assert_eq!(dynamic_row_on_update(&old_schema(), &b), DynamicRow::Skip);
}

#[test]
fn update_sets_only_given_fields() {
    let mut b = empty_body();
    b.name = Some("renamed".to_string());
    b.attempts = Some(3);
    b.logic = Some("any".to_string());
    b.initial = Some(400);
    let plan = update_plan(&old_schema(), &b);
    let cols: Vec<&str> = plan.iter().map(|p| p.0.as_str()).collect();
    assert_eq!(cols, vec!["name = ?", "max_attempts = ?"]);
    assert_eq!(plan[1].1, SqlValue::Int(3));
    assert_eq!(
        update_statement(&plan),
        Some("UPDATE challenges SET name = ?, max_attempts = ? WHERE id = ?".to_string())
    );
    let plan2 = update_plan(&new_schema(), &b);
    let cols2: Vec<&str> = plan2.iter().map(|p| p.0.as_str()).collect();
    assert_eq!(cols2, vec!["name = ?", "logic = ?", "max_attempts = ?", "initial = ?"]);
}

#[test]
fn empty_update_has_no_statement() {
    let plan = update_plan(&new_schema(), &empty_body());
    assert!(plan.is_empty());
    assert_eq!(update_statement(&plan), None);
}

#[test]
fn instance_row_defaults() {
    let row = instance_row(7, &empty_body());
    assert_eq!(row.len(), 20);
    assert_eq!(row[0], SqlValue::Int(7));
    assert_eq!(row[1], text("docker"));
    assert_eq!(row[4], text("docker-compose.yml"));
    assert_eq!(row[8], SqlValue::Int(1337));
    assert_eq!(row[9], text("nc"));
    assert_eq!(row[10], SqlValue::Int(45));
    assert_eq!(row[11], SqlValue::Int(3));
    assert_eq!(row[12], text("static"));
    assert_eq!(row[15], SqlValue::Int(16));
    assert_eq!(row[16], SqlValue::Null);
}

#[test]
fn instance_row_prefers_value_names() {
    let mut b = empty_body();
    b.initial = Some(100);
    b.initial_value = Some(200);
    b.function = Some("linear".to_string());
    let row = instance_row(1, &b);
    assert_eq!(row[16], SqlValue::Int(200));
    assert_eq!(row[19], text("linear"));
}

#[test]
fn instance_rows_are_written_for_instance_challenges() {
    let mut b = empty_body();
    assert!(!writes_instance_row_on_update(&b));
    b.backend = Some("lxc".to_string());
    assert!(writes_instance_row_on_update(&b));
    b.type_ = Some("instance".to_string());
    assert!(writes_instance_row_on_create(&new_challenge_row(&b)));
}

fn columns() -> ChallengeColumns {
    ChallengeColumns {
        id: None,
        name: None,
        description: None,
        category: None,
        value: None,
        type_: None,
        state: None,
        max_attempts: None,
        connection_info: None,
        requirements: None,
        next_id: None,
        initial: None,
        minimum: None,
        decay: None,
        function: None,
        backend: None,
        image: None,
        command: None,
        compose_file: None,
        compose_service: None,
        lxc_image: None,
        vagrantfile: None,
        internal_port: None,
        connection: None,
        timeout_minutes: None,
        max_renewals: None,
        flag_mode: None,
        flag_prefix: None,
        flag_suffix: None,
        random_flag_length: None,
        initial_value: None,
        minimum_value: None,
        decay_value: None,
        decay_function: None,
    }
}

#[test]
fn record_defaults_for_null_columns() {
    let r = challenge_record(columns());
    assert_eq!(r.id, 0);
    assert_eq!(r.name, "");
    assert_eq!(r.type_, "standard");
    assert_eq!(r.state, "hidden");
    assert_eq!(r.max_attempts, 0);
    assert!(r.scoring.is_none());
    assert!(r.instance.is_none());
}

#[test]
fn record_groups_scoring_and_instance() {
    let mut c = columns();
    c.id = Some(4);
    c.initial = Some(500);
    c.decay = Some(20);
    c.backend = Some("docker".to_string());
    c.internal_port = Some(8080);
    let r = challenge_record(c);
    let sc = r.scoring.unwrap();
    assert_eq!(sc.initial, 500);
    assert_eq!(sc.decay, Some(20));
    assert_eq!(sc.minimum, None);
    let inst = r.instance.unwrap();
    assert_eq!(inst.backend, "docker");
    assert_eq!(inst.internal_port, Some(8080));
    assert!(inst.scoring.is_none());
}

fn entry(name: &str, category: &str, value: &str) -> DiffEntry {
    DiffEntry {
        name: Some(name.to_string()),
        category: format!("\"{}\"", category),
        value: value.to_string(),
        description: "null".to_string(),
    }
}

#[test]
fn diff_classifies_challenges() {
    let locals = vec![entry("a", "web", "100"), entry("b", "pwn", "200"), entry("c", "misc", "50")];
    let remotes = vec![entry("a", "web", "100"), entry("b", "pwn", "300"), entry("z", "rev", "10")];
    let d = diff_challenges(&locals, &remotes);
    assert_eq!(d.to_create, vec!["c".to_string()]);
    assert_eq!(d.to_update, vec!["b".to_string()]);
    assert_eq!(d.up_to_date, vec!["a".to_string()]);
    assert_eq!(d.remote_only, vec!["z".to_string()]);
}

#[test]
fn diff_uses_last_entry_of_a_name_and_skips_unnamed() {
    let mut unnamed = entry("x", "web", "1");
    unnamed.name = None;
    let locals = vec![entry("a", "web", "1"), unnamed, entry("a", "web", "2")];
    let remotes = vec![entry("a", "web", "2")];
    let d = diff_challenges(&locals, &remotes);
    assert!(d.to_update.is_empty());
    assert_eq!(d.up_to_date, vec!["a".to_string()]);
    assert_eq!(find_last(&locals, "a"), Some(2));
    assert_eq!(find_last(&locals, "x"), None);
}

#[test]
fn diff_of_catalogue_with_itself_is_up_to_date() {
    let cat = vec![entry("a", "web", "1"), entry("b", "pwn", "2")];
    let d = diff_challenges(&cat, &cat);
    assert!(d.to_create.is_empty() && d.to_update.is_empty() && d.remote_only.is_empty());
    assert_eq!(d.up_to_date.len(), 2);
}

#[test]
fn request_steps() {
    assert_eq!(request_step(Requester::Plugin, true, None, true, 0, 0), RequestStep::AlreadySolved);
    assert_eq!(request_step(Requester::Player, true, None, true, 0, 0), RequestStep::Provision);
    assert_eq!(request_step(Requester::Player, false, Some("running"), true, 0, 0), RequestStep::ReturnExisting);
    assert_eq!(request_step(Requester::Player, false, Some("provisioning"), true, 0, 0), RequestStep::AlreadyProvisioning);
    assert_eq!(request_step(Requester::Plugin, false, Some("provisioning"), true, 0, 0), RequestStep::ReturnExisting);
    assert_eq!(request_step(Requester::Player, false, Some("stopped"), false, 0, 0), RequestStep::NotRegistered);
    assert_eq!(request_step(Requester::Player, false, None, true, 2, 2), RequestStep::LimitReached);
    assert_eq!(request_step(Requester::Player, false, None, true, 2, 1), RequestStep::Provision);
    assert_eq!(request_step(Requester::Player, false, None, true, 0, 99), RequestStep::Provision);
}

#[test]
fn limit_message_text() {
    assert_eq!(
        limit_reached_message(3, 3),
        "Instance limit reached: your team already has 3 active instance(s) (max 3)"
    );
}

fn item(text: Option<&str>, id: Option<u64>) -> ListedItem {
    ListedItem { text: text.map(|s| s.to_string()), id }
}

fn strings(v: &[&str]) -> Vec<String> {
    v.iter().map(|s| s.to_string()).collect()
}

#[test]
fn same_strings_ignores_order_but_not_counts() {
    assert!(same_strings(&strings(&["b", "a"]), &strings(&["a", "b"])));
    assert!(!same_strings(&strings(&["a", "a"]), &strings(&["a", "b"])));
    assert!(!same_strings(&strings(&["a"]), &strings(&["a", "a"])));
    assert!(same_strings(&strings(&[]), &strings(&[])));
}

#[test]
fn replace_keeps_matching_remote_items() {
    let listing = Listing::Found(vec![item(Some("flag{b}"), Some(2)), item(Some("flag{a}"), Some(1))]);
    assert_eq!(replace_step(&listing, &strings(&["flag{a}", "flag{b}"])), ReplaceStep::Keep);
    assert_eq!(replace_step(&listing, &strings(&["flag{a}"])), ReplaceStep::Replace(vec![2, 1]));
}

#[test]
fn replace_posts_or_gives_up() {
    assert_eq!(replace_step(&Listing::Empty, &strings(&["x"])), ReplaceStep::Post);
    let html = Listing::Failed("JSON parse error from http://ctf/api (HTTP 200): <!DOCTYPE html>".to_string());
    assert_eq!(replace_step(&html, &strings(&["x"])), ReplaceStep::Unavailable);
    let other = Listing::Failed("API error: 500".to_string());
    assert_eq!(replace_step(&other, &strings(&["x"])), ReplaceStep::Fail);
    assert!(is_html_or_redirect("Redirecting to /login"));
    assert!(!is_html_or_redirect("timeout"));
}

#[test]
fn local_texts_of_flags_tags_hints() {
    let flags = Some(vec![
        FlagContent::Simple("flag{a}".to_string()),
        FlagContent::Detailed {
            id: None,
            challenge_id: None,
            type_: FlagType::Regex,
            content: "flag{.*}".to_string(),
            data: Some(FlagData::CaseInsensitive),
        },
    ]);
    assert_eq!(flag_contents(&flags), strings(&["flag{a}", "flag{.*}"]));
    assert!(flag_contents(&None).is_empty());
    let tags = Some(vec![Tag::Simple("web".to_string())]);
    assert_eq!(tag_values(&tags), strings(&["web"]));
    let hints = Some(vec![
        HintContent::Simple("look".to_string()),
        HintContent::Detailed { content: "deeper".to_string(), cost: Some(10), title: None },
    ]);
    assert_eq!(hint_contents(&hints), strings(&["look", "deeper"]));
    assert_eq!(hint_post_fields(&hints.as_ref().unwrap()[0]), ("look", 0));
    assert_eq!(hint_post_fields(&hints.as_ref().unwrap()[1]), ("deeper", 10));
}

#[test]
fn files_are_compared_by_name() {
    assert_eq!(last_segment("abc123/secret.zip"), "secret.zip");
    assert_eq!(last_segment("plain.txt"), "plain.txt");
    assert_eq!(last_segment("dir/"), "");
    let local = upload_names(&Some(strings(&["files/secret.zip", "notes.txt"])));
    assert_eq!(local, strings(&["secret.zip", "notes.txt"]));
    let same = Listing::Found(vec![item(Some("x1/notes.txt"), Some(5)), item(Some("x2/secret.zip"), Some(6))]);
    assert_eq!(files_step(&local, &same), FilesStep::Skip);
    let other = Listing::Found(vec![item(Some("x1/old.txt"), Some(5)), item(None, Some(9))]);
    assert_eq!(files_step(&local, &other), FilesStep::Upload(vec![5, 9]));
    assert_eq!(files_step(&local, &Listing::Empty), FilesStep::Upload(vec![]));
    assert_eq!(files_step(&local, &Listing::Failed("boom".to_string())), FilesStep::Skip);
    assert_eq!(files_step(&Vec::new(), &Listing::Empty), FilesStep::Skip);
}

#[test]
fn utc_timestamp_formats_epoch_seconds() {
    assert_eq!(utc_timestamp(0), "1970-01-01 00:00:00 UTC");
    assert_eq!(utc_timestamp(1_700_000_000), "2023-11-14 22:13:20 UTC");
    let now = format_utc_now().unwrap();
    assert!(now.ends_with(" UTC"));
    assert_eq!(now.len(), 23);
}
