use nervctf::config::Config;
use nervctf::probe::{ctfd_mode_of, probe_result, unreachable_probe, CtfdMode};
use nervctf::setup::find_flake_nix;
use nervctf::runner::{
    command_words, command_words_from, docker_run_args, flag_file_path, lxc_connect_address, lxc_flag_command,
    lxc_listen_address, remote_cleanup_command, remote_compose_build_command, remote_down_command,
    remote_write_command, runner_target_from, split_whitespace_words, ssh_args,
};
use nervctf::server::hex_string;
use nervctf::setup::{
    ansible_args, apply_setup, monitor_binary_candidates, nix_develop_args, plugin_src_candidate, setup_defaults,
    upgrade_extra_vars, upgrade_plan, SetupAnswers, SetupError, UpgradeError,
};

fn strings(v: &[&str]) -> Vec<String> {
    v.iter().map(|s| s.to_string()).collect()
}

#[test]
fn whitespace_split_drops_runs_of_blanks() {
    assert_eq!(split_whitespace_words("  a  bb\tc \n"), strings(&["a", "bb", "c"]));
    assert!(split_whitespace_words("   ").is_empty());
    assert!(split_whitespace_words("").is_empty());
}

#[test]
fn command_words_prefer_shell_split() {
    assert_eq!(command_words("/bin/sh -c 'echo $FLAG'"), strings(&["/bin/sh", "-c", "echo $FLAG"]));
    // unbalanced quote: falls back to whitespace splitting
    assert_eq!(command_words("echo 'oops"), strings(&["echo", "'oops"]));
    assert_eq!(command_words_from(Some(strings(&["x"])), "a b"), strings(&["x"]));
    assert_eq!(command_words_from(None, "a b"), strings(&["a", "b"]));
}

#[test]
fn docker_run_arguments() {
    let env = vec![("FLAG".to_string(), "flag{x}".to_string())];
    let args = docker_run_args("img:latest", "ctf-web-t1", 41000, 8080, Some("./run --fast"), &env);
    assert_eq!(
        args,
        strings(&[
            "run", "-d", "--name", "ctf-web-t1", "-p", "41000:8080", "--restart=unless-stopped", "-e",
            "FLAG=flag{x}", "img:latest", "./run", "--fast"
        ])
    );
    let bare = docker_run_args("img", "c", 1, 2, None, &Vec::new());
    assert_eq!(bare, strings(&["run", "-d", "--name", "c", "-p", "1:2", "--restart=unless-stopped", "img"]));
}

#[test]
fn lxc_texts() {
    assert_eq!(lxc_listen_address(40001), "listen=tcp:0.0.0.0:40001");
    assert_eq!(lxc_connect_address(22), "connect=tcp:127.0.0.1:22");
    assert_eq!(
        lxc_flag_command("flag{a}"),
        "printf '%s\\n' 'flag{a}' > /challenge/flag && chmod 444 /challenge/flag"
    );
}

#[test]
fn ssh_invocation() {
    assert_eq!(
        ssh_args("root@10.0.0.2", "ls"),
        strings(&[
            "-o", "StrictHostKeyChecking=no", "-o", "UserKnownHostsFile=/dev/null", "-o", "BatchMode=yes",
            "root@10.0.0.2", "ls"
        ])
    );
    assert_eq!(remote_write_command("/srv/ctf/a b.yml"), "mkdir -p /srv/ctf && cat > '/srv/ctf/a b.yml'");
}

#[test]
fn compose_commands_on_runner() {
    assert_eq!(remote_down_command("ctf-web-t1"), "docker compose -p ctf-web-t1 down -v");
    assert_eq!(
        remote_compose_build_command("/srv/web/docker-compose.yml", "web"),
        "DOCKER_BUILDKIT=1 docker compose -f /srv/web/docker-compose.yml -p web build"
    );
    assert_eq!(flag_file_path("/srv/web", "p1"), "/srv/web/p1.flag");
    assert_eq!(remote_cleanup_command("/srv/web", "p1"), "rm -f /srv/web/p1.override.yml /srv/web/p1.flag");
}

#[test]
fn runner_target_settings() {
    assert_eq!(runner_target_from(Some("runner@h"), Some("ssh://other")), Some("runner@h".to_string()));
    assert_eq!(runner_target_from(Some(""), Some("ssh://other")), None);
    assert_eq!(runner_target_from(None, Some("ssh://user@host")), Some("user@host".to_string()));
    assert_eq!(runner_target_from(None, Some("ssh://ssh://x")), Some("x".to_string()));
    assert_eq!(runner_target_from(None, Some("tcp://host:2375")), None);
    assert_eq!(runner_target_from(None, Some("ssh://")), None);
    assert_eq!(runner_target_from(None, None), None);
}

#[test]
fn hex_of_bytes() {
    assert_eq!(hex_string(&vec![0x00, 0x0f, 0xa5, 0xff]), "000fa5ff");
    assert_eq!(hex_string(&vec![0u8; 32]).len(), 64);
}

fn config() -> Config {
    Config::default()
}

#[test]
fn upgrade_needs_target_and_artifacts() {
    assert_eq!(upgrade_plan(&config(), Some("bin"), None).err(), Some(UpgradeError::NoTargetIp));
    let mut c = config();
    c.target_ip = Some("10.0.0.1".to_string());
    assert_eq!(upgrade_plan(&c, None, None).err(), Some(UpgradeError::NothingToDeploy));
    c.max_concurrent_provisions = Some(4);
    let p = upgrade_plan(&c, Some("/b/remote-monitor"), None).ok().unwrap();
    assert_eq!(p.target_user, "root");
    assert_eq!(p.ctfd_path, "/home/docker/CTFd");
    assert_eq!(p.monitor_port, "33133");
    assert_eq!(
        p.extra_vars,
        strings(&["ctfd_path=/home/docker/CTFd", "monitor_port=33133", "max_concurrent_provisions=4", "monitor_binary=/b/remote-monitor"])
    );
    assert_eq!(
        p.inventory,
        "[ctfd]\n10.0.0.1 ansible_user=root ansible_ssh_common_args='-o StrictHostKeyChecking=no'\n"
    );
    assert_eq!(upgrade_extra_vars("p", "1", None, None, Some("plug")), strings(&["ctfd_path=p", "monitor_port=1", "plugin_src=plug"]));
}

#[test]
fn setup_offers_defaults() {
    let d = setup_defaults(&config());
    assert_eq!(d.challenges_dir, ".");
    assert_eq!(d.target_ip, None);
    assert_eq!(d.target_user, "root");
    assert_eq!(d.runner_ip, "");
    assert_eq!(d.runner_user, "root");
    assert_eq!(d.ctfd_path, "/home/docker/CTFd");
    assert_eq!(d.monitor_port, "33133");
}

fn answers(ip: &str, runner: &str) -> SetupAnswers {
    SetupAnswers {
        challenges_dir: "chals".to_string(),
        target_ip: ip.to_string(),
        target_user: "admin".to_string(),
        runner_ip: runner.to_string(),
        runner_user: Some("ops".to_string()),
        ctfd_path: "/opt/ctfd".to_string(),
        monitor_port: "9000".to_string(),
        monitor_token: "tok".to_string(),
        ssh_pubkey_path: "/home/u/.ssh/id.pub".to_string(),
    }
}

#[test]
fn setup_saves_answers() {
    let c = apply_setup(config(), answers("10.1.1.1", "10.1.1.2")).ok().unwrap();
    assert_eq!(c.monitor_url.as_deref(), Some("http://10.1.1.1:9000"));
    assert_eq!(c.runner_ip.as_deref(), Some("10.1.1.2"));
    assert_eq!(c.runner_user.as_deref(), Some("ops"));
    assert_eq!(c.challenges_dir.as_deref(), Some("chals"));
    let c2 = apply_setup(config(), answers("10.1.1.1", "  ")).ok().unwrap();
    assert_eq!(c2.runner_ip, None);
    assert_eq!(c2.runner_user, None);
    assert_eq!(apply_setup(config(), answers("   ", "")).err(), Some(SetupError::MissingTargetIp));
}

#[test]
fn ansible_invocations() {
    let args = ansible_args("/t/inventory.ini", "/t/playbook.yml", &strings(&["a=1", "b=2"]));
    assert_eq!(args, strings(&["-i", "/t/inventory.ini", "/t/playbook.yml", "-e", "a=1", "-e", "b=2"]));
    assert_eq!(
        nix_develop_args("/w", &strings(&["-i", "x"])),
        strings(&["develop", "/w", "--command", "ansible-playbook", "-i", "x"])
    );
}

#[test]
fn artifact_candidates() {
    let c = monitor_binary_candidates("/w");
    assert_eq!(
        c,
        strings(&[
            "/w/target/x86_64-unknown-linux-musl/release/remote-monitor",
            "/w/target/aarch64-unknown-linux-musl/release/remote-monitor",
            "/w/target/release/remote-monitor",
            "/w/target/x86_64-unknown-linux-musl/debug/remote-monitor",
            "/w/target/aarch64-unknown-linux-musl/debug/remote-monitor",
            "/w/target/debug/remote-monitor",
        ])
    );
    assert_eq!(plugin_src_candidate("/w"), "/w/src/nervctf/assets/ctfd-plugin");
}

use nervctf::monitor::{
    broken_capabilities, is_dead, monitor_settings, untracked_projects, used_ports, MonitorEnv, PortRow,
    SettingsError,
};
use nervctf::probe::Capabilities;
use nervctf::text::{parse_u64, parse_usize};

#[test]
fn used_ports_skip_values_out_of_range() {
    let rows = vec![
        PortRow { port: 40001, extra: vec![Some(40002), None, Some(70000)] },
        PortRow { port: -1, extra: vec![] },
        PortRow { port: 65536, extra: vec![Some(40003)] },
    ];
    let ports = used_ports(&rows);
    let mut v: Vec<u16> = ports.into_iter().collect();
    v.sort();
    assert_eq!(v, vec![40001, 40002, 40003]);
}

#[test]
fn dead_containers() {
    assert!(is_dead(Some(false), Some(false)));
    assert!(is_dead(Some(false), None));
    assert!(is_dead(None, Some(false)));
    assert!(!is_dead(Some(true), Some(false)));
    assert!(!is_dead(Some(false), Some(true)));
    assert!(!is_dead(None, None));
}

#[test]
fn broken_capability_names() {
    let c = Capabilities {
        challenge_crud: "ok".to_string(),
        dynamic_scoring: "broken".to_string(),
        player_auth: "degraded".to_string(),
        instance_flags: "broken".to_string(),
        redis_sync: "degraded".to_string(),
        notes: vec![],
    };
    assert_eq!(broken_capabilities(&c), strings(&["dynamic_scoring", "instance_flags"]));
}

#[test]
fn orphaned_projects() {
    let listed = strings(&["ctf-a-t1", "ctf-b-t2", "ctf-c-t3"]);
    let known = strings(&["ctf-b-t2"]);
    assert_eq!(untracked_projects(&listed, &known), strings(&["ctf-a-t1", "ctf-c-t3"]));
}

fn env() -> MonitorEnv {
    MonitorEnv {
        public_host: Some("ctf.example.org".to_string()),
        monitor_port: None,
        monitor_bind: None,
        db_path: None,
        challenges_base_dir: None,
        ctfd_uploads_dir: None,
        ctfd_domain: None,
        runner_ssh_target: None,
        docker_host: None,
        ctfd_db_url: Some("mysql://ctfd@db/ctfd".to_string()),
        max_concurrent_provisions: None,
        max_instances_per_team: None,
        sync_interval: None,
    }
}

#[test]
fn monitor_settings_defaults() {
    let s = monitor_settings(&env()).ok().unwrap();
    assert_eq!(s.listen_address, "0.0.0.0:33133");
    assert_eq!(s.db_path, "./monitor.db");
    assert_eq!(s.challenges_base_dir, "/opt/nervctf/challenges");
    assert_eq!(s.ctfd_uploads_dir, "");
    assert_eq!(s.ctfd_url, "http://ctf.example.org");
    assert_eq!(s.runner_ssh_target, None);
    assert_eq!(s.max_concurrent_provisions, 4);
    assert_eq!(s.max_instances_per_team, 0);
    assert_eq!(s.sync_interval_secs, 30);
}

#[test]
fn monitor_settings_from_environment() {
    let mut e = env();
    e.monitor_port = Some("8080".to_string());
    e.monitor_bind = Some("127.0.0.1".to_string());
    e.max_concurrent_provisions = Some("8".to_string());
    e.max_instances_per_team = Some("two".to_string());
    e.docker_host = Some("ssh://runner@10.0.0.9".to_string());
    let s = monitor_settings(&e).ok().unwrap();
    assert_eq!(s.listen_address, "127.0.0.1:8080");
    assert_eq!(s.max_concurrent_provisions, 8);
    assert_eq!(s.max_instances_per_team, 0);
    assert_eq!(s.runner_ssh_target, Some("runner@10.0.0.9".to_string()));
    let mut missing = env();
    missing.public_host = None;
    assert_eq!(monitor_settings(&missing).err(), Some(SettingsError::MissingPublicHost));
    let mut no_db = env();
    no_db.ctfd_db_url = None;
    assert_eq!(monitor_settings(&no_db).err(), Some(SettingsError::MissingCtfdDbUrl));
}

#[test]
fn unsigned_parsing_matches_std() {
    for s in ["0", "+7", "18446744073709551615", "18446744073709551616", "", "+", "-1", "1 ", "12a"] {
        assert_eq!(parse_u64(s), s.parse::<u64>().ok(), "{}", s);
        assert_eq!(parse_usize(s), s.parse::<usize>().ok(), "{}", s);
    }
}

use nervctf::api::{
    api_base_url, api_url, authorization_value, challenge_endpoint, challenges_page_endpoint, next_page, SubResource,
};
use nervctf::config::{effective_base_dir, resolve_setting};
use nervctf::server::extract_bearer;

#[test]
fn api_addresses() {
    assert_eq!(api_base_url("http://10.0.0.1:33133//"), "http://10.0.0.1:33133");
    assert_eq!(api_url("http://h:1", "/challenges"), "http://h:1/api/v1/challenges");
    assert_eq!(challenge_endpoint(12, None), "/challenges/12");
    assert_eq!(challenge_endpoint(12, Some(SubResource::Flags)), "/challenges/12/flags");
    assert_eq!(challenges_page_endpoint(3), "/challenges?page=3");
}

#[test]
fn authorization_round_trip() {
    let header = authorization_value("s3cr3t");
    assert_eq!(header, "Token s3cr3t");
    assert_eq!(extract_bearer(Some(header.as_str())), Some("s3cr3t"));
}

#[test]
fn paging_stops() {
    assert_eq!(next_page(1, Some(20), Some(2)), Some(2));
    assert_eq!(next_page(2, Some(20), Some(2)), None);
    assert_eq!(next_page(1, Some(0), Some(2)), None);
    assert_eq!(next_page(1, None, Some(2)), None);
    assert_eq!(next_page(1, Some(5), None), None);
}

#[test]
fn base_dir_and_settings_precedence() {
    assert_eq!(effective_base_dir(".", &Some("chals".to_string())), "chals");
    assert_eq!(effective_base_dir("./", &Some("chals".to_string())), "chals");
    assert_eq!(effective_base_dir("mine", &Some("chals".to_string())), "mine");
    assert_eq!(effective_base_dir(".", &None), ".");
    assert_eq!(resolve_setting(Some("a".into()), Some("b".into()), Some("c".into())), Some("a".to_string()));
    assert_eq!(resolve_setting(None, Some("b".into()), Some("c".into())), Some("b".to_string()));
    assert_eq!(resolve_setting(None, None, Some("c".into())), Some("c".to_string()));
    assert_eq!(resolve_setting(None, None, None), None);
}

use nervctf::instance::container_name;
use nervctf::monitor::ctf_projects;

#[test]
fn own_projects_are_listed() {
    let mine = container_name("Web Chall");
    assert!(mine.starts_with("ctf-web-chall-"));
    let names = vec![Some("other".to_string()), None, Some(mine.clone()), Some("ctf-x-abc123".to_string())];
    assert_eq!(ctf_projects(&names), vec![mine, "ctf-x-abc123".to_string()]);
}

use nervctf::provision::strip_end_slashes;
use nervctf::uploads::{check_upload, stored_path, upload_location, upload_token, UploadError};

#[test]
fn upload_paths() {
    let token = upload_token();
    assert_eq!(token.len(), 32);
    assert!(token.chars().all(|c| c.is_ascii_hexdigit() && !c.is_ascii_uppercase()));
    let location = upload_location(&token, "notes.txt");
    assert_eq!(location, format!("{}/notes.txt", token));
    assert_eq!(stored_path("/var/uploads//", &location), format!("/var/uploads/{}/notes.txt", token));
    assert_eq!(format!("{}/notes.txt", stored_path("/var/uploads", &token)), stored_path("/var/uploads/", &location));
    assert_eq!(strip_end_slashes("a//"), "a");
    assert_eq!(strip_end_slashes("///"), "");
}

#[test]
fn upload_requests_need_id_and_files() {
    assert_eq!(check_upload(None, 2), Err(UploadError::MissingChallengeId));
    assert_eq!(check_upload(Some(3), 0), Err(UploadError::NoFiles));
    assert_eq!(check_upload(Some(3), 1), Ok(3));
}

#[test]
fn flake_is_found_in_the_nearest_directory() {
    let dir = tempfile::tempdir().unwrap();
    let _far = tempfile::Builder::new().prefix("flake").suffix(".nix").rand_bytes(0).tempfile_in(dir.path()).unwrap();
    let x = tempfile::Builder::new().prefix("x").rand_bytes(0).tempdir_in(dir.path()).unwrap();
    let start = x.path().join("y").to_string_lossy().to_string();
    assert_eq!(find_flake_nix(&start), Some(dir.path().join("flake.nix").to_string_lossy().to_string()));
    let _near = tempfile::Builder::new().prefix("flake").suffix(".nix").rand_bytes(0).tempfile_in(x.path()).unwrap();
    assert_eq!(find_flake_nix(&start), Some(x.path().join("flake.nix").to_string_lossy().to_string()));
}

#[test]
fn ctfd_mode_from_config_value() {
    assert!(matches!(ctfd_mode_of(Some("1")), CtfdMode::UserMode));
    assert!(matches!(ctfd_mode_of(Some("true")), CtfdMode::UserMode));
    assert!(matches!(ctfd_mode_of(Some("0")), CtfdMode::TeamMode));
    assert!(matches!(ctfd_mode_of(Some("false")), CtfdMode::TeamMode));
    assert!(matches!(ctfd_mode_of(Some("")), CtfdMode::TeamMode));
    assert!(matches!(ctfd_mode_of(None), CtfdMode::TeamMode));
    assert!(matches!(ctfd_mode_of(Some("teams")), CtfdMode::Unknown));
}

#[test]
fn probe_record_sorts_columns_and_rates_capabilities() {
    let cols = vec!["value".to_string(), "next_id".to_string(), "id".to_string(), "initial".to_string()];
    let dyn_cols = vec!["minimum".to_string(), "initial".to_string()];
    let r = probe_result("2024-01-01 00:00:00 UTC".to_string(), cols, dyn_cols, Some("3.7.0".to_string()), Some("0"), false);
    assert_eq!(r.challenges_cols, vec!["id", "initial", "next_id", "value"]);
    assert_eq!(r.dynamic_cols, vec!["initial", "minimum"]);
    assert_eq!(r.ctfd_version_tag, Some("3.7.0".to_string()));
    assert_eq!(r.ctfd_version_source, "configs_table");
    assert_eq!(r.is_team_mode, Some(true));
    assert!(r.dynamic_partial && !r.dynamic_inline && r.has_next_id && r.has_dynamic_table);
    assert_eq!(r.cap_challenge_crud, "ok");
    assert_eq!(r.cap_dynamic_scoring, "broken");
    assert_eq!(r.cap_player_auth, "ok");
    assert_eq!(r.cap_instance_flags, "degraded");
    assert_eq!(r.cap_redis_sync, "degraded");
    assert_eq!(r.probe_notes.len(), 3);
}

#[test]
fn unreachable_database_probe() {
    let r = unreachable_probe("t".to_string(), "refused");
    assert_eq!(r.probe_notes, vec!["Cannot connect to CTFd MariaDB: refused".to_string()]);
    assert_eq!(r.cap_challenge_crud, "broken");
    assert_eq!(r.cap_redis_sync, "degraded");
    assert_eq!(r.ctfd_version_source, "inferred");
    assert!(r.challenges_cols.is_empty() && r.is_team_mode.is_none());
}
