use std::collections::HashSet;

use nervctf::clock::{
    chrono_from_secs, days_to_ymd, expires_at_from, expires_at_string, expiry_after, session_expires_at, utc_timestamp_checked,
};
use nervctf::compose::{
    challenge_dir_name, compose_dir, flag_file_for, override_path, override_yaml, prebuilt_services, remote_build_command,
    remote_up_command, service_name, FlagFile,
};
use nervctf::instance::{
    build_connections, build_extra_ports_json, container_name, container_name_with, existing_instance, flag_with,
    generate_flag, is_instance_project, may_renew, pick_free_port, sanitize_name, shell_quote, ExistingInstance,
    FlagSettings,
};
use nervctf::models::InstanceBackend;
use nervctf::probe::{capabilities, detect_schema, team_mode_flag, version_from_config, CtfdMode};
use nervctf::provision::{
    allocate_service_ports, challenge_dir, compose_path, connection_or_default, docker_flag_injection,
    image_tag_or_default, internal_ports_of, pair_ports, parse_backend, port_count, timeout_or_default,
    total_service_ports,
};
use nervctf::server::{extract_bearer, extract_session_cookie, hash_token, html_escape};
use nervctf::setup::{ansible_extra_vars, ansible_inventory, monitor_url};

#[test]
fn hash_token_deterministic() {
    let h1 = hash_token("secret123");
    let h2 = hash_token("secret123");
    assert_eq!(h1, h2);
    assert_eq!(h1.len(), 64);
}

#[test]
fn hash_token_different_inputs_differ() {
    assert_ne!(hash_token("secret123"), hash_token("wrongtoken"));
}

#[test]
fn hash_token_empty_input() {
    assert_ne!(hash_token(""), hash_token("notempty"));
}

#[test]
fn hash_token_is_lowercase_hex_sha256() {
    assert_eq!(hash_token(""), "e3b0c44298fc1c149afbf4c8996fb92427ae41e4649b934ca495991b7852b855");
    assert_eq!(hash_token("abc"), "ba7816bf8f01cfea414140de5dae2223b00361a396177a9cb410ff61f20015ad");
}

#[test]
fn extract_bearer_valid() {
    assert_eq!(extract_bearer(Some("Token secret123")), Some("secret123"));
}

#[test]
fn extract_bearer_wrong_scheme() {
    assert_eq!(extract_bearer(Some("Bearer secret123")), None);
}

#[test]
fn extract_bearer_missing() {
    assert_eq!(extract_bearer(None), None);
}

#[test]
fn extract_session_cookie_present() {
    assert_eq!(extract_session_cookie(Some("nervctf_session=abc123; other=val")), Some("abc123".to_string()));
}

#[test]
fn extract_session_cookie_only_session() {
    assert_eq!(extract_session_cookie(Some("nervctf_session=xyz")), Some("xyz".to_string()));
}

#[test]
fn extract_session_cookie_missing() {
    assert_eq!(extract_session_cookie(None), None);
}

#[test]
fn extract_session_cookie_wrong_name() {
    assert_eq!(extract_session_cookie(Some("other=val")), None);
}

#[test]
fn session_cookie_found_after_other_cookies() {
    assert_eq!(extract_session_cookie(Some("a=1;  nervctf_session=s3 ;b=2")), Some("s3".to_string()));
}

#[test]
fn html_is_escaped() {
    assert_eq!(html_escape("<a href=\"x\">&</a>"), "&lt;a href=&quot;x&quot;&gt;&amp;&lt;/a&gt;");
    assert_eq!(html_escape("plain"), "plain");
}

#[test]
fn names_are_sanitized_for_docker() {
    assert_eq!(sanitize_name("My Challenge!"), "my-challenge");
    assert_eq!(sanitize_name("--Web_App--"), "web-app");
    assert_eq!(sanitize_name("!!!"), "");
}

#[test]
fn container_names_carry_a_random_suffix() {
    assert_eq!(container_name_with("Pwn 1", "abc123"), "ctf-pwn-1-abc123");
    let n = container_name("My Challenge");
    assert!(n.starts_with("ctf-my-challenge-"));
    assert_eq!(n.len(), 23);
    assert!(n[17..].chars().all(|c| c.is_ascii_lowercase() || c.is_ascii_digit()));
}

#[test]
fn random_flags_use_prefix_and_suffix() {
    let s = FlagSettings {
        flag_mode: Some("random".to_string()),
        flag_prefix: None,
        flag_suffix: None,
        random_flag_length: Some(10),
    };
    let f = generate_flag(&s).unwrap();
    assert!(f.starts_with("CTF{") && f.ends_with('}'));
    assert_eq!(f.len(), 15);
    assert!(f[4..14].chars().all(|c| c.is_ascii_alphanumeric()));
    assert_eq!(flag_with(&s, "XYZ"), Some("CTF{XYZ}".to_string()));
    let custom = FlagSettings {
        flag_mode: Some("random".to_string()),
        flag_prefix: Some("flag[".to_string()),
        flag_suffix: Some("]".to_string()),
        random_flag_length: None,
    };
    assert_eq!(generate_flag(&custom).unwrap().len(), 22);
}

#[test]
fn static_flags_are_not_generated() {
    let s = FlagSettings { flag_mode: Some("static".to_string()), flag_prefix: None, flag_suffix: None, random_flag_length: None };
    assert_eq!(generate_flag(&s), None);
    let none = FlagSettings { flag_mode: None, flag_prefix: None, flag_suffix: None, random_flag_length: None };
    assert_eq!(generate_flag(&none), None);
}

#[test]
fn free_port_avoids_used_ports() {
    let mut used: HashSet<u16> = HashSet::new();
    let p = pick_free_port(&used).unwrap();
    assert!((40000..60000).contains(&p));
    for port in 40000u16..60000 {
        if port != 51234 {
            used.insert(port);
        }
    }
    assert_eq!(pick_free_port(&used), Ok(51234));
    used.insert(51234);
    assert_eq!(pick_free_port(&used), Err("No free ports available in range 40000-60000".to_string()));
}

#[test]
fn shell_quoting() {
    assert_eq!(shell_quote(""), "''");
    assert_eq!(shell_quote("plain"), "plain");
    assert_eq!(shell_quote("a'b\0"), "'a'\\''b\0'");
}

#[test]
fn project_names_are_recognised() {
    assert!(is_instance_project("ctf-web-abc123"));
    assert!(!is_instance_project("3f2a9c"));
    assert!(!is_instance_project(&format!("ctf-{}", "x".repeat(80))));
}

#[test]
fn extra_ports_only_for_several_ports() {
    assert_eq!(build_extra_ports_json(&[(40001, 80)]), None);
    assert_eq!(build_extra_ports_json(&[(40001, 80), (40002, 443)]), Some("{\"443\":40002,\"80\":40001}".to_string()));
}

#[test]
fn calendar_dates() {
    assert_eq!(days_to_ymd(0), (1970, 1, 1));
    assert_eq!(days_to_ymd(19723), (2024, 1, 1));
    assert_eq!(days_to_ymd(11016), (2000, 2, 29));
    assert_eq!(days_to_ymd(59), (1970, 3, 1));
}

#[test]
fn timestamps_are_formatted() {
    assert_eq!(chrono_from_secs(0), "1970-01-01 00:00:00");
    assert_eq!(chrono_from_secs(1700000000), "2023-11-14 22:13:20");
    assert_eq!(expires_at_from(1700000000, 45), "2023-11-14 22:58:20");
}

#[test]
fn expiry_is_in_the_future_format() {
    let e = expires_at_string(45).unwrap();
    assert_eq!(e.len(), 19);
    assert_eq!(&e[4..5], "-");
    assert_eq!(&e[10..11], " ");
    assert!(session_expires_at().is_some());
}

#[test]
fn renewals_and_existing_instances() {
    assert!(may_renew(2, None));
    assert!(!may_renew(3, None));
    assert!(may_renew(4, Some(5)));
    assert!(matches!(existing_instance(Some("running")), ExistingInstance::Running));
    assert!(matches!(existing_instance(Some("provisioning")), ExistingInstance::Provisioning));
    assert!(matches!(existing_instance(Some("stopped")), ExistingInstance::Absent));
    assert!(matches!(existing_instance(None), ExistingInstance::Absent));
}

#[test]
fn connections_list_each_service_port() {
    let services = vec![("web".to_string(), vec![80u32, 443]), ("db".to_string(), vec![5432u32])];
    let extra = vec![("443".to_string(), Some(40002u64)), ("5432".to_string(), Some(40003u64))];
    let cs = build_connections(&services, "h.example", 40001, "http", &extra).unwrap();
    let got: Vec<(String, u16)> = cs.iter().map(|c| (c.label.clone(), c.port)).collect();
    assert_eq!(got, vec![("web".to_string(), 40001), ("web".to_string(), 40002), ("db".to_string(), 40003)]);
    assert!(cs.iter().all(|c| c.host == "h.example" && c.connection_type == "http"));
    assert!(build_connections(&vec![], "h", 1, "nc", &vec![]).is_none());
}

#[test]
fn backend_names() {
    assert!(matches!(parse_backend(None), Ok(InstanceBackend::Docker)));
    assert!(matches!(parse_backend(Some("compose")), Ok(InstanceBackend::Compose)));
    assert!(matches!(parse_backend(Some("lxc")), Ok(InstanceBackend::Lxc)));
    assert!(matches!(parse_backend(Some("vagrant")), Ok(InstanceBackend::Vagrant)));
    match parse_backend(Some("kvm")) {
        Err(e) => assert_eq!(e, "Unknown backend: kvm"),
        Ok(_) => panic!("kvm is not a backend"),
    }
}

#[test]
fn provisioning_defaults() {
    assert_eq!(connection_or_default(None), "nc");
    assert_eq!(connection_or_default(Some("http")), "http");
    assert_eq!(timeout_or_default(None), 45);
    assert_eq!(timeout_or_default(Some(10)), 10);
    assert_eq!(internal_ports_of(&Some(vec![80, 443]), Some(1)), vec![80, 443]);
    assert_eq!(internal_ports_of(&None, Some(1337)), vec![1337]);
    assert_eq!(internal_ports_of(&None, None), vec![4000]);
    assert_eq!(port_count(&vec![]), 1);
    assert_eq!(port_count(&vec![1, 2, 3]), 3);
    assert_eq!(pair_ports(&[40001, 40002], &[80]), vec![(40001, 80)]);
    assert_eq!(image_tag_or_default(None, "My Chall"), "my-chall:latest");
    assert_eq!(image_tag_or_default(Some("img:1".to_string()), "x"), "img:1");
}

#[test]
fn flag_reaches_docker_container() {
    let env = docker_flag_injection(Some("CTF{x}"), None, None, "ctf-a-1");
    assert_eq!(env.env_vars, vec![("FLAG".to_string(), "CTF{x}".to_string())]);
    assert!(env.volumes.is_empty());
    let file = docker_flag_injection(Some("CTF{x}"), Some("file"), Some("/flag.txt"), "ctf-a-1");
    assert!(file.env_vars.is_empty());
    assert_eq!(file.volumes, vec![("/tmp/ctf-flags/ctf-a-1.flag".to_string(), "/flag.txt".to_string())]);
    let none = docker_flag_injection(None, Some("file"), Some("/flag.txt"), "ctf-a-1");
    assert!(none.env_vars.is_empty() && none.volumes.is_empty());
}

#[test]
fn compose_paths() {
    assert_eq!(challenge_dir("/opt/nervctf/challenges//", "My Chall"), "/opt/nervctf/challenges/my-chall");
    assert_eq!(compose_path(None, "/opt/nervctf/challenges/", "My Chall"), "/opt/nervctf/challenges/my-chall/docker-compose.yml");
    assert_eq!(compose_path(Some("/abs/x.yml"), "/base", "n"), "/abs/x.yml");
    assert_eq!(compose_path(Some("sub/c.yml"), "/base", "n"), "/base/n/sub/c.yml");
}

#[test]
fn service_ports_are_shared_out() {
    let services = vec![("db".to_string(), vec![5432u32]), ("web".to_string(), vec![80u32, 443])];
    assert_eq!(total_service_ports(&services), 3);
    assert_eq!(total_service_ports(&vec![]), 1);
    let sp = allocate_service_ports(&services, "web", &vec![40001, 40002, 40003]).unwrap();
    assert_eq!(sp.primary, "web");
    assert_eq!(sp.host_port, 40002);
    assert_eq!(sp.all_pairs, vec![(40001, 5432), (40002, 80), (40003, 443)]);
    assert_eq!(sp.services[0].1, vec![(40001, 5432)]);
    let first = allocate_service_ports(&services, "", &vec![40001, 40002, 40003]).unwrap();
    assert_eq!(first.primary, "db");
    assert_eq!(first.host_port, 40001);
    match allocate_service_ports(&vec![], "", &vec![40001]) {
        Err(e) => assert_eq!(e, "service_ports: primary service 'app' has no ports"),
        Ok(_) => panic!("no services"),
    }
}

#[test]
fn compose_override_file() {
    let prebuilt = vec!["app".to_string(), "redis".to_string()];
    let y = override_yaml("app", "mychal", 40001, 80, &prebuilt, &None);
    assert_eq!(
        y,
        "services:\n  app:\n    image: mychal-app\n    ports:\n      - \"40001:80\"\n  redis:\n    image: mychal-redis\n"
    );
    let flag = Some(FlagFile {
        host_path: "/c/p.flag".to_string(),
        service: "worker".to_string(),
        container_path: "/flag".to_string(),
    });
    let y2 = override_yaml("app", "mychal", 40001, 80, &vec![], &flag);
    assert_eq!(
        y2,
        "services:\n  app:\n    image: mychal-app\n    ports:\n      - \"40001:80\"\n  worker:\n    volumes:\n      - /c/p.flag:/flag:ro\n"
    );
}

#[test]
fn compose_helpers() {
    assert_eq!(service_name(""), "app");
    assert_eq!(service_name("web"), "web");
    assert_eq!(compose_dir("/data/MyChal/docker-compose.yml"), "/data/MyChal");
    assert_eq!(challenge_dir_name("/data/MyChal/docker-compose.yml"), "mychal");
    assert_eq!(challenge_dir_name("docker-compose.yml"), "ctf-challenge");
    assert_eq!(
        prebuilt_services("mychal-app\nmychal-redis\nother\n  mychal-db  \nmychal-\n", "mychal-"),
        vec!["app", "redis", "db"]
    );
    assert_eq!(override_path("/data/c", "ctf-x-1"), "/data/c/ctf-x-1.override.yml");
    let f = flag_file_for(Some("F"), "file", Some("/flag"), None, "app", "/data/c", "ctf-x-1").unwrap();
    assert_eq!((f.host_path.as_str(), f.service.as_str(), f.container_path.as_str()), ("/data/c/ctf-x-1.flag", "app", "/flag"));
    assert!(flag_file_for(Some("F"), "env", Some("/flag"), None, "app", "/data/c", "p").is_none());
}

#[test]
fn remote_commands() {
    assert_eq!(
        remote_build_command("/d", "/d/c.yml", "p"),
        "rm -rf '/d' && mkdir -p '/d' && tar -xzf - -C '/d' && DOCKER_BUILDKIT=1 docker compose -f '/d/c.yml' -p 'p' build"
    );
    assert_eq!(
        remote_up_command("/d", "/d/c.yml", "/d/o.yml", "proj", Some("F1"), "env"),
        "cd /d && FLAG=F1 DOCKER_BUILDKIT=1 docker compose -f /d/c.yml -f /d/o.yml -p proj up -d --no-build --force-recreate"
    );
    assert_eq!(
        remote_up_command("/d", "/d/c.yml", "/d/o.yml", "proj", Some("F1"), "file"),
        "cd /d && DOCKER_BUILDKIT=1 docker compose -f /d/c.yml -f /d/o.yml -p proj up -d --no-build --force-recreate"
    );
}

#[test]
fn probe_rules() {
    let cols: Vec<String> = ["id", "initial", "minimum", "decay", "function", "next_id"].iter().map(|s| s.to_string()).collect();
    let schema = detect_schema(&cols, &vec![]);
    assert!(schema.dynamic_in_challenges && !schema.dynamic_partial && schema.has_next_id && !schema.has_dynamic_table);
    let caps = capabilities(&schema, Some(true), true);
    assert_eq!(caps.challenge_crud, "ok");
    assert_eq!(caps.dynamic_scoring, "ok");
    assert_eq!(caps.player_auth, "ok");
    assert_eq!(caps.instance_flags, "ok");
    assert_eq!(caps.redis_sync, "degraded");
    assert_eq!(caps.notes.len(), 1);

    let partial: Vec<String> = ["initial"].iter().map(|s| s.to_string()).collect();
    let s2 = detect_schema(&partial, &vec!["id".to_string()]);
    assert!(s2.dynamic_partial && s2.has_dynamic_table && !s2.has_next_id);
    let c2 = capabilities(&s2, Some(false), false);
    assert_eq!(c2.challenge_crud, "degraded");
    assert_eq!(c2.dynamic_scoring, "broken");
    assert_eq!(c2.player_auth, "broken");
    assert_eq!(c2.instance_flags, "degraded");
    assert_eq!(c2.notes.len(), 5);
    assert_eq!(capabilities(&s2, None, true).player_auth, "degraded");

    assert_eq!(team_mode_flag(&CtfdMode::TeamMode), Some(true));
    assert_eq!(team_mode_flag(&CtfdMode::Unknown), None);
    let (v, src) = version_from_config(Some("3.7.0".to_string()));
    assert_eq!((v, src.as_str()), (Some("3.7.0".to_string()), "configs_table"));
    let (e, src2) = version_from_config(Some(String::new()));
    assert_eq!((e, src2.as_str()), (None, "inferred"));
}

#[test]
fn setup_texts() {
    assert_eq!(monitor_url("1.2.3.4", "33133"), "http://1.2.3.4:33133");
    assert_eq!(
        ansible_extra_vars("k.pub", "/ctfd", "tok", "33133", Some(4), None, None, Some("5.6.7.8")),
        vec!["ssh_key=k.pub", "ctfd_path=/ctfd", "monitor_token=tok", "monitor_port=33133", "max_concurrent_provisions=4", "runner_ip=5.6.7.8"]
    );
    assert_eq!(
        ansible_inventory("1.2.3.4", "root", None, None),
        "[ctfd]\n1.2.3.4 ansible_user=root ansible_ssh_common_args='-o StrictHostKeyChecking=no'\n"
    );
    assert_eq!(
        ansible_inventory("1.2.3.4", "root", Some("5.6.7.8"), Some("ops")),
        "[ctfd]\n1.2.3.4 ansible_user=root ansible_ssh_common_args='-o StrictHostKeyChecking=no'\n\n[runner]\n5.6.7.8 ansible_user=ops ansible_ssh_common_args='-o StrictHostKeyChecking=no'\n"
    );
}

use nervctf::server::{
    logout_set_cookie, new_token, presented_session, presented_token, session_set_cookie, token_label,
};

#[test]
fn session_cookie_round_trip() {
    let id = new_token();
    assert_eq!(id.len(), 32);
    assert!(id.chars().all(|c| c.is_ascii_alphanumeric()));
    let set = session_set_cookie(&id);
    assert_eq!(set, format!("nervctf_session={}; HttpOnly; Path=/; SameSite=Strict; Max-Age=86400", id));
    let pair = set.split(';').next().unwrap().to_string();
    assert_eq!(extract_session_cookie(Some(pair.as_str())), Some(id.clone()));
    assert_eq!(logout_set_cookie(), "nervctf_session=; HttpOnly; Path=/; SameSite=Strict; Max-Age=0");
}

#[test]
fn presented_credentials_must_be_non_empty() {
    assert_eq!(presented_token(Some("Token abc")), Some("abc"));
    assert_eq!(presented_token(Some("Token ")), None);
    assert_eq!(presented_token(Some("Bearer abc")), None);
    assert_eq!(presented_token(None), None);
    assert_eq!(presented_session(Some("a=1; nervctf_session=xyz")), Some("xyz".to_string()));
    assert_eq!(presented_session(Some("nervctf_session=")), None);
    assert_eq!(presented_session(None), None);
}

#[test]
fn token_labels_are_trimmed() {
    assert_eq!(token_label("  ci bot "), Some("ci bot".to_string()));
    assert_eq!(token_label("   "), None);
}

use nervctf::instance::pick_free_ports;

#[test]
fn picked_ports_are_distinct_and_free() {
    let used: HashSet<u16> = (40000u16..40010).collect();
    let ports = pick_free_ports(&used, 5).unwrap();
    assert_eq!(ports.len(), 5);
    let distinct: HashSet<u16> = ports.iter().copied().collect();
    assert_eq!(distinct.len(), 5);
    assert!(ports.iter().all(|p| (40000..60000).contains(p) && !used.contains(p)));
    let all: HashSet<u16> = (40000u16..60000).filter(|p| *p != 50000).collect();
    assert_eq!(pick_free_ports(&all, 1).unwrap(), vec![50000]);
    assert_eq!(pick_free_ports(&all, 2).err().unwrap(), "No free ports available in range 40000-60000");
    assert!(pick_free_ports(&used, 0).unwrap().is_empty());
}

#[test]
fn timestamps_sort_as_their_moments() {
    let moments: [u64; 6] = [0, 59, 86_399, 946_684_799, 946_684_800, 1_700_000_000];
    for pair in moments.windows(2) {
        let earlier = chrono_from_secs(pair[0]);
        let later = chrono_from_secs(pair[1]);
        assert!(earlier < later, "{} should sort before {}", earlier, later);
    }
    assert_eq!(chrono_from_secs(946_684_799), "1999-12-31 23:59:59");
    assert_eq!(chrono_from_secs(946_684_800), "2000-01-01 00:00:00");
}

#[test]
fn expiry_after_a_given_moment() {
    assert_eq!(expiry_after(0, 45), Some("1970-01-01 00:45:00".to_string()));
    assert_eq!(expiry_after(946_684_799, 1), Some("2000-01-01 00:00:59".to_string()));
    assert_eq!(expiry_after(u64::MAX, 1), None);
    assert_eq!(expiry_after(u64::MAX - 59, 1), None);
}

#[test]
fn utc_timestamp_in_and_out_of_range() {
    assert_eq!(utc_timestamp_checked(0), Some("1970-01-01 00:00:00 UTC".to_string()));
    // Day 4294247828 is the first the conversion does not cover.
    assert_eq!(utc_timestamp_checked(4_294_247_828 * 86_400), None);
    assert!(utc_timestamp_checked(4_294_247_827 * 86_400).is_some());
}

#[test]
fn sanitized_ascii_names_are_stable() {
    for name in ["Hello World!", "--Web_Chall 2--", "abc", "", "!!!", "Pwn-Me 101"] {
        let once = nervctf::instance::sanitize_name(name);
        assert!(once.chars().all(|c| c.is_ascii_lowercase() || c.is_ascii_digit() || c == '-'));
        assert!(!once.starts_with('-') && !once.ends_with('-'));
        assert!(once.len() <= name.len());
        assert_eq!(nervctf::instance::sanitize_name(&once), once);
    }
    assert_eq!(nervctf::instance::sanitize_name("Hello World!"), "hello-world");
}
