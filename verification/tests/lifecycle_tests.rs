use nervctf::lifecycle::{
    connections, flag_owner, host_port, record_attempt, renew_step, solve_actions, Connection, RenewStep, TeamFlag,
};

fn team_flag(challenge: &str, team: i64, flag: &str) -> TeamFlag {
    TeamFlag { challenge_name: challenge.to_string(), team_id: team, flag: flag.to_string() }
}

fn sample_flags() -> Vec<TeamFlag> {
    vec![
        team_flag("web", 1, "CTF{one}"),
        team_flag("web", 2, "CTF{two}"),
        team_flag("pwn", 3, "CTF{two}"),
    ]
}

#[test]
fn renew_uses_defaults() {
    assert_eq!(renew_step(0, None, None), RenewStep::Extend(45));
    assert_eq!(renew_step(2, None, None), RenewStep::Extend(45));
    assert_eq!(renew_step(3, None, None), RenewStep::MaximumReached);
}

#[test]
fn renew_uses_configured_limits() {
    assert_eq!(renew_step(4, Some(10), Some(5)), RenewStep::Extend(10));
    assert_eq!(renew_step(5, Some(10), Some(5)), RenewStep::MaximumReached);
    assert_eq!(renew_step(0, Some(10), Some(0)), RenewStep::MaximumReached);
}

#[test]
fn renewals_stop_at_the_maximum() {
    let mut used: i64 = 0;
    let mut granted = 0;
    for _ in 0..10 {
        if let RenewStep::Extend(minutes) = renew_step(used, Some(30), None) {
            assert_eq!(minutes, 30);
            used += 1;
            granted += 1;
        }
    }
    assert_eq!(granted, 3);
    assert_eq!(used, 3);
}

#[test]
fn flag_of_another_team_is_found() {
    let rows = sample_flags();
    assert_eq!(flag_owner(&rows, "web", "CTF{two}", 1), Some(2));
    assert_eq!(flag_owner(&rows, "pwn", "CTF{two}", 1), Some(3));
}

#[test]
fn own_or_unknown_flag_is_not_sharing() {
    let rows = sample_flags();
    assert_eq!(flag_owner(&rows, "web", "CTF{two}", 2), None);
    assert_eq!(flag_owner(&rows, "web", "CTF{three}", 1), None);
    assert_eq!(flag_owner(&rows, "crypto", "CTF{one}", 2), None);
}

#[test]
fn attempt_records_sharing() {
    let rows = sample_flags();
    let shared = record_attempt(&rows, "web", 1, 17, "CTF{two}", false);
    assert!(shared.is_flag_sharing);
    assert_eq!(shared.owner_team_id, Some(2));
    assert_eq!(shared.user_id, 17);
    assert_eq!(shared.submitted_flag, "CTF{two}");
    let own = record_attempt(&rows, "web", 1, 17, "CTF{one}", true);
    assert!(!own.is_flag_sharing);
    assert_eq!(own.owner_team_id, None);
    assert!(own.is_correct);
}

#[test]
fn solve_records_only_a_full_submission() {
    let with_flag = solve_actions("web", 4, Some(9), Some("CTF{x}"), Some("abc123".to_string()), Some(77));
    assert_eq!(with_flag.delete_ctfd_flag, Some(77));
    assert_eq!(with_flag.cleanup, Some("abc123".to_string()));
    let record = with_flag.record.expect("a record");
    assert_eq!(record.challenge_name, "web");
    assert_eq!(record.team_id, 4);
    assert_eq!(record.user_id, 9);
    assert!(record.is_correct);
    assert!(!record.is_flag_sharing);
    assert_eq!(solve_actions("web", 4, Some(9), Some(""), None, None).record, None);
    assert_eq!(solve_actions("web", 4, None, Some("CTF{x}"), None, None).record, None);
    assert_eq!(solve_actions("web", 4, Some(9), None, None, None).record, None);
}

fn conn(label: &str, port: u16) -> Connection {
    Connection { label: label.to_string(), kind: "http".to_string(), host: "10.0.0.5".to_string(), port }
}

#[test]
fn connections_per_service_port() {
    let services = vec![("api".to_string(), vec![80u32, 8080]), ("db".to_string(), vec![5432u32])];
    let extra = vec![("80".to_string(), 31000u64), ("5432".to_string(), 31002u64)];
    let got = connections(Some(&services), &extra, "10.0.0.5", 30000, "http");
    assert_eq!(got, Some(vec![conn("api", 31000), conn("api", 30000), conn("db", 31002)]));
}

#[test]
fn connections_absent_without_ports() {
    let extra: Vec<(String, u64)> = Vec::new();
    assert_eq!(connections(None, &extra, "h", 1, "nc"), None);
    let no_ports = vec![("api".to_string(), Vec::<u32>::new())];
    assert_eq!(connections(Some(&no_ports), &extra, "h", 1, "nc"), None);
}

#[test]
fn host_port_takes_low_sixteen_bits() {
    let extra = vec![("8080".to_string(), 65_536 + 5), ("08080".to_string(), 9)];
    assert_eq!(host_port(&extra, 8080, 1), 5);
    assert_eq!(host_port(&extra, 9090, 1), 1);
}
