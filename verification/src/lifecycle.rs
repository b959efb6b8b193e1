//! How the monitor answers for an instance that is already up: whether it
//! may be renewed, whether a submitted flag was made for another team, what
//! a solve records, and the connections a multi-service instance offers.
use vstd::prelude::*;
use crate::provision::timeout_or_default;
use crate::text::{dec, decimal, eq_str};

verus! {

/// The answer to a renewal request.
#[derive(Debug, Clone, Copy, PartialEq, Eq, Structural)]
pub enum RenewStep {
    /// Refuse: the instance has been renewed as often as it may.
    MaximumReached,
    /// Set the expiry this many minutes from now and count one renewal.
    Extend(u64),
}

/// How often an instance may be renewed, three times by default.
pub open spec fn max_renewals_of(max_renewals: Option<u64>) -> u64 {
    match max_renewals {
        Some(m) => m,
        None => 3,
    }
}

/// The answer to renewing an instance renewed `renewals_used` times, for a
/// challenge configured with `timeout_minutes` (45 by default) and
/// `max_renewals`. The allowance is compared as a signed count.
pub open spec fn renew_step_of(renewals_used: i64, timeout_minutes: Option<u64>, max_renewals: Option<u64>) -> RenewStep {
    if renewals_used >= max_renewals_of(max_renewals) as i64 {
        RenewStep::MaximumReached
    } else {
        RenewStep::Extend(match timeout_minutes {
            Some(t) => t,
            None => 45,
        })
    }
}

/// Decides a renewal request.
pub fn renew_step(renewals_used: i64, timeout_minutes: Option<u64>, max_renewals: Option<u64>) -> (r: RenewStep)
    ensures
        r == renew_step_of(renewals_used, timeout_minutes, max_renewals),
{
    let max = match max_renewals {
        Some(m) => m,
        None => 3,
    };
    if renewals_used >= max as i64 {
        RenewStep::MaximumReached
    } else {
        RenewStep::Extend(timeout_or_default(timeout_minutes))
    }
}

/// The renewal count of an instance after `requests` renewal requests, each
/// granted one counting as a renewal.
pub open spec fn renewals_after(requests: nat, timeout_minutes: Option<u64>, max_renewals: Option<u64>) -> int
    decreases requests,
{
    if requests == 0 {
        0
    } else {
        let used = renewals_after((requests - 1) as nat, timeout_minutes, max_renewals);
        if renew_step_of(used as i64, timeout_minutes, max_renewals) is Extend {
            used + 1
        } else {
            used
        }
    }
}

/// However many renewals are asked for, an instance is renewed at most as
/// often as its challenge allows, and exactly that often once enough have
/// been asked for.
pub proof fn law_renewals_bounded(requests: nat, timeout_minutes: Option<u64>, max_renewals: Option<u64>)
    requires
        max_renewals_of(max_renewals) <= i64::MAX,
    ensures
        0 <= renewals_after(requests, timeout_minutes, max_renewals) <= max_renewals_of(max_renewals),
        renewals_after(requests, timeout_minutes, max_renewals) == if requests <= max_renewals_of(max_renewals) {
            requests as int
        } else {
            max_renewals_of(max_renewals) as int
        },
    decreases requests,
{
    if requests > 0 {
        law_renewals_bounded((requests - 1) as nat, timeout_minutes, max_renewals);
    }
}


/// A flag generated for a team on a challenge. The monitor keeps every one,
/// also after the instance it was made for is gone.
#[derive(Debug, Clone, PartialEq, Eq)]
pub struct TeamFlag {
    pub challenge_name: String,
    pub team_id: i64,
    pub flag: String,
}

/// `row` is `flag` generated on `challenge` for a team other than `team`.
pub open spec fn made_for_other(row: TeamFlag, challenge: Seq<char>, flag: Seq<char>, team: i64) -> bool {
    row.challenge_name@ == challenge && row.flag@ == flag && row.team_id != team
}

/// The team for which `submitted_flag` was generated on `challenge_name`,
/// when that is a team other than `team_id`: the team of the first such
/// record, or none when the flag was made for no other team.
pub fn flag_owner(rows: &Vec<TeamFlag>, challenge_name: &str, submitted_flag: &str, team_id: i64) -> (r: Option<i64>)
    ensures
        r is None <==> forall|i: int| 0 <= i < rows.len() ==> !#[trigger] made_for_other(rows[i], challenge_name@, submitted_flag@, team_id),
        r matches Some(t) ==> exists|i: int| {
            &&& 0 <= i < rows.len()
            &&& #[trigger] made_for_other(rows[i], challenge_name@, submitted_flag@, team_id)
            &&& rows[i].team_id == t
            &&& forall|j: int| 0 <= j < i ==> !#[trigger] made_for_other(rows[j], challenge_name@, submitted_flag@, team_id)
        },
{
    let mut i: usize = 0;
    while i < rows.len()
        invariant
            i <= rows.len(),
            forall|j: int| 0 <= j < i ==> !#[trigger] made_for_other(rows[j], challenge_name@, submitted_flag@, team_id),
        decreases rows.len() - i,
    {
        let row = &rows[i];
        if row.team_id != team_id && eq_str(row.challenge_name.as_str(), challenge_name) && eq_str(row.flag.as_str(), submitted_flag) {
            assert(made_for_other(rows[i as int], challenge_name@, submitted_flag@, team_id));
            return Some(row.team_id);
        }
        i += 1;
    }
    None
}

/// A flag submission as the monitor records it.
#[derive(Debug, Clone, PartialEq, Eq)]
pub struct AttemptRecord {
    pub challenge_name: String,
    pub team_id: i64,
    pub user_id: i64,
    pub submitted_flag: String,
    pub is_correct: bool,
    /// The flag was generated for another team.
    pub is_flag_sharing: bool,
    /// That other team.
    pub owner_team_id: Option<i64>,
}

/// The record of a submission by `user_id` of `team_id`, whose correctness
/// CTFd judged: flagged as sharing exactly when the flag was generated on
/// the challenge for another team, which is named.
pub fn record_attempt(
    rows: &Vec<TeamFlag>,
    challenge_name: &str,
    team_id: i64,
    user_id: i64,
    submitted_flag: &str,
    is_correct: bool,
) -> (r: AttemptRecord)
    ensures
        r.challenge_name@ == challenge_name@,
        r.team_id == team_id,
        r.user_id == user_id,
        r.submitted_flag@ == submitted_flag@,
        r.is_correct == is_correct,
        r.is_flag_sharing <==> exists|i: int| 0 <= i < rows.len() && #[trigger] made_for_other(rows[i], challenge_name@, submitted_flag@, team_id),
        r.is_flag_sharing <==> r.owner_team_id is Some,
        r.owner_team_id matches Some(t) ==> exists|i: int| 0 <= i < rows.len() && #[trigger] made_for_other(rows[i], challenge_name@, submitted_flag@, team_id)
            && rows[i].team_id == t,
{
    let owner = flag_owner(rows, challenge_name, submitted_flag, team_id);
    let is_flag_sharing = match owner {
        Some(_) => true,
        None => false,
    };
    AttemptRecord {
        challenge_name: String::from_str(challenge_name),
        team_id,
        user_id,
        submitted_flag: String::from_str(submitted_flag),
        is_correct,
        is_flag_sharing,
        owner_team_id: owner,
    }
}

/// What a solve reported by the plugin leads to, once the team's instance
/// has been marked solved.
#[derive(Debug, Clone, PartialEq, Eq)]
pub struct SolveActions {
    /// The instance's flag to delete from CTFd.
    pub delete_ctfd_flag: Option<i64>,
    /// The correct submission to record.
    pub record: Option<AttemptRecord>,
    /// The container or compose project to tear down.
    pub cleanup: Option<String>,
}

/// The actions for a solve of `challenge_name` by `team_id` whose instance
/// held `container_id` and `ctfd_flag_id`. The submission is recorded as
/// correct, and as no sharing, when the plugin sent both a non-empty flag
/// and the user.
pub fn solve_actions(
    challenge_name: &str,
    team_id: i64,
    user_id: Option<i64>,
    submitted_flag: Option<&str>,
    container_id: Option<String>,
    ctfd_flag_id: Option<i64>,
) -> (r: SolveActions)
    ensures
        r.delete_ctfd_flag == ctfd_flag_id,
        r.cleanup == container_id,
        r.record is Some <==> (user_id is Some && submitted_flag is Some && submitted_flag.unwrap()@.len() > 0),
        r.record matches Some(a) ==> {
            &&& a.challenge_name@ == challenge_name@
            &&& a.team_id == team_id
            &&& Some(a.user_id) == user_id
            &&& a.submitted_flag@ == submitted_flag.unwrap()@
            &&& a.is_correct
            &&& !a.is_flag_sharing
            &&& a.owner_team_id is None
        },
{
    let record = match (submitted_flag, user_id) {
        (Some(flag), Some(uid)) => {
            if flag.unicode_len() > 0 {
                Some(AttemptRecord {
                    challenge_name: String::from_str(challenge_name),
                    team_id,
                    user_id: uid,
                    submitted_flag: String::from_str(flag),
                    is_correct: true,
                    is_flag_sharing: false,
                    owner_team_id: None,
                })
            } else {
                None
            }
        },
        _ => None,
    };
    SolveActions { delete_ctfd_flag: ctfd_flag_id, record, cleanup: container_id }
}


/// One connection shown to players for a service of an instance.
#[derive(Debug, Clone, PartialEq, Eq)]
pub struct Connection {
    /// The compose service.
    pub label: String,
    /// The connection type (`nc`, `http`, `ssh`, ...).
    pub kind: String,
    pub host: String,
    pub port: u16,
}

/// A connection as plain values: label, type, host and port.
pub open spec fn conn_view(c: Connection) -> (Seq<char>, Seq<char>, Seq<char>, u16) {
    (c.label@, c.kind@, c.host@, c.port)
}

/// The host port published for container port `ip`, looking from entry
/// `k` of `extra` on: the value of the first entry keyed by the decimal
/// text of `ip`, cut to 16 bits, else `port`.
pub open spec fn host_port_from(extra: Seq<(String, u64)>, k: int, ip: u32, port: u16) -> u16
    decreases extra.len() - k,
{
    if k < 0 || k >= extra.len() {
        port
    } else if extra[k].0@ == dec(ip as nat) {
        extra[k].1 as u16
    } else {
        host_port_from(extra, k + 1, ip, port)
    }
}

/// The connections of one service: one per container port, in order.
pub open spec fn service_connections(
    label: Seq<char>,
    ports: Seq<u32>,
    extra: Seq<(String, u64)>,
    host: Seq<char>,
    port: u16,
    kind: Seq<char>,
) -> Seq<(Seq<char>, Seq<char>, Seq<char>, u16)> {
    ports.map_values(|ip: u32| (label, kind, host, host_port_from(extra, 0, ip, port)))
}

/// The connections of all services, service after service.
pub open spec fn all_connections(
    services: Seq<(String, Vec<u32>)>,
    extra: Seq<(String, u64)>,
    host: Seq<char>,
    port: u16,
    kind: Seq<char>,
) -> Seq<(Seq<char>, Seq<char>, Seq<char>, u16)>
    decreases services.len(),
{
    if services.len() == 0 {
        Seq::empty()
    } else {
        all_connections(services.drop_last(), extra, host, port, kind)
            + service_connections(services.last().0@, services.last().1@, extra, host, port, kind)
    }
}

/// The host port published for container port `ip` (see `host_port_from`).
pub fn host_port(extra: &Vec<(String, u64)>, ip: u32, port: u16) -> (r: u16)
    ensures
        r == host_port_from(extra@, 0, ip, port),
{
    let key = decimal(ip as u64);
    let mut k: usize = 0;
    while k < extra.len()
        invariant
            k <= extra.len(),
            key@ == dec(ip as nat),
            host_port_from(extra@, 0, ip, port) == host_port_from(extra@, k as int, ip, port),
        decreases extra.len() - k,
    {
        if eq_str(extra[k].0.as_str(), key.as_str()) {
            return extra[k].1 as u16;
        }
        k += 1;
    }
    port
}

/// The labelled connections of a multi-service instance: for each service
/// of `service_ports`, in order, one connection per container port, on the
/// host port that `extra` publishes for it (else `port`). None when the
/// challenge lists no services, or they have no ports.
pub fn connections(
    service_ports: Option<&Vec<(String, Vec<u32>)>>,
    extra: &Vec<(String, u64)>,
    host: &str,
    port: u16,
    connection_type: &str,
) -> (r: Option<Vec<Connection>>)
    ensures
        match service_ports {
            None => r is None,
            Some(sp) => {
                let all = all_connections(sp@, extra@, host@, port, connection_type@);
                &&& r is None <==> all.len() == 0
                &&& r matches Some(v) ==> v@.map_values(|c: Connection| conn_view(c)) == all
            },
        },
{
    let services = match service_ports {
        Some(sp) => sp,
        None => return None,
    };
    let mut out: Vec<Connection> = Vec::new();
    let mut i: usize = 0;
    while i < services.len()
        invariant
            i <= services.len(),
            out@.map_values(|c: Connection| conn_view(c)) == all_connections(services@.take(i as int), extra@, host@, port, connection_type@),
        decreases services.len() - i,
    {
        let label = &services[i].0;
        let ports = &services[i].1;
        let ghost before = out@.map_values(|c: Connection| conn_view(c));
        let mut j: usize = 0;
        while j < ports.len()
            invariant
                i < services.len(),
                label == &services@[i as int].0,
                ports == &services@[i as int].1,
                j <= ports.len(),
                out@.map_values(|c: Connection| conn_view(c)) == before + service_connections(label@, ports@.take(j as int), extra@, host@, port, connection_type@),
            decreases ports.len() - j,
        {
            let hp = host_port(extra, ports[j], port);
            let c = Connection {
                label: label.clone(),
                kind: String::from_str(connection_type),
                host: String::from_str(host),
                port: hp,
            };
            let ghost prev = out@;
            out.push(c);
            proof {
                assert(out@.map_values(|c: Connection| conn_view(c)) =~= prev.map_values(|c: Connection| conn_view(c)).push(conn_view(c)));
                assert(ports@.take(j + 1) =~= ports@.take(j as int).push(ports@[j as int]));
                assert(service_connections(label@, ports@.take(j + 1), extra@, host@, port, connection_type@)
                    =~= service_connections(label@, ports@.take(j as int), extra@, host@, port, connection_type@).push(conn_view(c)));
            }
            j += 1;
        }
        proof {
            assert(ports@.take(j as int) =~= ports@);
            assert(services@.take(i + 1).drop_last() =~= services@.take(i as int));
        }
        i += 1;
    }
    proof {
        assert(services@.take(i as int) =~= services@);
    }
    if out.len() == 0 {
        None
    } else {
        Some(out)
    }
}

} // verus!
