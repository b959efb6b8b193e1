//! The monitor's own settings and the decisions of its background sweeps:
//! which host ports are taken, which containers have died, which compose
//! projects are orphaned, and which capabilities the probe found broken.
use vstd::prelude::*;
use crate::models::strs;
use crate::probe::Capabilities;
use crate::runner::{runner_target_from, runner_target_of};
use crate::instance::container_name_of;
use crate::text::{digits_value, eq_str, parse_u64, parse_usize, parses_within, starts_with, starts_with_str, unsigned_digits};

verus! {

broadcast use vstd::std_specs::hash::group_hash_axioms;

/// An instance holding host ports: its main port, and the value of each
/// entry of its stored extra-port map (none where a value is not an
/// unsigned integer).
pub struct PortRow {
    pub port: i64,
    pub extra: Vec<Option<u64>>,
}

/// Host port `p` is held by `r`: its main port, or one of its extra ports.
pub open spec fn holds_port(r: PortRow, p: u16) -> bool {
    r.port == p as int || r.extra@.contains(Some(p as u64))
}

/// The host ports held by the instances `rows`; values outside the range
/// of ports are ignored.
pub open spec fn ports_of(rows: Seq<PortRow>) -> Set<u16> {
    Set::new(|p: u16| exists|i: int| 0 <= i < rows.len() && holds_port(#[trigger] rows[i], p))
}

/// Collects the host ports the instances `rows` hold.
pub fn used_ports(rows: &Vec<PortRow>) -> (r: std::collections::HashSet<u16>)
    ensures
        r@ == ports_of(rows@),
{
    let mut ports: std::collections::HashSet<u16> = std::collections::HashSet::new();
    let mut i: usize = 0;
    while i < rows.len()
        invariant
            i <= rows@.len(),
            ports@ == Set::new(|p: u16| exists|j: int| 0 <= j < i && holds_port(#[trigger] rows@[j], p)),
        decreases rows@.len() - i,
    {
        let ghost before = ports@;
        let row = &rows[i];
        if 0 <= row.port && row.port <= 65535 {
            ports.insert(row.port as u16);
        }
        let mut k: usize = 0;
        while k < row.extra.len()
            invariant
                i < rows@.len(),
                *row == rows@[i as int],
                k <= row.extra@.len(),
                ports@ == before + Set::new(|p: u16| row.port == p as int
                    || exists|m: int| 0 <= m < k && row.extra@[m] == Some(p as u64)),
            decreases row.extra@.len() - k,
        {
            match row.extra[k] {
                Some(v) => {
                    if v <= 65535 {
                        ports.insert(v as u16);
                    }
                },
                None => {},
            }
            assert(ports@ =~= before + Set::new(|p: u16| row.port == p as int
                || exists|m: int| 0 <= m < k + 1 && row.extra@[m] == Some(p as u64)));
            k = k + 1;
        }
        assert forall|p: u16| #[trigger] ports@.contains(p) <==> (exists|j: int| 0 <= j < i + 1 && holds_port(#[trigger] rows@[j], p)) by {
            if holds_port(rows@[i as int], p) {
                assert(exists|j: int| 0 <= j < i + 1 && holds_port(#[trigger] rows@[j], p));
            }
        }
        assert(ports@ =~= Set::new(|p: u16| exists|j: int| 0 <= j < i + 1 && holds_port(#[trigger] rows@[j], p)));
        i = i + 1;
    }
    assert(ports@ =~= ports_of(rows@));
    ports
}

/// A known container is dead when no listing shows it running and at
/// least one listing could be taken and lacks it: `in_projects` says
/// whether the running compose projects include it, `in_names` whether the
/// running container names do, each none when that listing failed.
pub open spec fn dead(in_projects: Option<bool>, in_names: Option<bool>) -> bool {
    match (in_projects, in_names) {
        (Some(false), Some(false)) => true,
        (Some(false), None) => true,
        (None, Some(false)) => true,
        _ => false,
    }
}

pub fn is_dead(in_projects: Option<bool>, in_names: Option<bool>) -> (r: bool)
    ensures
        r == dead(in_projects, in_names),
{
    match (in_projects, in_names) {
        (Some(false), Some(false)) => true,
        (Some(false), None) | (None, Some(false)) => true,
        _ => false,
    }
}

/// A container that either listing shows running is never taken for dead,
/// nor one that neither listing could report on.
pub proof fn law_running_never_dead(in_projects: Option<bool>, in_names: Option<bool>)
    ensures
        (in_projects == Some(true) || in_names == Some(true)) ==> !dead(in_projects, in_names),
        (in_projects is None && in_names is None) ==> !dead(in_projects, in_names),
        dead(in_projects, in_names) ==> (in_projects == Some(false) || in_names == Some(false)),
{
}

/// The names of the capabilities whose status is `broken`, in the order
/// CRUD, dynamic scoring, player auth, instance flags, Redis sync.
pub open spec fn broken_of(c: Capabilities) -> Seq<Seq<char>> {
    (if c.challenge_crud@ == "broken"@ { seq!["challenge_crud"@] } else { seq![] })
        + (if c.dynamic_scoring@ == "broken"@ { seq!["dynamic_scoring"@] } else { seq![] })
        + (if c.player_auth@ == "broken"@ { seq!["player_auth"@] } else { seq![] })
        + (if c.instance_flags@ == "broken"@ { seq!["instance_flags"@] } else { seq![] })
        + (if c.redis_sync@ == "broken"@ { seq!["redis_sync"@] } else { seq![] })
}

fn push_if_broken(out: &mut Vec<String>, status: &String, name: &str)
    ensures
        strs(final(out)@) == strs(old(out)@) + (if status@ == "broken"@ { seq![name@] } else { seq![] }),
{
    if eq_str(status.as_str(), "broken") {
        out.push(String::from_str(name));
    }
    assert(strs(out@) =~= strs(old(out)@) + (if status@ == "broken"@ { seq![name@] } else { seq![] }));
}

/// The capabilities the probe found broken.
pub fn broken_capabilities(c: &Capabilities) -> (r: Vec<String>)
    ensures
        strs(r@) == broken_of(*c),
{
    let mut out: Vec<String> = Vec::new();
    push_if_broken(&mut out, &c.challenge_crud, "challenge_crud");
    push_if_broken(&mut out, &c.dynamic_scoring, "dynamic_scoring");
    push_if_broken(&mut out, &c.player_auth, "player_auth");
    push_if_broken(&mut out, &c.instance_flags, "instance_flags");
    push_if_broken(&mut out, &c.redis_sync, "redis_sync");
    assert(strs(out@) =~= broken_of(*c));
    out
}

/// The listed projects no instance tracks, in the order listed.
pub open spec fn untracked_of(projects: Seq<Seq<char>>, known: Seq<Seq<char>>) -> Seq<Seq<char>> {
    projects.filter(not_in(known))
}

/// Not one of `known`.
pub open spec fn not_in(known: Seq<Seq<char>>) -> spec_fn(Seq<char>) -> bool {
    |p: Seq<char>| !known.contains(p)
}

/// The compose projects to stop: those listed that no instance tracks.
pub fn untracked_projects(projects: &Vec<String>, known: &Vec<String>) -> (r: Vec<String>)
    ensures
        strs(r@) == untracked_of(strs(projects@), strs(known@)),
{
    let ghost ps = strs(projects@);
    let ghost ts = strs(known@);
    let mut out: Vec<String> = Vec::new();
    let mut i: usize = 0;
    while i < projects.len()
        invariant
            i <= projects@.len(),
            ps == strs(projects@),
            ts == strs(known@),
            strs(out@) == ps.take(i as int).filter(not_in(ts)),
        decreases projects@.len() - i,
    {
        let ghost before = strs(out@);
        assert(ps.take(i + 1).drop_last() =~= ps.take(i as int));
        assert(ps.take(i + 1).last() == ps[i as int]);
        assert(ps[i as int] == projects@[i as int]@);
        let ghost t1 = ps.take(i + 1);
        proof {
            reveal(Seq::filter);
        }
        let is_known = crate::models::listed(known, projects[i].as_str());
        assert(not_in(ts)(ps[i as int]) == !is_known);
        if !is_known {
            out.push(projects[i].clone());
            assert(strs(out@) =~= before.push(ps[i as int]));
        }
        assert(strs(out@) =~= t1.filter(not_in(ts)));
        i = i + 1;
    }
    assert(ps.take(projects@.len() as int) =~= ps);
    out
}

/// Names of this monitor's compose projects among the listed entries:
/// those that have a name starting with `ctf-`, in order.
pub open spec fn ctf_projects_of(names: Seq<Option<String>>, k: int) -> Seq<Seq<char>>
    decreases k,
{
    if k <= 0 {
        seq![]
    } else {
        let rest = ctf_projects_of(names, k - 1);
        match names[k - 1] {
            Some(n) => if starts_with(n@, "ctf-"@) { rest.push(n@) } else { rest },
            None => rest,
        }
    }
}

/// The monitor's compose projects among the `docker compose ls` entries
/// (each entry's name, when it has one).
pub fn ctf_projects(names: &Vec<Option<String>>) -> (r: Vec<String>)
    ensures
        strs(r@) == ctf_projects_of(names@, names@.len() as int),
{
    let mut out: Vec<String> = Vec::new();
    let mut i: usize = 0;
    while i < names.len()
        invariant
            i <= names@.len(),
            strs(out@) == ctf_projects_of(names@, i as int),
        decreases names@.len() - i,
    {
        let ghost before = strs(out@);
        match &names[i] {
            Some(n) => {
                if starts_with_str(n.as_str(), "ctf-") {
                    out.push(n.clone());
                    assert(strs(out@) =~= before.push(n@));
                }
            },
            None => {},
        }
        i = i + 1;
    }
    out
}

proof fn lemma_listed_kept(names: Seq<Option<String>>, k: int, j: int)
    requires
        0 <= j < k <= names.len(),
        names[j] is Some,
        starts_with(names[j]->0@, "ctf-"@),
    ensures
        ctf_projects_of(names, k).contains(names[j]->0@),
    decreases k,
{
    if j < k - 1 {
        lemma_listed_kept(names, k - 1, j);
        let rest = ctf_projects_of(names, k - 1);
        let w = choose|w: int| 0 <= w < rest.len() && rest[w] == names[j]->0@;
        match names[k - 1] {
            Some(n) => if starts_with(n@, "ctf-"@) {
                assert(rest.push(n@)[w] == names[j]->0@);
            },
            None => {},
        }
    } else {
        let rest = ctf_projects_of(names, k - 1);
        assert(rest.push(names[j]->0@)[rest.len() as int] == names[j]->0@);
    }
}

/// Every project the monitor names for an instance (`ctf-<name>-<suffix>`)
/// is one the orphan sweep lists as its own when `docker compose ls`
/// reports it.
pub proof fn law_own_projects_listed(names: Seq<Option<String>>, j: int, challenge_name: Seq<char>, suffix: Seq<char>)
    requires
        0 <= j < names.len(),
        names[j] is Some,
        names[j]->0@ == container_name_of(challenge_name, suffix),
    ensures
        ctf_projects_of(names, names.len() as int).contains(container_name_of(challenge_name, suffix)),
{
    let n = container_name_of(challenge_name, suffix);
    assert(n.subrange(0, "ctf-"@.len() as int) =~= "ctf-"@);
    lemma_listed_kept(names, names.len() as int, j);
}

/// The environment the monitor starts with; each setting as read, none
/// when unset.
pub struct MonitorEnv {
    pub public_host: Option<String>,
    pub monitor_port: Option<String>,
    pub monitor_bind: Option<String>,
    pub db_path: Option<String>,
    pub challenges_base_dir: Option<String>,
    pub ctfd_uploads_dir: Option<String>,
    pub ctfd_domain: Option<String>,
    pub runner_ssh_target: Option<String>,
    pub docker_host: Option<String>,
    pub ctfd_db_url: Option<String>,
    pub max_concurrent_provisions: Option<String>,
    pub max_instances_per_team: Option<String>,
    pub sync_interval: Option<String>,
}

/// The monitor's settings.
pub struct MonitorSettings {
    pub public_host: String,
    /// `<bind>:<port>`, where the monitor listens.
    pub listen_address: String,
    pub db_path: String,
    pub challenges_base_dir: String,
    pub ctfd_uploads_dir: String,
    pub ctfd_url: String,
    pub runner_ssh_target: Option<String>,
    pub ctfd_db_url: String,
    pub max_concurrent_provisions: usize,
    pub max_instances_per_team: u64,
    pub sync_interval_secs: u64,
}

/// A setting the monitor cannot start without.
#[derive(Debug, PartialEq, Eq)]
pub enum SettingsError {
    MissingPublicHost,
    MissingCtfdDbUrl,
}

pub open spec fn or_default(o: Option<String>, d: Seq<char>) -> Seq<char> {
    match o {
        Some(s) => s@,
        None => d,
    }
}

/// The number a setting gives, or `d` when it is unset or not a number
/// of the type whose largest value is `max`.
pub open spec fn number_or(o: Option<String>, max: nat, d: nat) -> nat {
    match o {
        Some(s) => if parses_within(s@, max) { digits_value(unsigned_digits(s@)) } else { d },
        None => d,
    }
}

pub open spec fn opt_seq(o: Option<String>) -> Option<Seq<char>> {
    match o {
        Some(s) => Some(s@),
        None => None,
    }
}

/// `r` holds the settings of `env`: listening on `0.0.0.0:33133`, the
/// database at `./monitor.db`, challenges under `/opt/nervctf/challenges`,
/// no uploads directory, CTFd at `http://<public host>`, 4 concurrent
/// provisions, no per-team cap and a 30-second sync unless set otherwise.
pub open spec fn settings_of(env: MonitorEnv, r: MonitorSettings) -> bool {
    let host = env.public_host->0@;
    &&& r.public_host@ == host
    &&& r.listen_address@ == or_default(env.monitor_bind, "0.0.0.0"@) + ":"@ + or_default(env.monitor_port, "33133"@)
    &&& r.db_path@ == or_default(env.db_path, "./monitor.db"@)
    &&& r.challenges_base_dir@ == or_default(env.challenges_base_dir, "/opt/nervctf/challenges"@)
    &&& r.ctfd_uploads_dir@ == or_default(env.ctfd_uploads_dir, seq![])
    &&& r.ctfd_url@ == or_default(env.ctfd_domain, "http://"@ + host)
    &&& opt_seq(r.runner_ssh_target) == runner_target_of(opt_seq(env.runner_ssh_target), opt_seq(env.docker_host))
    &&& r.ctfd_db_url@ == env.ctfd_db_url->0@
    &&& r.max_concurrent_provisions as nat == number_or(env.max_concurrent_provisions, usize::MAX as nat, 4)
    &&& r.max_instances_per_team as nat == number_or(env.max_instances_per_team, u64::MAX as nat, 0)
    &&& r.sync_interval_secs as nat == number_or(env.sync_interval, u64::MAX as nat, 30)
}

fn text_or(o: &Option<String>, d: &str) -> (r: String)
    ensures
        r@ == or_default(*o, d@),
{
    match o {
        Some(s) => s.clone(),
        None => String::from_str(d),
    }
}

fn usize_or(o: &Option<String>, d: usize) -> (r: usize)
    ensures
        r as nat == number_or(*o, usize::MAX as nat, d as nat),
{
    match o {
        Some(s) => match parse_usize(s.as_str()) {
            Some(v) => v,
            None => d,
        },
        None => d,
    }
}

fn u64_or(o: &Option<String>, d: u64) -> (r: u64)
    ensures
        r as nat == number_or(*o, u64::MAX as nat, d as nat),
{
    match o {
        Some(s) => match parse_u64(s.as_str()) {
            Some(v) => v,
            None => d,
        },
        None => d,
    }
}

/// The monitor's settings from its environment: the public host and the
/// CTFd database URL are required.
pub fn monitor_settings(env: &MonitorEnv) -> (r: Result<MonitorSettings, SettingsError>)
    ensures
        env.public_host is None <==> r == Err::<MonitorSettings, SettingsError>(SettingsError::MissingPublicHost),
        (env.public_host is Some && env.ctfd_db_url is None)
            <==> r == Err::<MonitorSettings, SettingsError>(SettingsError::MissingCtfdDbUrl),
        r matches Ok(s) ==> settings_of(*env, s),
{
    proof {
        reveal_strlit("");
        assert(""@ =~= seq![]);
    }
    let public_host = match &env.public_host {
        Some(h) => h.clone(),
        None => return Err(SettingsError::MissingPublicHost),
    };
    let ctfd_db_url = match &env.ctfd_db_url {
        Some(u) => u.clone(),
        None => return Err(SettingsError::MissingCtfdDbUrl),
    };
    let mut listen_address = text_or(&env.monitor_bind, "0.0.0.0");
    listen_address.append(":");
    let port = text_or(&env.monitor_port, "33133");
    listen_address.append(port.as_str());
    let ctfd_url = match &env.ctfd_domain {
        Some(d) => d.clone(),
        None => {
            let mut u = String::from_str("http://");
            u.append(public_host.as_str());
            u
        },
    };
    let runner_ssh_target = runner_target_from(
        match &env.runner_ssh_target { Some(t) => Some(t.as_str()), None => None },
        match &env.docker_host { Some(h) => Some(h.as_str()), None => None },
    );
    Ok(MonitorSettings {
        public_host,
        listen_address,
        db_path: text_or(&env.db_path, "./monitor.db"),
        challenges_base_dir: text_or(&env.challenges_base_dir, "/opt/nervctf/challenges"),
        ctfd_uploads_dir: text_or(&env.ctfd_uploads_dir, ""),
        ctfd_url,
        runner_ssh_target,
        ctfd_db_url,
        max_concurrent_provisions: usize_or(&env.max_concurrent_provisions, 4),
        max_instances_per_team: u64_or(&env.max_instances_per_team, 0),
        sync_interval_secs: u64_or(&env.sync_interval, 30),
    })
}

} // verus!
