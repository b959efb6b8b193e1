//! The text `nervctf setup` hands to Ansible: the extra variables, the
//! inventory, and the monitor URL it records in the configuration.
use vstd::prelude::*;
use crate::config::{ancestor, is_first_true, nearest_existing, none_true, Config};
use crate::models::{opt_str, strs};
use crate::paths::{path_exists, path_join, path_parent, spec_parent, spec_path_join};
use crate::text::{dec, decimal, is_blank, is_blank_str};

verus! {

/// The URL of the remote monitor on the target machine.
pub open spec fn monitor_url_of(target_ip: Seq<char>, monitor_port: Seq<char>) -> Seq<char> {
    "http://"@ + target_ip + ":"@ + monitor_port
}

/// `http://<ip>:<port>`.
pub fn monitor_url(target_ip: &str, monitor_port: &str) -> (r: String)
    ensures
        r@ == monitor_url_of(target_ip@, monitor_port@),
{
    let mut out = String::from_str("http://");
    out.append(target_ip);
    out.append(":");
    out.append(monitor_port);
    out
}

/// `name=value`.
pub open spec fn assignment(name: Seq<char>, value: Seq<char>) -> Seq<char> {
    name + "="@ + value
}

/// An assignment when the value is set.
pub open spec fn optional_assignment(name: Seq<char>, value: Option<Seq<char>>) -> Seq<Seq<char>> {
    match value {
        Some(v) => seq![assignment(name, v)],
        None => seq![],
    }
}

/// The Ansible extra variables of a setup run, in order: the four that are
/// always passed, then each optional one that is set.
pub open spec fn extra_vars_of(
    ssh_key: Seq<char>,
    ctfd_path: Seq<char>,
    monitor_token: Seq<char>,
    monitor_port: Seq<char>,
    max_concurrent_provisions: Option<Seq<char>>,
    monitor_binary: Option<Seq<char>>,
    plugin_src: Option<Seq<char>>,
    runner_ip: Option<Seq<char>>,
) -> Seq<Seq<char>> {
    seq![
        assignment("ssh_key"@, ssh_key),
        assignment("ctfd_path"@, ctfd_path),
        assignment("monitor_token"@, monitor_token),
        assignment("monitor_port"@, monitor_port),
    ] + optional_assignment("max_concurrent_provisions"@, max_concurrent_provisions)
        + optional_assignment("monitor_binary"@, monitor_binary)
        + optional_assignment("plugin_src"@, plugin_src)
        + optional_assignment("runner_ip"@, runner_ip)
}

fn assign(name: &str, value: &str) -> (r: String)
    ensures
        r@ == assignment(name@, value@),
{
    let mut out = String::from_str(name);
    out.append("=");
    out.append(value);
    out
}

/// Builds the Ansible extra variables; the number of concurrent provisions
/// is passed in decimal.
pub fn ansible_extra_vars(
    ssh_key: &str,
    ctfd_path: &str,
    monitor_token: &str,
    monitor_port: &str,
    max_concurrent_provisions: Option<u32>,
    monitor_binary: Option<&str>,
    plugin_src: Option<&str>,
    runner_ip: Option<&str>,
) -> (r: Vec<String>)
    ensures
        strs(r@) == extra_vars_of(
            ssh_key@,
            ctfd_path@,
            monitor_token@,
            monitor_port@,
            match max_concurrent_provisions {
                Some(n) => Some(crate::text::dec(n as nat)),
                None => None,
            },
            match monitor_binary { Some(s) => Some(s@), None => None },
            match plugin_src { Some(s) => Some(s@), None => None },
            match runner_ip { Some(s) => Some(s@), None => None },
        ),
{
    let mut out: Vec<String> = Vec::new();
    out.push(assign("ssh_key", ssh_key));
    out.push(assign("ctfd_path", ctfd_path));
    out.push(assign("monitor_token", monitor_token));
    out.push(assign("monitor_port", monitor_port));
    if let Some(n) = max_concurrent_provisions {
        let t = crate::text::decimal(n as u64);
        out.push(assign("max_concurrent_provisions", t.as_str()));
    }
    if let Some(b) = monitor_binary {
        out.push(assign("monitor_binary", b));
    }
    if let Some(p) = plugin_src {
        out.push(assign("plugin_src", p));
    }
    if let Some(ip) = runner_ip {
        out.push(assign("runner_ip", ip));
    }
    assert(strs(out@) =~= extra_vars_of(
        ssh_key@,
        ctfd_path@,
        monitor_token@,
        monitor_port@,
        match max_concurrent_provisions {
            Some(n) => Some(crate::text::dec(n as nat)),
            None => None,
        },
        match monitor_binary { Some(s) => Some(s@), None => None },
        match plugin_src { Some(s) => Some(s@), None => None },
        match runner_ip { Some(s) => Some(s@), None => None },
    ));
    out
}

/// An inventory host line: the host, its user, and SSH options that accept
/// a new host key.
pub open spec fn host_line(host: Seq<char>, user: Seq<char>) -> Seq<char> {
    host + " ansible_user="@ + user + " ansible_ssh_common_args='-o StrictHostKeyChecking=no'\n"@
}

/// The Ansible inventory: the CTFd host, and a runner group when a runner
/// machine is configured.
pub open spec fn inventory_of(target_ip: Seq<char>, target_user: Seq<char>, runner: Option<(Seq<char>, Seq<char>)>) -> Seq<char> {
    "[ctfd]\n"@ + host_line(target_ip, target_user) + match runner {
        Some((ip, user)) => "\n[runner]\n"@ + host_line(ip, user),
        None => seq![],
    }
}

/// Builds the Ansible inventory.
pub fn ansible_inventory(target_ip: &str, target_user: &str, runner_ip: Option<&str>, runner_user: Option<&str>) -> (r: String)
    ensures
        r@ == inventory_of(target_ip@, target_user@, match (runner_ip, runner_user) {
            (Some(ip), Some(user)) => Some((ip@, user@)),
            _ => None,
        }),
{
    let mut out = String::from_str("[ctfd]\n");
    out.append(target_ip);
    out.append(" ansible_user=");
    out.append(target_user);
    out.append(" ansible_ssh_common_args='-o StrictHostKeyChecking=no'\n");
    match (runner_ip, runner_user) {
        (Some(ip), Some(user)) => {
            out.append("\n[runner]\n");
            out.append(ip);
            out.append(" ansible_user=");
            out.append(user);
            out.append(" ansible_ssh_common_args='-o StrictHostKeyChecking=no'\n");
        },
        _ => {},
    }
    out
}

/// The Ansible extra variables of an upgrade run, in order: the CTFd path
/// and the monitor port, then each optional one that is set.
pub open spec fn upgrade_vars_of(
    ctfd_path: Seq<char>,
    monitor_port: Seq<char>,
    max_concurrent_provisions: Option<Seq<char>>,
    monitor_binary: Option<Seq<char>>,
    plugin_src: Option<Seq<char>>,
) -> Seq<Seq<char>> {
    seq![assignment("ctfd_path"@, ctfd_path), assignment("monitor_port"@, monitor_port)]
        + optional_assignment("max_concurrent_provisions"@, max_concurrent_provisions)
        + optional_assignment("monitor_binary"@, monitor_binary)
        + optional_assignment("plugin_src"@, plugin_src)
}

pub open spec fn opt_view(o: Option<&str>) -> Option<Seq<char>> {
    match o {
        Some(s) => Some(s@),
        None => None,
    }
}

pub open spec fn opt_dec(o: Option<u32>) -> Option<Seq<char>> {
    match o {
        Some(n) => Some(dec(n as nat)),
        None => None,
    }
}

/// Builds the Ansible extra variables of an upgrade.
pub fn upgrade_extra_vars(
    ctfd_path: &str,
    monitor_port: &str,
    max_concurrent_provisions: Option<u32>,
    monitor_binary: Option<&str>,
    plugin_src: Option<&str>,
) -> (r: Vec<String>)
    ensures
        strs(r@) == upgrade_vars_of(ctfd_path@, monitor_port@, opt_dec(max_concurrent_provisions),
            opt_view(monitor_binary), opt_view(plugin_src)),
{
    let mut out: Vec<String> = Vec::new();
    out.push(assign("ctfd_path", ctfd_path));
    out.push(assign("monitor_port", monitor_port));
    if let Some(n) = max_concurrent_provisions {
        let t = decimal(n as u64);
        out.push(assign("max_concurrent_provisions", t.as_str()));
    }
    if let Some(b) = monitor_binary {
        out.push(assign("monitor_binary", b));
    }
    if let Some(p) = plugin_src {
        out.push(assign("plugin_src", p));
    }
    assert(strs(out@) =~= upgrade_vars_of(ctfd_path@, monitor_port@, opt_dec(max_concurrent_provisions),
        opt_view(monitor_binary), opt_view(plugin_src)));
    out
}

/// The text of `o`, or `d`.
pub open spec fn or_default(o: Option<String>, d: Seq<char>) -> Seq<char> {
    match o {
        Some(s) => s@,
        None => d,
    }
}

fn text_or(o: &Option<String>, d: &str) -> (r: String)
    ensures
        r@ == or_default(*o, d@),
{
    match o {
        Some(s) => s.clone(),
        None => String::from_str(d),
    }
}

/// Why an upgrade cannot run.
#[derive(Debug, PartialEq, Eq)]
pub enum UpgradeError {
    /// The configuration names no target machine.
    NoTargetIp,
    /// Neither the monitor binary nor the CTFd plugin was found locally.
    NothingToDeploy,
}

/// What an upgrade run does: where it connects and what it hands Ansible.
pub struct UpgradePlan {
    pub target_ip: String,
    pub target_user: String,
    pub ctfd_path: String,
    pub monitor_port: String,
    pub extra_vars: Vec<String>,
    pub inventory: String,
}

/// The upgrade of the deployment described by `config` with the artifacts
/// found: it needs a target machine and at least one artifact; the user
/// defaults to `root`, the CTFd path to `/home/docker/CTFd` and the monitor
/// port to 33133; the inventory holds only the CTFd host.
pub fn upgrade_plan(config: &Config, monitor_binary: Option<&str>, plugin_src: Option<&str>) -> (r: Result<UpgradePlan, UpgradeError>)
    ensures
        config.target_ip is None <==> r == Err::<UpgradePlan, UpgradeError>(UpgradeError::NoTargetIp),
        (config.target_ip is Some && monitor_binary is None && plugin_src is None)
            <==> r == Err::<UpgradePlan, UpgradeError>(UpgradeError::NothingToDeploy),
        r matches Ok(p) ==> {
            &&& p.target_ip@ == config.target_ip->0@
            &&& p.target_user@ == or_default(config.target_user, "root"@)
            &&& p.ctfd_path@ == or_default(config.ctfd_remote_path, "/home/docker/CTFd"@)
            &&& p.monitor_port@ == or_default(config.monitor_port, "33133"@)
            &&& strs(p.extra_vars@) == upgrade_vars_of(p.ctfd_path@, p.monitor_port@,
                opt_dec(config.max_concurrent_provisions), opt_view(monitor_binary), opt_view(plugin_src))
            &&& p.inventory@ == inventory_of(p.target_ip@, p.target_user@, None)
        },
{
    let target_ip = match &config.target_ip {
        Some(ip) => ip.clone(),
        None => return Err(UpgradeError::NoTargetIp),
    };
    if monitor_binary.is_none() && plugin_src.is_none() {
        return Err(UpgradeError::NothingToDeploy);
    }
    let target_user = text_or(&config.target_user, "root");
    let ctfd_path = text_or(&config.ctfd_remote_path, "/home/docker/CTFd");
    let monitor_port = text_or(&config.monitor_port, "33133");
    let extra_vars = upgrade_extra_vars(ctfd_path.as_str(), monitor_port.as_str(),
        config.max_concurrent_provisions, monitor_binary, plugin_src);
    let inventory = ansible_inventory(target_ip.as_str(), target_user.as_str(), None, None);
    Ok(UpgradePlan { target_ip, target_user, ctfd_path, monitor_port, extra_vars, inventory })
}

/// The defaults a setup run offers, from the existing configuration.
pub struct SetupDefaults {
    pub challenges_dir: String,
    pub target_ip: Option<String>,
    pub target_user: String,
    pub runner_ip: String,
    pub runner_user: String,
    pub ctfd_path: String,
    pub monitor_port: String,
}

/// The configured values, or `.`, `root`, no runner, `root`,
/// `/home/docker/CTFd` and 33133.
pub fn setup_defaults(config: &Config) -> (r: SetupDefaults)
    ensures
        r.challenges_dir@ == or_default(config.challenges_dir, "."@),
        opt_str(r.target_ip) == opt_str(config.target_ip),
        r.target_user@ == or_default(config.target_user, "root"@),
        r.runner_ip@ == or_default(config.runner_ip, seq![]),
        r.runner_user@ == or_default(config.runner_user, "root"@),
        r.ctfd_path@ == or_default(config.ctfd_remote_path, "/home/docker/CTFd"@),
        r.monitor_port@ == or_default(config.monitor_port, "33133"@),
{
    proof {
        reveal_strlit("");
        assert(""@ =~= seq![]);
    }
    SetupDefaults {
        challenges_dir: text_or(&config.challenges_dir, "."),
        target_ip: match &config.target_ip { Some(t) => Some(t.clone()), None => None },
        target_user: text_or(&config.target_user, "root"),
        runner_ip: text_or(&config.runner_ip, ""),
        runner_user: text_or(&config.runner_user, "root"),
        ctfd_path: text_or(&config.ctfd_remote_path, "/home/docker/CTFd"),
        monitor_port: text_or(&config.monitor_port, "33133"),
    }
}

/// The answers of a setup run.
pub struct SetupAnswers {
    pub challenges_dir: String,
    pub target_ip: String,
    pub target_user: String,
    /// The runner machine as typed (blank: none).
    pub runner_ip: String,
    /// The runner's user, asked only when a runner was given.
    pub runner_user: Option<String>,
    pub ctfd_path: String,
    pub monitor_port: String,
    pub monitor_token: String,
    pub ssh_pubkey_path: String,
}

/// Why a setup run stops.
#[derive(Debug, PartialEq, Eq)]
pub enum SetupError {
    /// The target IP address was left blank.
    MissingTargetIp,
}

/// The configuration saved by a setup run: every answer recorded, the
/// runner kept only when one was typed (with its user), the monitor URL
/// derived from the target and port; a blank target IP is refused.
pub fn apply_setup(config: Config, answers: SetupAnswers) -> (r: Result<Config, SetupError>)
    ensures
        is_blank(answers.target_ip@) <==> r is Err,
        r matches Ok(c) ==> {
            &&& opt_str(c.challenges_dir) == Some(answers.challenges_dir@)
            &&& opt_str(c.target_ip) == Some(answers.target_ip@)
            &&& opt_str(c.target_user) == Some(answers.target_user@)
            &&& opt_str(c.runner_ip) == (if is_blank(answers.runner_ip@) { None } else { Some(answers.runner_ip@) })
            &&& opt_str(c.runner_user) == (if is_blank(answers.runner_ip@) { None } else { opt_str(answers.runner_user) })
            &&& opt_str(c.ctfd_remote_path) == Some(answers.ctfd_path@)
            &&& opt_str(c.monitor_port) == Some(answers.monitor_port@)
            &&& opt_str(c.monitor_token) == Some(answers.monitor_token@)
            &&& opt_str(c.ssh_pubkey_path) == Some(answers.ssh_pubkey_path@)
            &&& opt_str(c.monitor_url) == Some(monitor_url_of(answers.target_ip@, answers.monitor_port@))
            &&& c.max_concurrent_provisions == config.max_concurrent_provisions
            &&& c.max_instances_per_team == config.max_instances_per_team
        },
{
    if is_blank_str(answers.target_ip.as_str()) {
        return Err(SetupError::MissingTargetIp);
    }
    let url = monitor_url(answers.target_ip.as_str(), answers.monitor_port.as_str());
    let has_runner = !is_blank_str(answers.runner_ip.as_str());
    let SetupAnswers {
        challenges_dir, target_ip, target_user, runner_ip, runner_user, ctfd_path, monitor_port,
        monitor_token, ssh_pubkey_path,
    } = answers;
    let mut c = config;
    c.challenges_dir = Some(challenges_dir);
    c.target_ip = Some(target_ip);
    c.target_user = Some(target_user);
    if has_runner {
        c.runner_ip = Some(runner_ip);
        c.runner_user = runner_user;
    } else {
        c.runner_ip = None;
        c.runner_user = None;
    }
    c.ctfd_remote_path = Some(ctfd_path);
    c.monitor_port = Some(monitor_port);
    c.monitor_token = Some(monitor_token);
    c.ssh_pubkey_path = Some(ssh_pubkey_path);
    c.monitor_url = Some(url);
    Ok(c)
}

/// The arguments of `ansible-playbook`: the inventory, the playbook, then
/// `-e` before each extra variable.
pub open spec fn ansible_args_of(inventory: Seq<char>, playbook: Seq<char>, evars: Seq<Seq<char>>) -> Seq<Seq<char>>
    decreases evars.len(),
{
    if evars.len() == 0 {
        seq!["-i"@, inventory, playbook]
    } else {
        ansible_args_of(inventory, playbook, evars.drop_last()) + seq!["-e"@, evars.last()]
    }
}

fn push_owned(v: &mut Vec<String>, s: String)
    ensures
        strs(final(v)@) == strs(old(v)@).push(s@),
{
    let ghost sv = s@;
    v.push(s);
    assert(strs(v@) =~= strs(old(v)@).push(sv));
}

pub fn ansible_args(inventory_path: &str, playbook_path: &str, evars: &Vec<String>) -> (r: Vec<String>)
    ensures
        strs(r@) == ansible_args_of(inventory_path@, playbook_path@, strs(evars@)),
{
    let mut args: Vec<String> = Vec::new();
    push_owned(&mut args, String::from_str("-i"));
    push_owned(&mut args, String::from_str(inventory_path));
    push_owned(&mut args, String::from_str(playbook_path));
    assert(strs(args@) =~= ansible_args_of(inventory_path@, playbook_path@, strs(evars@).take(0)));
    let mut i: usize = 0;
    while i < evars.len()
        invariant
            i <= evars@.len(),
            strs(args@) == ansible_args_of(inventory_path@, playbook_path@, strs(evars@).take(i as int)),
        decreases evars@.len() - i,
    {
        push_owned(&mut args, String::from_str("-e"));
        push_owned(&mut args, evars[i].clone());
        assert(strs(evars@).take(i + 1).drop_last() =~= strs(evars@).take(i as int));
        assert(strs(args@) =~= ansible_args_of(inventory_path@, playbook_path@, strs(evars@).take(i + 1)));
        i = i + 1;
    }
    assert(strs(evars@).take(evars@.len() as int) =~= strs(evars@));
    args
}

/// The arguments of `nix` that run `ansible-playbook` with `args` inside
/// the development shell of `flake_dir`.
pub open spec fn nix_args_of(flake_dir: Seq<char>, args: Seq<Seq<char>>) -> Seq<Seq<char>> {
    seq!["develop"@, flake_dir, "--command"@, "ansible-playbook"@] + args
}

pub fn nix_develop_args(flake_dir: &str, args: &Vec<String>) -> (r: Vec<String>)
    ensures
        strs(r@) == nix_args_of(flake_dir@, strs(args@)),
{
    let mut out: Vec<String> = Vec::new();
    push_owned(&mut out, String::from_str("develop"));
    push_owned(&mut out, String::from_str(flake_dir));
    push_owned(&mut out, String::from_str("--command"));
    push_owned(&mut out, String::from_str("ansible-playbook"));
    let ghost head = strs(out@);
    let mut i: usize = 0;
    while i < args.len()
        invariant
            i <= args@.len(),
            strs(out@) == head + strs(args@).take(i as int),
        decreases args@.len() - i,
    {
        push_owned(&mut out, args[i].clone());
        assert(strs(args@).take(i + 1) =~= strs(args@).take(i as int).push(args@[i as int]@));
        i = i + 1;
    }
    assert(strs(args@).take(args@.len() as int) =~= strs(args@));
    assert(strs(out@) =~= nix_args_of(flake_dir@, strs(args@)));
    out
}

/// The `k`-th `flake.nix` the lookup probes: in the `k`-th directory up
/// from `start`.
pub open spec fn flake_at(start: Seq<char>, k: int) -> Seq<char> {
    spec_path_join(ancestor(start, k as nat)->0, "flake.nix"@)
}

/// `r` is what the `flake.nix` lookup from `start` returns when the files it
/// probed, in order, exist as `exists` says: it probes until the first that
/// exists and returns it; when none does, it has probed every directory up
/// to one without parent and returns none.
pub open spec fn flake_lookup(start: Seq<char>, exists: Seq<bool>, r: Option<Seq<char>>) -> bool {
    &&& exists.len() >= 1
    &&& forall|i: int| 0 <= i < exists.len() ==> #[trigger] ancestor(start, i as nat) is Some
    &&& forall|k: int| #[trigger] is_first_true(exists, k) ==> k == exists.len() - 1 && r == Some(flake_at(start, k))
    &&& none_true(exists) ==> r is None && spec_parent(ancestor(start, (exists.len() - 1) as nat)->0) is None
}

/// The first `flake.nix` that exists walking up from `start_dir`, or none.
/// Which files exist is read from the disk at the time of the call.
pub fn find_flake_nix(start_dir: &str) -> (r: Option<String>)
    ensures
        exists|exists: Seq<bool>| #[trigger] flake_lookup(start_dir@, exists, opt_str(r)),
{
    let mut dir = String::from_str(start_dir);
    let mut cands: Vec<String> = Vec::new();
    let mut answers: Vec<bool> = Vec::new();
    loop
        invariant_except_break
            ancestor(start_dir@, answers@.len() as nat) == Some(dir@),
            forall|i: int| 0 <= i < answers@.len() ==> !answers@[i],
        invariant
            cands@.len() == answers@.len(),
            forall|i: int| 0 <= i < answers@.len() ==> #[trigger] ancestor(start_dir@, i as nat) is Some,
            forall|i: int| 0 <= i < answers@.len() ==> (#[trigger] cands@[i])@ == flake_at(start_dir@, i),
        ensures
            cands@.len() == answers@.len(),
            answers@.len() >= 1,
            forall|i: int| 0 <= i < answers@.len() - 1 ==> !answers@[i],
            answers@[answers@.len() - 1] || spec_parent(ancestor(start_dir@, (answers@.len() - 1) as nat)->0) is None,
        decreases dir@.len(),
    {
        let ghost n0 = answers@.len();
        let p = path_join(dir.as_str(), "flake.nix");
        let e = path_exists(p.as_str());
        assert(p@ == flake_at(start_dir@, n0 as int));
        cands.push(p);
        answers.push(e);
        if e {
            break;
        }
        match path_parent(dir.as_str()) {
            Some(d) => {
                assert(ancestor(start_dir@, (n0 + 1) as nat) == Some(d@));
                dir = d;
            },
            None => {
                break;
            },
        }
    }
    let ghost ans = answers@;
    let r = match nearest_existing(&cands, &answers) {
        Some(k) => {
            assert(k as int == ans.len() - 1);
            Some(cands[k].clone())
        },
        None => None,
    };
    assert forall|k: int| #[trigger] is_first_true(ans, k) implies k == ans.len() - 1 && opt_str(r) == Some(flake_at(start_dir@, k)) by {
        if k < ans.len() - 1 {
            assert(!ans[k]);
        }
    }
    assert(flake_lookup(start_dir@, ans, opt_str(r)));
    r
}

/// `root/a/b/c`.
pub open spec fn join3(root: Seq<char>, a: Seq<char>, b: Seq<char>, c: Seq<char>) -> Seq<char> {
    spec_path_join(spec_path_join(spec_path_join(root, a), b), c)
}

/// Where a built monitor binary is looked for in a workspace: the release
/// then the debug profile, each for the static x86-64 and aarch64 targets
/// and then the host target.
pub open spec fn monitor_candidates_of(root: Seq<char>) -> Seq<Seq<char>> {
    let t = spec_path_join(root, "target"@);
    seq![
        join3(t, "x86_64-unknown-linux-musl"@, "release"@, "remote-monitor"@),
        join3(t, "aarch64-unknown-linux-musl"@, "release"@, "remote-monitor"@),
        spec_path_join(spec_path_join(t, "release"@), "remote-monitor"@),
        join3(t, "x86_64-unknown-linux-musl"@, "debug"@, "remote-monitor"@),
        join3(t, "aarch64-unknown-linux-musl"@, "debug"@, "remote-monitor"@),
        spec_path_join(spec_path_join(t, "debug"@), "remote-monitor"@),
    ]
}

/// The candidate monitor binaries of the workspace at `root`, in the order
/// they are tried.
pub fn monitor_binary_candidates(root: &str) -> (r: Vec<String>)
    ensures
        strs(r@) == monitor_candidates_of(root@),
{
    let t = path_join(root, "target");
    let mut out: Vec<String> = Vec::new();
    let profiles = vec!["release", "debug"];
    let mut i: usize = 0;
    while i < 2
        invariant
            i <= 2,
            profiles@.len() == 2,
            profiles@[0]@ == "release"@,
            profiles@[1]@ == "debug"@,
            t@ == spec_path_join(root@, "target"@),
            strs(out@) == monitor_candidates_of(root@).take(3 * i),
        decreases 2 - i,
    {
        let p = profiles[i];
        let a = path_join(path_join(path_join(t.as_str(), "x86_64-unknown-linux-musl").as_str(), p).as_str(), "remote-monitor");
        push_owned(&mut out, a);
        let b = path_join(path_join(path_join(t.as_str(), "aarch64-unknown-linux-musl").as_str(), p).as_str(), "remote-monitor");
        push_owned(&mut out, b);
        let c = path_join(path_join(t.as_str(), p).as_str(), "remote-monitor");
        push_owned(&mut out, c);
        assert(strs(out@) =~= monitor_candidates_of(root@).take(3 * (i + 1)));
        i = i + 1;
    }
    assert(monitor_candidates_of(root@).take(6) =~= monitor_candidates_of(root@));
    out
}

/// Where the CTFd plugin's source is looked for in a workspace.
pub open spec fn plugin_candidate_of(root: Seq<char>) -> Seq<char> {
    spec_path_join(join3(root, "src"@, "nervctf"@, "assets"@), "ctfd-plugin"@)
}

pub fn plugin_src_candidate(root: &str) -> (r: String)
    ensures
        r@ == plugin_candidate_of(root@),
{
    let a = path_join(root, "src");
    let b = path_join(a.as_str(), "nervctf");
    let c = path_join(b.as_str(), "assets");
    path_join(c.as_str(), "ctfd-plugin")
}

} // verus!
