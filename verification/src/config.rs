//! The tool's configuration record and where its file is looked for.
use vstd::prelude::*;
use crate::paths::{path_exists, path_join, path_parent, spec_parent, spec_path_join};

verus! {

/// Configuration loaded from `.nervctf.yml` (merged with environment
/// variables and command-line flags).
pub struct Config {
    pub monitor_url: Option<String>,
    pub monitor_token: Option<String>,
    pub challenges_dir: Option<String>,
    pub target_ip: Option<String>,
    pub target_user: Option<String>,
    pub ssh_pubkey_path: Option<String>,
    pub ctfd_remote_path: Option<String>,
    pub monitor_port: Option<String>,
    pub max_concurrent_provisions: Option<u32>,
    pub max_instances_per_team: Option<u32>,
    pub runner_ip: Option<String>,
    pub runner_user: Option<String>,
}

impl Config {
    /// No field is set.
    pub open spec fn is_unset(&self) -> bool {
        &&& self.monitor_url is None
        &&& self.monitor_token is None
        &&& self.challenges_dir is None
        &&& self.target_ip is None
        &&& self.target_user is None
        &&& self.ssh_pubkey_path is None
        &&& self.ctfd_remote_path is None
        &&& self.monitor_port is None
        &&& self.max_concurrent_provisions is None
        &&& self.max_instances_per_team is None
        &&& self.runner_ip is None
        &&& self.runner_user is None
    }
}

impl Default for Config {
    fn default() -> (r: Self)
        ensures
            r.is_unset(),
    {
        Config {
            monitor_url: None,
            monitor_token: None,
            challenges_dir: None,
            target_ip: None,
            target_user: None,
            ssh_pubkey_path: None,
            ctfd_remote_path: None,
            monitor_port: None,
            max_concurrent_provisions: None,
            max_instances_per_team: None,
            runner_ip: None,
            runner_user: None,
        }
    }
}

/// The `k`-th directory up from `start` (`start` itself for `k == 0`), if
/// the path has that many parents.
pub open spec fn ancestor(start: Seq<char>, k: nat) -> Option<Seq<char>>
    decreases k,
{
    if k == 0 {
        Some(start)
    } else {
        match ancestor(start, (k - 1) as nat) {
            Some(d) => spec_parent(d),
            None => None,
        }
    }
}

/// `k` is the first position at which `exists` holds.
pub open spec fn is_first_true(exists: Seq<bool>, k: int) -> bool {
    &&& 0 <= k < exists.len()
    &&& exists[k]
    &&& forall|j: int| 0 <= j < k ==> !exists[j]
}

/// `exists` holds nowhere.
pub open spec fn none_true(exists: Seq<bool>) -> bool {
    forall|j: int| 0 <= j < exists.len() ==> !exists[j]
}

/// The position of the first candidate that exists, given for each
/// candidate whether it exists.
pub fn nearest_existing(candidates: &Vec<String>, exists: &Vec<bool>) -> (r: Option<usize>)
    requires
        candidates@.len() == exists@.len(),
    ensures
        r matches Some(k) ==> is_first_true(exists@, k as int),
        r is None <==> none_true(exists@),
{
    let mut j: usize = 0;
    while j < exists.len()
        invariant
            j <= exists@.len(),
            forall|i: int| 0 <= i < j ==> !exists@[i],
        decreases exists@.len() - j,
    {
        if exists[j] {
            return Some(j);
        }
        j = j + 1;
    }
    None
}

/// The `i`-th file the configuration lookup probes from `start`: in each
/// directory walking up, `.nervctf.yml` then `.nervctf.yaml`.
pub open spec fn config_at(start: Seq<char>, i: int) -> Seq<char> {
    spec_path_join(
        ancestor(start, (i / 2) as nat)->0,
        if i % 2 == 0 { ".nervctf.yml"@ } else { ".nervctf.yaml"@ },
    )
}

/// `r` is what the configuration lookup from `start` returns when the
/// files it probed, in order, exist as `exists` says: it probes until the
/// first that exists and returns it; when none does, it has probed both
/// names in every directory up to one without parent and returns
/// `start/.nervctf.yml`.
pub open spec fn config_lookup(start: Seq<char>, exists: Seq<bool>, r: Seq<char>) -> bool {
    &&& exists.len() >= 1
    &&& forall|i: int| 0 <= i < exists.len() ==> #[trigger] ancestor(start, (i / 2) as nat) is Some
    &&& forall|k: int| #[trigger] is_first_true(exists, k) ==> k == exists.len() - 1 && r == config_at(start, k)
    &&& none_true(exists) ==> {
        &&& exists.len() % 2 == 0
        &&& spec_parent(ancestor(start, (exists.len() / 2 - 1) as nat)->0) is None
        &&& r == spec_path_join(start, ".nervctf.yml"@)
    }
}

/// The configuration file for `start_dir`: the first `.nervctf.yml` or
/// `.nervctf.yaml` that exists walking up from `start_dir`, or
/// `start_dir/.nervctf.yml` (the path to create) when none does. Which
/// files exist is read from the disk at the time of the call.
pub fn find_config_path(start_dir: &str) -> (r: String)
    ensures
        exists|exists: Seq<bool>| #[trigger] config_lookup(start_dir@, exists, r@),
{
    let mut dir = String::from_str(start_dir);
    let mut cands: Vec<String> = Vec::new();
    let mut answers: Vec<bool> = Vec::new();
    loop
        invariant_except_break
            answers@.len() % 2 == 0,
            ancestor(start_dir@, (answers@.len() / 2) as nat) == Some(dir@),
            forall|i: int| 0 <= i < answers@.len() ==> !answers@[i],
        invariant
            cands@.len() == answers@.len(),
            forall|i: int| 0 <= i < answers@.len() ==> #[trigger] ancestor(start_dir@, (i / 2) as nat) is Some,
            forall|i: int| 0 <= i < answers@.len() ==> (#[trigger] cands@[i])@ == config_at(start_dir@, i),
        ensures
            cands@.len() == answers@.len(),
            answers@.len() >= 1,
            forall|i: int| 0 <= i < answers@.len() - 1 ==> !answers@[i],
            answers@[answers@.len() - 1] || (answers@.len() % 2 == 0 && spec_parent(
                ancestor(start_dir@, (answers@.len() / 2 - 1) as nat)->0,
            ) is None),
        decreases dir@.len(),
    {
        let ghost n0 = answers@.len();
        assert(forall|i: int| 0 <= i < n0 ==> !answers@[i]);
        let p = path_join(dir.as_str(), ".nervctf.yml");
        let e = path_exists(p.as_str());
        assert(p@ == config_at(start_dir@, n0 as int));
        cands.push(p);
        answers.push(e);
        if e {
            break;
        }
        let p = path_join(dir.as_str(), ".nervctf.yaml");
        let e = path_exists(p.as_str());
        assert(p@ == config_at(start_dir@, (n0 + 1) as int));
        cands.push(p);
        answers.push(e);
        if e {
            break;
        }
        match path_parent(dir.as_str()) {
            Some(d) => {
                assert(ancestor(start_dir@, (n0 / 2 + 1) as nat) == Some(d@));
                dir = d;
            },
            None => {
                break;
            },
        }
    }
    let ghost ans = answers@;
    let r = match nearest_existing(&cands, &answers) {
        Some(k) => {
            assert(k as int == ans.len() - 1);
            cands[k].clone()
        },
        None => path_join(start_dir, ".nervctf.yml"),
    };
    assert forall|k: int| #[trigger] is_first_true(ans, k) implies k == ans.len() - 1 && r@ == config_at(start_dir@, k) by {
        if k < ans.len() - 1 {
            assert(!ans[k]);
        }
    }
    assert(config_lookup(start_dir@, ans, r@));
    r
}

/// Whether `std::path::Path` takes `a` and `b` for the same path (it
/// compares them component by component).
pub uninterp spec fn spec_same_path(a: Seq<char>, b: Seq<char>) -> bool;

/// Calls `PartialEq` on two `std::path::Path`s; the answer is named.
#[verifier::external_body]
fn same_path(a: &str, b: &str) -> (r: bool)
    ensures
        r == spec_same_path(a@, b@),
{
    std::path::Path::new(a) == std::path::Path::new(b)
}

/// The challenges directory to work in: the one given on the command line,
/// unless that is the default `.`, in which case the configured one (if
/// any).
pub open spec fn base_dir_of(cli_base_dir: Seq<char>, configured: Option<Seq<char>>) -> Seq<char> {
    if spec_same_path(cli_base_dir, "."@) {
        match configured {
            Some(d) => d,
            None => cli_base_dir,
        }
    } else {
        cli_base_dir
    }
}

pub fn effective_base_dir(cli_base_dir: &str, configured: &Option<String>) -> (r: String)
    ensures
        r@ == base_dir_of(cli_base_dir@, match configured { Some(d) => Some(d@), None => None }),
{
    if same_path(cli_base_dir, ".") {
        match configured {
            Some(d) => d.clone(),
            None => String::from_str(cli_base_dir),
        }
    } else {
        String::from_str(cli_base_dir)
    }
}

/// The first of a command-line flag, an environment variable and the
/// configuration file that gives the setting.
pub open spec fn first_given(flag: Option<Seq<char>>, env: Option<Seq<char>>, file: Option<Seq<char>>) -> Option<Seq<char>> {
    match flag {
        Some(v) => Some(v),
        None => match env {
            Some(v) => Some(v),
            None => file,
        },
    }
}

pub open spec fn opt_seq(o: Option<String>) -> Option<Seq<char>> {
    match o {
        Some(s) => Some(s@),
        None => None,
    }
}

/// A setting taken from the command line, else the environment, else the
/// configuration file.
pub fn resolve_setting(flag: Option<String>, env: Option<String>, file: Option<String>) -> (r: Option<String>)
    ensures
        opt_seq(r) == first_given(opt_seq(flag), opt_seq(env), opt_seq(file)),
{
    match flag {
        Some(v) => Some(v),
        None => match env {
            Some(v) => Some(v),
            None => file,
        },
    }
}

/// Settings are taken with the command line first, then the environment,
/// then the configuration file: a later source is used only when every
/// earlier one is silent.
pub proof fn law_setting_precedence(flag: Option<Seq<char>>, env: Option<Seq<char>>, file: Option<Seq<char>>)
    ensures
        flag is Some ==> first_given(flag, env, file) == flag,
        flag is None && env is Some ==> first_given(flag, env, file) == env,
        flag is None && env is None ==> first_given(flag, env, file) == file,
{
}

} // verus!
