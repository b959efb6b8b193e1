//! The commands the monitor runs to manage instances: `docker run`
//! arguments, LXC port forwarding and flag injection, SSH invocations on a
//! runner host, and the compose commands sent there.
use vstd::prelude::*;
use crate::instance::{shell_quote, shell_quoted};
use crate::models::strs;
use crate::paths::{path_join, path_parent, spec_parent, spec_path_join};
use crate::text::{char_is_ws, dec, is_ws, push_decimal, starts_with, starts_with_str};

verus! {

/// What `shlex::split` returns for a command line: its words, or none when
/// the line is erroneous (unbalanced quotes, a trailing backslash).
pub uninterp spec fn spec_shlex_split(line: Seq<char>) -> Option<Seq<Seq<char>>>;

/// Calls `shlex::split`; the result is the named function of the line.
#[verifier::external_body]
fn shlex_split(line: &str) -> (r: Option<Vec<String>>)
    ensures
        match r {
            Some(w) => spec_shlex_split(line@) == Some(strs(w@)),
            None => spec_shlex_split(line@) is None,
        },
{
    shlex::split(line)
}

/// One step of splitting at whitespace: the words so far and the word
/// being read.
pub open spec fn split_step(st: (Seq<Seq<char>>, Seq<char>), c: char) -> (Seq<Seq<char>>, Seq<char>) {
    if is_ws(c) {
        if st.1.len() > 0 {
            (st.0.push(st.1), seq![])
        } else {
            (st.0, seq![])
        }
    } else {
        (st.0, st.1.push(c))
    }
}

/// The state after reading the first `k` characters of `s`.
pub open spec fn split_state(s: Seq<char>, k: int) -> (Seq<Seq<char>>, Seq<char>)
    decreases k,
{
    if k <= 0 {
        (seq![], seq![])
    } else {
        split_step(split_state(s, k - 1), s[k - 1])
    }
}

/// `s.split_whitespace()`: the maximal runs of non-whitespace characters.
pub open spec fn ws_words(s: Seq<char>) -> Seq<Seq<char>> {
    let st = split_state(s, s.len() as int);
    if st.1.len() > 0 {
        st.0.push(st.1)
    } else {
        st.0
    }
}

/// The words of `s`, split at whitespace.
pub fn split_whitespace_words(s: &str) -> (r: Vec<String>)
    ensures
        strs(r@) == ws_words(s@),
{
    let n = s.unicode_len();
    let mut words: Vec<String> = Vec::new();
    let mut cur = String::new();
    let mut i: usize = 0;
    while i < n
        invariant
            i <= n,
            n == s@.len(),
            (strs(words@), cur@) == split_state(s@, i as int),
        decreases n - i,
    {
        let c = s.get_char(i);
        if char_is_ws(c) {
            if cur.unicode_len() > 0 {
                let ghost before = strs(words@);
                words.push(cur);
                assert(strs(words@) =~= before.push(split_state(s@, i as int).1));
                cur = String::new();
            }
        } else {
            let mut one = String::new();
            one.append(s.substring_char(i, i + 1));
            assert(one@ =~= seq![c]);
            cur.append(one.as_str());
        }
        assert(cur@ =~= split_state(s@, i + 1).1);
        i = i + 1;
    }
    if cur.unicode_len() > 0 {
        let ghost before = strs(words@);
        words.push(cur);
        assert(strs(words@) =~= before.push(split_state(s@, n as int).1));
    }
    words
}

/// The words of a command: shell-split when the line splits, split at
/// whitespace otherwise.
pub open spec fn command_words_of(split: Option<Seq<Seq<char>>>, line: Seq<char>) -> Seq<Seq<char>> {
    match split {
        Some(w) => w,
        None => ws_words(line),
    }
}

/// The words of `line` given what shell-splitting it gave.
pub fn command_words_from(split: Option<Vec<String>>, line: &str) -> (r: Vec<String>)
    ensures
        strs(r@) == command_words_of(match split { Some(w) => Some(strs(w@)), None => None }, line@),
{
    match split {
        Some(w) => w,
        None => split_whitespace_words(line),
    }
}

/// The words of the command line `line`.
pub fn command_words(line: &str) -> (r: Vec<String>)
    ensures
        strs(r@) == command_words_of(spec_shlex_split(line@), line@),
{
    let split = shlex_split(line);
    command_words_from(split, line)
}

/// The arguments of `docker run` for an instance: detached, named, the
/// host port published to the internal one, restarted unless stopped, each
/// environment variable as `-e K=V`, the image, then the command's words.
pub open spec fn docker_run_args_of(
    image_tag: Seq<char>,
    container_name: Seq<char>,
    host_port: u16,
    internal_port: u32,
    command_words: Seq<Seq<char>>,
    env: Seq<(Seq<char>, Seq<char>)>,
) -> Seq<Seq<char>> {
    seq!["run"@, "-d"@, "--name"@, container_name, "-p"@, dec(host_port as nat) + ":"@ + dec(internal_port as nat),
        "--restart=unless-stopped"@]
        + env_args(env, env.len() as int) + seq![image_tag] + command_words
}

/// `-e K=V` for the first `k` variables.
pub open spec fn env_args(env: Seq<(Seq<char>, Seq<char>)>, k: int) -> Seq<Seq<char>>
    decreases k,
{
    if k <= 0 {
        seq![]
    } else {
        env_args(env, k - 1) + seq!["-e"@, env[k - 1].0 + "="@ + env[k - 1].1]
    }
}

pub open spec fn env_views(env: Seq<(String, String)>) -> Seq<(Seq<char>, Seq<char>)> {
    env.map_values(|p: (String, String)| (p.0@, p.1@))
}

fn push_text(v: &mut Vec<String>, s: String)
    ensures
        strs(final(v)@) == strs(old(v)@).push(s@),
{
    let ghost sv = s@;
    v.push(s);
    assert(strs(v@) =~= strs(old(v)@).push(sv));
}

/// Builds the `docker run` arguments for an instance.
pub fn docker_run_args(
    image_tag: &str,
    container_name: &str,
    host_port: u16,
    internal_port: u32,
    command: Option<&str>,
    env_vars: &Vec<(String, String)>,
) -> (r: Vec<String>)
    ensures
        strs(r@) == docker_run_args_of(image_tag@, container_name@, host_port, internal_port,
            match command {
                Some(c) => command_words_of(spec_shlex_split(c@), c@),
                None => seq![],
            }, env_views(env_vars@)),
{
    let mut args: Vec<String> = Vec::new();
    push_text(&mut args, String::from_str("run"));
    push_text(&mut args, String::from_str("-d"));
    push_text(&mut args, String::from_str("--name"));
    push_text(&mut args, String::from_str(container_name));
    push_text(&mut args, String::from_str("-p"));
    let mut ports = String::new();
    push_decimal(&mut ports, host_port as u64);
    ports.append(":");
    push_decimal(&mut ports, internal_port as u64);
    push_text(&mut args, ports);
    push_text(&mut args, String::from_str("--restart=unless-stopped"));
    let ghost head = strs(args@);
    let ghost env = env_views(env_vars@);
    let mut i: usize = 0;
    while i < env_vars.len()
        invariant
            i <= env_vars@.len(),
            env == env_views(env_vars@),
            strs(args@) == head + env_args(env, i as int),
        decreases env_vars@.len() - i,
    {
        push_text(&mut args, String::from_str("-e"));
        let mut kv = env_vars[i].0.clone();
        kv.append("=");
        kv.append(env_vars[i].1.as_str());
        push_text(&mut args, kv);
        assert(env[i as int] == (env_vars@[i as int].0@, env_vars@[i as int].1@));
        assert(strs(args@) =~= head + env_args(env, i + 1));
        i = i + 1;
    }
    push_text(&mut args, String::from_str(image_tag));
    let ghost before_cmd = strs(args@);
    match command {
        Some(c) => {
            let words = command_words(c);
            let mut j: usize = 0;
            while j < words.len()
                invariant
                    j <= words@.len(),
                    strs(args@) == before_cmd + strs(words@).take(j as int),
                decreases words@.len() - j,
            {
                push_text(&mut args, words[j].clone());
                assert(strs(words@).take(j + 1) =~= strs(words@).take(j as int).push(words@[j as int]@));
                assert(strs(args@) =~= before_cmd + strs(words@).take(j + 1));
                j = j + 1;
            }
            assert(strs(words@).take(words@.len() as int) =~= strs(words@));
        },
        None => {
            assert(strs(args@) =~= before_cmd + Seq::<Seq<char>>::empty());
        },
    }
    args
}

/// The address an LXC proxy device listens on for `host_port`.
pub open spec fn lxc_listen_of(host_port: u16) -> Seq<char> {
    "listen=tcp:0.0.0.0:"@ + dec(host_port as nat)
}

/// The address an LXC proxy device forwards to inside the container.
pub open spec fn lxc_connect_of(internal_port: u32) -> Seq<char> {
    "connect=tcp:127.0.0.1:"@ + dec(internal_port as nat)
}

pub fn lxc_listen_address(host_port: u16) -> (r: String)
    ensures
        r@ == lxc_listen_of(host_port),
{
    let mut out = String::from_str("listen=tcp:0.0.0.0:");
    push_decimal(&mut out, host_port as u64);
    out
}

pub fn lxc_connect_address(internal_port: u32) -> (r: String)
    ensures
        r@ == lxc_connect_of(internal_port),
{
    let mut out = String::from_str("connect=tcp:127.0.0.1:");
    push_decimal(&mut out, internal_port as u64);
    out
}

/// The shell command that writes `flag` to `/challenge/flag` inside an LXC
/// container and makes it read-only.
pub open spec fn lxc_flag_text(flag: Seq<char>) -> Seq<char> {
    "printf '%s\\n' '"@ + flag + "' > /challenge/flag && chmod 444 /challenge/flag"@
}

pub fn lxc_flag_command(flag: &str) -> (r: String)
    ensures
        r@ == lxc_flag_text(flag@),
{
    let mut out = String::from_str("printf '%s\\n' '");
    out.append(flag);
    out.append("' > /challenge/flag && chmod 444 /challenge/flag");
    out
}

/// The arguments of `ssh` running `cmd` on `target` without prompting and
/// without host-key checks.
pub open spec fn ssh_args_of(target: Seq<char>, cmd: Seq<char>) -> Seq<Seq<char>> {
    seq!["-o"@, "StrictHostKeyChecking=no"@, "-o"@, "UserKnownHostsFile=/dev/null"@, "-o"@,
        "BatchMode=yes"@, target, cmd]
}

pub fn ssh_args(target: &str, cmd: &str) -> (r: Vec<String>)
    ensures
        strs(r@) == ssh_args_of(target@, cmd@),
{
    let mut args: Vec<String> = Vec::new();
    push_text(&mut args, String::from_str("-o"));
    push_text(&mut args, String::from_str("StrictHostKeyChecking=no"));
    push_text(&mut args, String::from_str("-o"));
    push_text(&mut args, String::from_str("UserKnownHostsFile=/dev/null"));
    push_text(&mut args, String::from_str("-o"));
    push_text(&mut args, String::from_str("BatchMode=yes"));
    push_text(&mut args, String::from_str(target));
    push_text(&mut args, String::from_str(cmd));
    assert(strs(args@) =~= ssh_args_of(target@, cmd@));
    args
}

/// The remote command that stores standard input at `remote_path`,
/// creating its directory (`.` when the path has no parent).
pub open spec fn remote_write_text(remote_path: Seq<char>) -> Seq<char> {
    let parent = match spec_parent(remote_path) {
        Some(p) => p,
        None => "."@,
    };
    "mkdir -p "@ + shell_quoted(parent) + " && cat > "@ + shell_quoted(remote_path)
}

pub fn remote_write_command(remote_path: &str) -> (r: String)
    ensures
        r@ == remote_write_text(remote_path@),
{
    let parent = match path_parent(remote_path) {
        Some(p) => p,
        None => String::from_str("."),
    };
    let mut out = String::from_str("mkdir -p ");
    let q = shell_quote(parent.as_str());
    out.append(q.as_str());
    out.append(" && cat > ");
    let q = shell_quote(remote_path);
    out.append(q.as_str());
    out
}

/// The remote command that takes a compose project down with its volumes.
pub open spec fn remote_down_text(project: Seq<char>) -> Seq<char> {
    "docker compose -p "@ + shell_quoted(project) + " down -v"@
}

pub fn remote_down_command(project: &str) -> (r: String)
    ensures
        r@ == remote_down_text(project@),
{
    let mut out = String::from_str("docker compose -p ");
    let q = shell_quote(project);
    out.append(q.as_str());
    out.append(" down -v");
    out
}

/// The remote command that builds a compose file's images under a
/// project name.
pub open spec fn remote_compose_build_text(compose_file: Seq<char>, project: Seq<char>) -> Seq<char> {
    "DOCKER_BUILDKIT=1 docker compose -f "@ + shell_quoted(compose_file) + " -p "@ + shell_quoted(project)
        + " build"@
}

pub fn remote_compose_build_command(compose_file: &str, project: &str) -> (r: String)
    ensures
        r@ == remote_compose_build_text(compose_file@, project@),
{
    let mut out = String::from_str("DOCKER_BUILDKIT=1 docker compose -f ");
    let q = shell_quote(compose_file);
    out.append(q.as_str());
    out.append(" -p ");
    let q = shell_quote(project);
    out.append(q.as_str());
    out.append(" build");
    out
}

/// The per-instance flag file: `<project>.flag` next to the compose file.
pub fn flag_file_path(dir: &str, project: &str) -> (r: String)
    ensures
        r@ == spec_path_join(dir@, project@ + ".flag"@),
{
    let mut name = String::from_str(project);
    name.append(".flag");
    path_join(dir, name.as_str())
}

/// The remote command that removes an instance's override and flag files.
pub open spec fn remote_cleanup_text(dir: Seq<char>, project: Seq<char>) -> Seq<char> {
    "rm -f "@ + shell_quoted(spec_path_join(dir, project + ".override.yml"@)) + " "@
        + shell_quoted(spec_path_join(dir, project + ".flag"@))
}

pub fn remote_cleanup_command(dir: &str, project: &str) -> (r: String)
    ensures
        r@ == remote_cleanup_text(dir@, project@),
{
    let over = crate::compose::override_path(dir, project);
    let flag = flag_file_path(dir, project);
    let mut out = String::from_str("rm -f ");
    let q = shell_quote(over.as_str());
    out.append(q.as_str());
    out.append(" ");
    let q = shell_quote(flag.as_str());
    out.append(q.as_str());
    out
}

/// `s` with every leading `ssh://` removed.
pub open spec fn strip_ssh_scheme(s: Seq<char>) -> Seq<char>
    decreases s.len(),
{
    if starts_with(s, "ssh://"@) && "ssh://"@.len() > 0 {
        strip_ssh_scheme(s.skip("ssh://"@.len() as int))
    } else {
        s
    }
}

/// The runner host commands go to: the `RUNNER_SSH_TARGET` setting when it
/// is set, else an `ssh://` `DOCKER_HOST` without its scheme; none when
/// that is empty.
pub open spec fn runner_target_of(runner_ssh_target: Option<Seq<char>>, docker_host: Option<Seq<char>>) -> Option<Seq<char>> {
    let t = match runner_ssh_target {
        Some(r) => Some(r),
        None => match docker_host {
            Some(h) => if starts_with(h, "ssh://"@) { Some(strip_ssh_scheme(h)) } else { None },
            None => None,
        },
    };
    match t {
        Some(x) => if x.len() > 0 { Some(x) } else { None },
        None => None,
    }
}

fn strip_ssh(s: &str) -> (r: String)
    ensures
        r@ == strip_ssh_scheme(s@),
{
    proof {
        reveal_strlit("ssh://");
    }
    let n = s.unicode_len();
    let mut i: usize = 0;
    assert(s@.skip(0) =~= s@);
    while n - i >= 6 && starts_with_str(s.substring_char(i, n), "ssh://")
        invariant
            n == s@.len(),
            i <= n,
            strip_ssh_scheme(s@) == strip_ssh_scheme(s@.skip(i as int)),
        decreases n - i,
    {
        proof {
            reveal_strlit("ssh://");
        }
        assert(s@.subrange(i as int, n as int) =~= s@.skip(i as int));
        assert(starts_with(s@.skip(i as int), "ssh://"@));
        assert(strip_ssh_scheme(s@.skip(i as int)) == strip_ssh_scheme(s@.skip(i as int).skip(6)));
        assert(s@.skip(i as int).skip(6) =~= s@.skip(i + 6));
        i = i + 6;
    }
    assert(s@.subrange(i as int, n as int) =~= s@.skip(i as int));
    s.substring_char(i, n).to_string()
}

/// Where commands are run, from the two settings.
pub fn runner_target_from(runner_ssh_target: Option<&str>, docker_host: Option<&str>) -> (r: Option<String>)
    ensures
        match r {
            Some(t) => runner_target_of(
                match runner_ssh_target { Some(x) => Some(x@), None => None },
                match docker_host { Some(x) => Some(x@), None => None },
            ) == Some(t@),
            None => runner_target_of(
                match runner_ssh_target { Some(x) => Some(x@), None => None },
                match docker_host { Some(x) => Some(x@), None => None },
            ) is None,
        },
{
    let t: Option<String> = match runner_ssh_target {
        Some(r) => Some(r.to_string()),
        None => match docker_host {
            Some(h) => if starts_with_str(h, "ssh://") { Some(strip_ssh(h)) } else { None },
            None => None,
        },
    };
    match t {
        Some(x) => if x.unicode_len() > 0 { Some(x) } else { None },
        None => None,
    }
}

} // verus!
