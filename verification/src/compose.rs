//! The text the compose backend generates for one instance: the list of
//! pre-built services read from `docker images`, the per-instance override
//! file, and the shell command that brings the project up on a runner.
use vstd::prelude::*;
use crate::fix::{lines, split_lines};
use crate::instance::{shell_quote, shell_quoted};
use crate::models::strs;
use crate::paths::{path_file_name, path_join, path_parent, spec_file_name, spec_parent, spec_path_join};
use crate::server::{trim, trim_str};
use crate::text::{dec, eq_str, push_decimal, spec_to_lowercase, starts_with, starts_with_str, to_lowercase};

verus! {

/// The compose service players connect to: `app` when none is named.
pub open spec fn main_service(service: Seq<char>) -> Seq<char> {
    if service.len() == 0 {
        "app"@
    } else {
        service
    }
}

/// The main compose service.
pub fn service_name(service: &str) -> (r: String)
    ensures
        r@ == main_service(service@),
{
    if service.unicode_len() == 0 {
        String::from_str("app")
    } else {
        String::from_str(service)
    }
}

/// The directory holding the compose file (`.` when the path has none).
pub open spec fn compose_dir_of(compose_file: Seq<char>) -> Seq<char> {
    match spec_parent(compose_file) {
        Some(p) => p,
        None => "."@,
    }
}

/// The name the challenge's images were built under: the compose file's
/// directory name, lowercased, or `ctf-challenge` when it has none.
pub open spec fn challenge_dir_name_of(compose_file: Seq<char>) -> Seq<char> {
    match spec_file_name(compose_dir_of(compose_file)) {
        Some(n) => spec_to_lowercase(n),
        None => "ctf-challenge"@,
    }
}

/// The directory of a compose file.
pub fn compose_dir(compose_file: &str) -> (r: String)
    ensures
        r@ == compose_dir_of(compose_file@),
{
    match path_parent(compose_file) {
        Some(p) => p,
        None => String::from_str("."),
    }
}

/// The image-name prefix of a challenge's pre-built services.
pub fn challenge_dir_name(compose_file: &str) -> (r: String)
    ensures
        r@ == challenge_dir_name_of(compose_file@),
{
    let dir = compose_dir(compose_file);
    match path_file_name(dir.as_str()) {
        Some(n) => to_lowercase(n.as_str()),
        None => String::from_str("ctf-challenge"),
    }
}

/// The services named by the lines of `docker images` output that, trimmed,
/// start with `prefix`: what follows the prefix, when not empty.
pub open spec fn prebuilt_of(ls: Seq<Seq<char>>, prefix: Seq<char>) -> Seq<Seq<char>>
    decreases ls.len(),
{
    if ls.len() == 0 {
        seq![]
    } else {
        let prev = prebuilt_of(ls.drop_last(), prefix);
        let t = trim(ls.last());
        if starts_with(t, prefix) && t.len() > prefix.len() {
            prev.push(t.skip(prefix.len() as int))
        } else {
            prev
        }
    }
}

/// The pre-built services listed in `docker images` output.
pub fn prebuilt_services(output: &str, prefix: &str) -> (r: Vec<String>)
    ensures
        strs(r@) == prebuilt_of(lines(output@), prefix@),
{
    let ls = split_lines(output);
    let mut out: Vec<String> = Vec::new();
    let mut i: usize = 0;
    while i < ls.len()
        invariant
            strs(ls@) == lines(output@),
            i <= ls@.len(),
            strs(out@) == prebuilt_of(strs(ls@).take(i as int), prefix@),
        decreases ls@.len() - i,
    {
        let ghost before = strs(out@);
        let t = trim_str(ls[i].as_str());
        let pl = prefix.unicode_len();
        proof {
            assert(strs(ls@).take(i + 1).drop_last() =~= strs(ls@).take(i as int));
            assert(strs(ls@).take(i + 1).last() == ls@[i as int]@);
        }
        if starts_with_str(t, prefix) && t.unicode_len() > pl {
            let n = t.unicode_len();
            let rest = t.substring_char(pl, n);
            out.push(String::from_str(rest));
            assert(strs(out@) =~= before.push(t@.skip(pl as int)));
        }
        i = i + 1;
    }
    assert(strs(ls@).take(ls@.len() as int) =~= strs(ls@));
    out
}

/// Where a compose instance's flag file goes: the host path, the service
/// that mounts it and the path inside that service's container.
pub struct FlagFile {
    pub host_path: String,
    pub service: String,
    pub container_path: String,
}

/// The flag file of a compose instance, as plain text fields.
pub open spec fn flag_file_fields(f: Option<FlagFile>) -> Option<(Seq<char>, Seq<char>, Seq<char>)> {
    match f {
        Some(f) => Some((f.host_path@, f.service@, f.container_path@)),
        None => None,
    }
}

/// The flag file for `file` delivery of a flag with a container path:
/// `<project>.flag` next to the compose file, mounted into the flag service
/// (the main service by default).
pub fn flag_file_for(
    flag: Option<&str>,
    delivery: &str,
    file_path: Option<&str>,
    flag_service: Option<&str>,
    main: &str,
    dir: &str,
    project_name: &str,
) -> (r: Option<FlagFile>)
    ensures
        delivery@ == "file"@ && flag is Some && file_path is Some ==> flag_file_fields(r) == Some((
            spec_path_join(dir@, project_name@ + ".flag"@),
            match flag_service { Some(s) => s@, None => main@ },
            file_path->0@,
        )),
        !(delivery@ == "file"@ && flag is Some && file_path is Some) ==> r is None,
{
    if eq_str(delivery, "file") {
        match (flag, file_path) {
            (Some(_), Some(cpath)) => {
                let mut name = String::from_str(project_name);
                name.append(".flag");
                let host_path = path_join(dir, name.as_str());
                let service = match flag_service {
                    Some(s) => String::from_str(s),
                    None => String::from_str(main),
                };
                Some(FlagFile { host_path, service, container_path: String::from_str(cpath) })
            },
            _ => None,
        }
    } else {
        None
    }
}

/// The override entry for one service: its pre-built image, the published
/// port when it is the main service, and the flag mount when it carries the
/// flag file.
pub open spec fn service_block(
    svc: Seq<char>,
    dir_name: Seq<char>,
    main: Seq<char>,
    host_port: u16,
    internal_port: u32,
    flag: Option<(Seq<char>, Seq<char>, Seq<char>)>,
) -> Seq<char> {
    "  "@ + svc + ":\n    image: "@ + dir_name + "-"@ + svc + "\n"@
        + (if svc == main {
            "    ports:\n      - \""@ + dec(host_port as nat) + ":"@ + dec(internal_port as nat) + "\"\n"@
        } else {
            seq![]
        })
        + match flag {
            Some((hp, fs, cp)) => if fs == svc {
                "    volumes:\n      - "@ + hp + ":"@ + cp + ":ro\n"@
            } else {
                seq![]
            },
            None => seq![],
        }
}

/// The entries of the pre-built services other than the main one, in order.
pub open spec fn other_blocks(
    prebuilt: Seq<Seq<char>>,
    dir_name: Seq<char>,
    main: Seq<char>,
    host_port: u16,
    internal_port: u32,
    flag: Option<(Seq<char>, Seq<char>, Seq<char>)>,
) -> Seq<char>
    decreases prebuilt.len(),
{
    if prebuilt.len() == 0 {
        seq![]
    } else {
        let prev = other_blocks(prebuilt.drop_last(), dir_name, main, host_port, internal_port, flag);
        if prebuilt.last() == main {
            prev
        } else {
            prev + service_block(prebuilt.last(), dir_name, main, host_port, internal_port, flag)
        }
    }
}

/// An entry that only mounts the flag file, for a flag service that is
/// neither the main service nor pre-built.
pub open spec fn flag_stub(
    prebuilt: Seq<Seq<char>>,
    main: Seq<char>,
    flag: Option<(Seq<char>, Seq<char>, Seq<char>)>,
) -> Seq<char> {
    match flag {
        Some((hp, fs, cp)) => if fs != main && !prebuilt.contains(fs) {
            "  "@ + fs + ":\n    volumes:\n      - "@ + hp + ":"@ + cp + ":ro\n"@
        } else {
            seq![]
        },
        None => seq![],
    }
}

/// The per-instance override file: the main service first, then the other
/// pre-built services, then a stub for a flag service not yet listed.
pub open spec fn override_text(
    main: Seq<char>,
    dir_name: Seq<char>,
    host_port: u16,
    internal_port: u32,
    prebuilt: Seq<Seq<char>>,
    flag: Option<(Seq<char>, Seq<char>, Seq<char>)>,
) -> Seq<char> {
    "services:\n"@ + service_block(main, dir_name, main, host_port, internal_port, flag)
        + other_blocks(prebuilt, dir_name, main, host_port, internal_port, flag)
        + flag_stub(prebuilt, main, flag)
}

fn append_service_block(
    out: &mut String,
    svc: &str,
    dir_name: &str,
    main: &str,
    host_port: u16,
    internal_port: u32,
    flag: &Option<FlagFile>,
)
    ensures
        final(out)@ == old(out)@ + service_block(svc@, dir_name@, main@, host_port, internal_port, flag_file_fields(*flag)),
{
    let ghost start = out@;
    out.append("  ");
    out.append(svc);
    out.append(":\n    image: ");
    out.append(dir_name);
    out.append("-");
    out.append(svc);
    out.append("\n");
    let ghost head = out@;
    assert(head =~= start + ("  "@ + svc@ + ":\n    image: "@ + dir_name@ + "-"@ + svc@ + "\n"@));
    if eq_str(svc, main) {
        out.append("    ports:\n      - \"");
        push_decimal(out, host_port as u64);
        out.append(":");
        push_decimal(out, internal_port as u64);
        out.append("\"\n");
    }
    let ghost mid = out@;
    assert(mid =~= head + (if svc@ == main@ {
        "    ports:\n      - \""@ + dec(host_port as nat) + ":"@ + dec(internal_port as nat) + "\"\n"@
    } else {
        seq![]
    }));
    match flag {
        Some(f) => {
            if eq_str(f.service.as_str(), svc) {
                out.append("    volumes:\n      - ");
                out.append(f.host_path.as_str());
                out.append(":");
                out.append(f.container_path.as_str());
                out.append(":ro\n");
            }
        },
        None => {},
    }
    assert(out@ =~= start + service_block(svc@, dir_name@, main@, host_port, internal_port, flag_file_fields(*flag)));
}

/// Builds the per-instance override file for a compose project.
pub fn override_yaml(
    main: &str,
    dir_name: &str,
    host_port: u16,
    internal_port: u32,
    prebuilt: &Vec<String>,
    flag: &Option<FlagFile>,
) -> (r: String)
    ensures
        r@ == override_text(main@, dir_name@, host_port, internal_port, strs(prebuilt@), flag_file_fields(*flag)),
{
    let ghost ff = flag_file_fields(*flag);
    let mut out = String::from_str("services:\n");
    append_service_block(&mut out, main, dir_name, main, host_port, internal_port, flag);
    let ghost head = out@;
    let mut i: usize = 0;
    while i < prebuilt.len()
        invariant
            i <= prebuilt@.len(),
            ff == flag_file_fields(*flag),
            out@ == head + other_blocks(strs(prebuilt@).take(i as int), dir_name@, main@, host_port, internal_port, ff),
        decreases prebuilt@.len() - i,
    {
        proof {
            assert(strs(prebuilt@).take(i + 1).drop_last() =~= strs(prebuilt@).take(i as int));
            assert(strs(prebuilt@).take(i + 1).last() == prebuilt@[i as int]@);
        }
        if !eq_str(prebuilt[i].as_str(), main) {
            let ghost before = out@;
            append_service_block(&mut out, prebuilt[i].as_str(), dir_name, main, host_port, internal_port, flag);
            assert(out@ =~= before + service_block(prebuilt@[i as int]@, dir_name@, main@, host_port, internal_port, ff));
        }
        i = i + 1;
    }
    assert(strs(prebuilt@).take(prebuilt@.len() as int) =~= strs(prebuilt@));
    let ghost body = out@;
    match flag {
        Some(f) => {
            let fs = f.service.as_str();
            let mut listed = false;
            let mut j: usize = 0;
            while j < prebuilt.len()
                invariant
                    j <= prebuilt@.len(),
                    listed == strs(prebuilt@).take(j as int).contains(fs@),
                decreases prebuilt@.len() - j,
            {
                proof {
                    assert(strs(prebuilt@).take(j + 1) =~= strs(prebuilt@).take(j as int).push(prebuilt@[j as int]@));
                }
                if eq_str(prebuilt[j].as_str(), fs) {
                    listed = true;
                }
                proof {
                    let next = strs(prebuilt@).take(j + 1);
                    if listed {
                        if strs(prebuilt@).take(j as int).contains(fs@) {
                            let w = choose|w: int| 0 <= w < j && strs(prebuilt@).take(j as int)[w] == fs@;
                            assert(next[w] == fs@);
                        } else {
                            assert(next[j as int] == fs@);
                        }
                    } else {
                        assert forall|w: int| 0 <= w < next.len() implies next[w] != fs@ by {
                            if w < j {
                                assert(next[w] == strs(prebuilt@).take(j as int)[w]);
                            }
                        }
                    }
                }
                j = j + 1;
            }
            assert(strs(prebuilt@).take(prebuilt@.len() as int) =~= strs(prebuilt@));
            if !eq_str(fs, main) && !listed {
                out.append("  ");
                out.append(fs);
                out.append(":\n    volumes:\n      - ");
                out.append(f.host_path.as_str());
                out.append(":");
                out.append(f.container_path.as_str());
                out.append(":ro\n");
            }
        },
        None => {},
    }
    assert(out@ =~= body + flag_stub(strs(prebuilt@), main@, ff));
    out
}

/// The override file's path: `<project>.override.yml` next to the compose
/// file.
pub fn override_path(dir: &str, project_name: &str) -> (r: String)
    ensures
        r@ == spec_path_join(dir@, project_name@ + ".override.yml"@),
{
    let mut name = String::from_str(project_name);
    name.append(".override.yml");
    path_join(dir, name.as_str())
}

/// The command run on a runner host to bring a compose project up, every
/// path shell-quoted and the flag passed in the environment unless it is
/// delivered as a file.
pub open spec fn remote_up_text(
    dir: Seq<char>,
    compose_file: Seq<char>,
    override_file: Seq<char>,
    project_name: Seq<char>,
    flag: Option<Seq<char>>,
    delivery: Seq<char>,
) -> Seq<char> {
    let flag_env = if delivery != "file"@ {
        match flag {
            Some(f) => "FLAG="@ + shell_quoted(f) + " "@,
            None => seq![],
        }
    } else {
        seq![]
    };
    "cd "@ + shell_quoted(dir) + " && "@ + flag_env + "DOCKER_BUILDKIT=1 docker compose -f "@
        + shell_quoted(compose_file) + " -f "@ + shell_quoted(override_file) + " -p "@
        + shell_quoted(project_name) + " up -d --no-build --force-recreate"@
}

/// Builds the remote `docker compose up` command.
pub fn remote_up_command(
    dir: &str,
    compose_file: &str,
    override_file: &str,
    project_name: &str,
    flag: Option<&str>,
    delivery: &str,
) -> (r: String)
    ensures
        r@ == remote_up_text(dir@, compose_file@, override_file@, project_name@, match flag {
            Some(f) => Some(f@),
            None => None,
        }, delivery@),
{
    let mut out = String::from_str("cd ");
    let q = shell_quote(dir);
    out.append(q.as_str());
    out.append(" && ");
    if !eq_str(delivery, "file") {
        if let Some(f) = flag {
            out.append("FLAG=");
            let qf = shell_quote(f);
            out.append(qf.as_str());
            out.append(" ");
        }
    }
    out.append("DOCKER_BUILDKIT=1 docker compose -f ");
    let q = shell_quote(compose_file);
    out.append(q.as_str());
    out.append(" -f ");
    let q = shell_quote(override_file);
    out.append(q.as_str());
    out.append(" -p ");
    let q = shell_quote(project_name);
    out.append(q.as_str());
    out.append(" up -d --no-build --force-recreate");
    out
}

/// The command run on a runner host to unpack a build context and build a
/// challenge's compose images under the project name of its directory.
pub open spec fn remote_build_text(dir: Seq<char>, compose_file: Seq<char>, project: Seq<char>) -> Seq<char> {
    "rm -rf '"@ + dir + "' && mkdir -p '"@ + dir + "' && tar -xzf - -C '"@ + dir
        + "' && DOCKER_BUILDKIT=1 docker compose -f '"@ + compose_file + "' -p '"@ + project + "' build"@
}

/// Builds the remote extract-and-build command.
pub fn remote_build_command(dir: &str, compose_file: &str, project: &str) -> (r: String)
    ensures
        r@ == remote_build_text(dir@, compose_file@, project@),
{
    let mut out = String::from_str("rm -rf '");
    out.append(dir);
    out.append("' && mkdir -p '");
    out.append(dir);
    out.append("' && tar -xzf - -C '");
    out.append(dir);
    out.append("' && DOCKER_BUILDKIT=1 docker compose -f '");
    out.append(compose_file);
    out.append("' -p '");
    out.append(project);
    out.append("' build");
    out
}

} // verus!
