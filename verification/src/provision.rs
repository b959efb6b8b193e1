//! The decisions of provisioning an instance: which backend, which ports,
//! where the compose file lives, how the flag reaches the container, and
//! how host ports are shared out among compose services.
use vstd::prelude::*;
use crate::instance::{sanitize_name, sanitized};
use crate::models::InstanceBackend;
use crate::text::eq_str;

verus! {

/// Text for the backend name: `docker` when none is configured.
pub open spec fn backend_name(name: Option<Seq<char>>) -> Seq<char> {
    match name {
        Some(n) => n,
        None => "docker"@,
    }
}

/// The backend a configured name selects, if it is one of the four known.
pub open spec fn backend_of(name: Seq<char>) -> Option<InstanceBackend> {
    if name == "docker"@ {
        Some(InstanceBackend::Docker)
    } else if name == "compose"@ {
        Some(InstanceBackend::Compose)
    } else if name == "lxc"@ {
        Some(InstanceBackend::Lxc)
    } else if name == "vagrant"@ {
        Some(InstanceBackend::Vagrant)
    } else {
        None
    }
}

/// Selects the backend named in the instance configuration (`docker` by
/// default); any other name is refused with `Unknown backend: <name>`.
pub fn parse_backend(name: Option<&str>) -> (r: Result<InstanceBackend, String>)
    ensures
        match r {
            Ok(b) => backend_of(backend_name(match name { Some(n) => Some(n@), None => None })) == Some(b),
            Err(e) => backend_of(backend_name(match name { Some(n) => Some(n@), None => None })) is None
                && e@ == "Unknown backend: "@ + backend_name(match name { Some(n) => Some(n@), None => None }),
        },
{
    let n = match name {
        Some(n) => n,
        None => "docker",
    };
    if eq_str(n, "docker") {
        Ok(InstanceBackend::Docker)
    } else if eq_str(n, "compose") {
        Ok(InstanceBackend::Compose)
    } else if eq_str(n, "lxc") {
        Ok(InstanceBackend::Lxc)
    } else if eq_str(n, "vagrant") {
        Ok(InstanceBackend::Vagrant)
    } else {
        let mut e = String::from_str("Unknown backend: ");
        e.append(n);
        Err(e)
    }
}

/// The connection type shown to players, `nc` by default.
pub fn connection_or_default(connection: Option<&str>) -> (r: String)
    ensures
        r@ == match connection {
            Some(c) => c@,
            None => "nc"@,
        },
{
    match connection {
        Some(c) => String::from_str(c),
        None => String::from_str("nc"),
    }
}

/// The instance lifetime in minutes, 45 by default.
pub fn timeout_or_default(timeout_minutes: Option<u64>) -> (r: u64)
    ensures
        r == match timeout_minutes {
            Some(t) => t,
            None => 45,
        },
{
    match timeout_minutes {
        Some(t) => t,
        None => 45,
    }
}

/// The container ports an instance exposes: the `internal_ports` list when
/// the configuration has one, else the single `internal_port`, else 4000.
pub open spec fn internal_ports_spec(listed: Option<Seq<u64>>, single: Option<u64>) -> Seq<u32> {
    match listed {
        Some(v) => v.map_values(|p: u64| p as u32),
        None => match single {
            Some(p) => seq![p as u32],
            None => seq![4000u32],
        },
    }
}

/// The container ports of an instance configuration. `listed` holds the
/// numbers of an `internal_ports` array; each is taken as a `u32`.
pub fn internal_ports_of(listed: &Option<Vec<u64>>, single: Option<u64>) -> (r: Vec<u32>)
    ensures
        r@ == internal_ports_spec(match listed { Some(v) => Some(v@), None => None }, single),
{
    match listed {
        Some(v) => {
            let mut out: Vec<u32> = Vec::new();
            let mut i: usize = 0;
            while i < v.len()
                invariant
                    i <= v@.len(),
                    out@ == v@.take(i as int).map_values(|p: u64| p as u32),
                decreases v@.len() - i,
            {
                out.push(v[i] as u32);
                assert(out@ =~= v@.take(i + 1).map_values(|p: u64| p as u32));
                i = i + 1;
            }
            assert(v@.take(v@.len() as int) =~= v@);
            out
        },
        None => match single {
            Some(p) => vec![p as u32],
            None => vec![4000u32],
        },
    }
}

/// How many host ports to reserve: one per container port, at least one.
pub fn port_count(internal_ports: &Vec<u32>) -> (r: usize)
    ensures
        r == if internal_ports@.len() == 0 { 1 } else { internal_ports@.len() },
{
    if internal_ports.len() == 0 {
        1
    } else {
        internal_ports.len()
    }
}

/// Host ports paired with container ports, as far as both lists go.
pub open spec fn paired(host: Seq<u16>, internal: Seq<u32>) -> Seq<(u16, u32)> {
    let n = if host.len() <= internal.len() { host.len() } else { internal.len() };
    Seq::new(n, |j: int| (host[j], internal[j]))
}

/// Pairs each host port with the container port at the same position.
pub fn pair_ports(host_ports: &[u16], internal_ports: &[u32]) -> (r: Vec<(u16, u32)>)
    ensures
        r@ == paired(host_ports@, internal_ports@),
{
    let n = if host_ports.len() <= internal_ports.len() {
        host_ports.len()
    } else {
        internal_ports.len()
    };
    let mut out: Vec<(u16, u32)> = Vec::new();
    let mut i: usize = 0;
    while i < n
        invariant
            n <= host_ports@.len(),
            n <= internal_ports@.len(),
            n == if host_ports@.len() <= internal_ports@.len() { host_ports@.len() } else { internal_ports@.len() },
            i <= n,
            out@ == paired(host_ports@, internal_ports@).take(i as int),
        decreases n - i,
    {
        out.push((host_ports[i], internal_ports[i]));
        assert(out@ =~= paired(host_ports@, internal_ports@).take(i + 1));
        i = i + 1;
    }
    assert(paired(host_ports@, internal_ports@).take(n as int) =~= paired(host_ports@, internal_ports@));
    out
}

/// The image a Docker instance runs: the tag recorded at build time, else
/// `<sanitized name>:latest`.
pub fn image_tag_or_default(stored: Option<String>, challenge_name: &str) -> (r: String)
    ensures
        r@ == match stored {
            Some(t) => t@,
            None => sanitized(challenge_name@) + ":latest"@,
        },
{
    match stored {
        Some(t) => t,
        None => {
            let mut t = sanitize_name(challenge_name);
            t.append(":latest");
            t
        },
    }
}

/// Where a Docker instance's flag file is written on the host.
pub open spec fn flag_host_path(container_name: Seq<char>) -> Seq<char> {
    "/tmp/ctf-flags/"@ + container_name + ".flag"@
}

/// How a flag reaches a Docker container: environment variables and
/// `(host path, container path)` bind mounts.
pub struct FlagInjection {
    pub env_vars: Vec<(String, String)>,
    pub volumes: Vec<(String, String)>,
}

/// The delivery is `file` (the default is `env`).
pub open spec fn delivers_by_file(delivery: Option<Seq<char>>) -> bool {
    delivery == Some("file"@)
}

/// The environment variables and mounts that hand `flag` to a Docker
/// container: a `FLAG` variable, or, for `file` delivery with a container
/// path, a read of the host flag file mounted at that path.
pub fn docker_flag_injection(
    flag: Option<&str>,
    delivery: Option<&str>,
    file_path: Option<&str>,
    container_name: &str,
) -> (r: FlagInjection)
    ensures
        flag is None ==> r.env_vars@.len() == 0 && r.volumes@.len() == 0,
        flag is Some && delivers_by_file(match delivery { Some(d) => Some(d@), None => None }) ==> {
            &&& r.env_vars@.len() == 0
            &&& file_path is None ==> r.volumes@.len() == 0
            &&& file_path is Some ==> r.volumes@.len() == 1 && r.volumes@[0].0@ == flag_host_path(
                container_name@) && r.volumes@[0].1@ == file_path->0@
        },
        flag is Some && !delivers_by_file(match delivery { Some(d) => Some(d@), None => None }) ==> {
            &&& r.volumes@.len() == 0
            &&& r.env_vars@.len() == 1
            &&& r.env_vars@[0].0@ == "FLAG"@
            &&& r.env_vars@[0].1@ == flag->0@
        },
{
    let mut env_vars: Vec<(String, String)> = Vec::new();
    let mut volumes: Vec<(String, String)> = Vec::new();
    if let Some(f) = flag {
        let by_file = match delivery {
            Some(d) => eq_str(d, "file"),
            None => false,
        };
        if by_file {
            if let Some(container_path) = file_path {
                let mut host = String::from_str("/tmp/ctf-flags/");
                host.append(container_name);
                host.append(".flag");
                volumes.push((host, String::from_str(container_path)));
            }
        } else {
            env_vars.push((String::from_str("FLAG"), String::from_str(f)));
        }
    }
    FlagInjection { env_vars, volumes }
}

/// `s.trim_end_matches('/')`.
pub open spec fn trim_end_slashes(s: Seq<char>) -> Seq<char>
    decreases s.len(),
{
    if s.len() > 0 && s.last() == '/' {
        trim_end_slashes(s.drop_last())
    } else {
        s
    }
}

/// `s.trim_end_matches('/')`.
pub fn strip_end_slashes(s: &str) -> (r: &str)
    ensures
        r@ == trim_end_slashes(s@),
{
    let n = s.unicode_len();
    let mut k = n;
    assert(s@.take(n as int) =~= s@);
    while k > 0 && s.get_char(k - 1) == '/'
        invariant
            n == s@.len(),
            k <= n,
            trim_end_slashes(s@) == trim_end_slashes(s@.take(k as int)),
        decreases k,
    {
        assert(s@.take(k as int).drop_last() =~= s@.take(k - 1));
        k = k - 1;
    }
    assert(trim_end_slashes(s@.take(k as int)) == s@.take(k as int));
    s.substring_char(0, k)
}

/// The server-side directory of a challenge's files:
/// `<base without trailing slashes>/<sanitized name>`.
pub open spec fn challenge_dir_of(base: Seq<char>, challenge_name: Seq<char>) -> Seq<char> {
    trim_end_slashes(base) + "/"@ + sanitized(challenge_name)
}

/// The directory a challenge's build context is extracted to.
pub fn challenge_dir(base: &str, challenge_name: &str) -> (r: String)
    ensures
        r@ == challenge_dir_of(base@, challenge_name@),
{
    let mut out = String::from_str(strip_end_slashes(base));
    out.append("/");
    let s = sanitize_name(challenge_name);
    out.append(s.as_str());
    out
}

/// The compose file of a challenge: an absolute `compose_file` as given,
/// otherwise that file (`docker-compose.yml` by default) inside the
/// challenge's directory under `base`.
pub open spec fn compose_path_of(compose_file: Option<Seq<char>>, base: Seq<char>, challenge_name: Seq<char>) -> Seq<char> {
    let f = match compose_file {
        Some(f) => f,
        None => "docker-compose.yml"@,
    };
    if f.len() > 0 && f[0] == '/' {
        f
    } else {
        challenge_dir_of(base, challenge_name) + "/"@ + f
    }
}

/// Resolves the compose file of a challenge.
pub fn compose_path(compose_file: Option<&str>, base: &str, challenge_name: &str) -> (r: String)
    ensures
        r@ == compose_path_of(match compose_file { Some(f) => Some(f@), None => None }, base@, challenge_name@),
{
    let f = match compose_file {
        Some(f) => f,
        None => "docker-compose.yml",
    };
    proof {
        reveal_strlit("docker-compose.yml");
    }
    if f.unicode_len() > 0 && f.get_char(0) == '/' {
        String::from_str(f)
    } else {
        let mut out = challenge_dir(base, challenge_name);
        out.append("/");
        out.append(f);
        out
    }
}

/// Number of container ports over all compose services.
pub open spec fn service_port_total(services: Seq<(String, Vec<u32>)>) -> nat
    decreases services.len(),
{
    if services.len() == 0 {
        0
    } else {
        service_port_total(services.drop_last()) + services.last().1@.len()
    }
}

proof fn lemma_service_total_prefix(services: Seq<(String, Vec<u32>)>, i: int)
    requires
        0 <= i <= services.len(),
    ensures
        service_port_total(services.take(i)) <= service_port_total(services),
    decreases services.len(),
{
    if i < services.len() {
        assert(services.drop_last().take(i) =~= services.take(i));
        lemma_service_total_prefix(services.drop_last(), i);
    } else {
        assert(services.take(i) =~= services);
    }
}

/// How many host ports a multi-service compose instance reserves: one per
/// container port over all services, at least one.
pub fn total_service_ports(services: &Vec<(String, Vec<u32>)>) -> (r: usize)
    requires
        service_port_total(services@) <= usize::MAX,
    ensures
        r == if service_port_total(services@) == 0 { 1 } else { service_port_total(services@) },
{
    let mut total: usize = 0;
    let mut i: usize = 0;
    while i < services.len()
        invariant
            i <= services@.len(),
            service_port_total(services@) <= usize::MAX,
            total == service_port_total(services@.take(i as int)),
        decreases services@.len() - i,
    {
        proof {
            assert(services@.take(i + 1).drop_last() =~= services@.take(i as int));
            lemma_service_total_prefix(services@, i + 1);
        }
        total = total + services[i].1.len();
        i = i + 1;
    }
    assert(services@.take(services@.len() as int) =~= services@);
    if total == 0 {
        1
    } else {
        total
    }
}

/// The host-to-container port pairs of each service, in order: each service
/// takes the next host ports, one per container port.
pub open spec fn service_pairs(services: Seq<(String, Vec<u32>)>, hosts: Seq<u16>) -> Seq<Seq<(u16, u32)>>
    decreases services.len(),
{
    if services.len() == 0 {
        seq![]
    } else {
        let prev = service_pairs(services.drop_last(), hosts);
        let off = service_port_total(services.drop_last()) as int;
        let ports = services.last().1@;
        prev.push(Seq::new(ports.len(), |j: int| (hosts[off + j], ports[j])))
    }
}

/// Index of the first service named `name`, or the number of services.
pub open spec fn service_index(services: Seq<(String, Vec<u32>)>, name: Seq<char>) -> nat
    decreases services.len(),
{
    if services.len() == 0 {
        0
    } else if services[0].0@ == name {
        0
    } else {
        1 + service_index(services.drop_first(), name)
    }
}

/// The service whose first host port players connect to: the configured
/// `compose_service` when it is set and present, else the first service,
/// else `app`.
pub open spec fn primary_service(services: Seq<(String, Vec<u32>)>, compose_service: Seq<char>) -> Seq<char> {
    if compose_service.len() > 0 && service_index(services, compose_service) < services.len() {
        compose_service
    } else if services.len() > 0 {
        services[0].0@
    } else {
        "app"@
    }
}

/// Ports shared out among the services of a compose instance.
pub struct ServicePorts {
    pub services: Vec<(String, Vec<(u16, u32)>)>,
    pub primary: String,
    pub host_port: u16,
    pub all_pairs: Vec<(u16, u32)>,
}

/// The port pairs of a list of services, concatenated.
pub open spec fn flatten_pairs(groups: Seq<Seq<(u16, u32)>>) -> Seq<(u16, u32)>
    decreases groups.len(),
{
    if groups.len() == 0 {
        seq![]
    } else {
        flatten_pairs(groups.drop_last()) + groups.last()
    }
}

/// The message when the primary service has no port to publish.
pub open spec fn no_primary_port_message(primary: Seq<char>) -> Seq<char> {
    "service_ports: primary service '"@ + primary + "' has no ports"@
}

proof fn lemma_service_index(services: Seq<(String, Vec<u32>)>, name: Seq<char>, k: int)
    requires
        0 <= k <= services.len(),
        forall|j: int| 0 <= j < k ==> (#[trigger] services[j]).0@ != name,
        k == services.len() || services[k].0@ == name,
    ensures
        service_index(services, name) == k,
    decreases k,
{
    if k > 0 {
        assert forall|j: int| 0 <= j < k - 1 implies (#[trigger] services.drop_first()[j]).0@ != name by {
            assert(services.drop_first()[j] == services[j + 1]);
        }
        lemma_service_index(services.drop_first(), name, k - 1);
    }
}

/// Shares `host_ports` out among the compose services in order, picks the
/// primary service, and returns its first host port. Fails when the
/// primary service has no ports.
pub fn allocate_service_ports(
    services: &Vec<(String, Vec<u32>)>,
    compose_service: &str,
    host_ports: &Vec<u16>,
) -> (r: Result<ServicePorts, String>)
    requires
        service_port_total(services@) <= host_ports@.len(),
    ensures
        ({
            let groups = service_pairs(services@, host_ports@);
            let primary = primary_service(services@, compose_service@);
            let k = service_index(services@, primary);
            match r {
                Ok(sp) => {
                    &&& k < services@.len()
                    &&& groups[k as int].len() > 0
                    &&& sp.primary@ == primary
                    &&& sp.host_port == groups[k as int][0].0
                    &&& sp.all_pairs@ == flatten_pairs(groups)
                    &&& sp.services@.len() == services@.len()
                    &&& forall|j: int| 0 <= j < services@.len() ==> (#[trigger] sp.services@[j]).0@
                        == services@[j].0@ && sp.services@[j].1@ == groups[j]
                },
                Err(e) => (k >= services@.len() || groups[k as int].len() == 0)
                    && e@ == no_primary_port_message(primary),
            }
        }),
{
    let ghost groups = service_pairs(services@, host_ports@);
    let hlen = host_ports.len();
    let mut out: Vec<(String, Vec<(u16, u32)>)> = Vec::new();
    let mut all: Vec<(u16, u32)> = Vec::new();
    let mut offset: usize = 0;
    let mut i: usize = 0;
    while i < services.len()
        invariant
            i <= services@.len(),
            hlen == host_ports@.len(),
            service_port_total(services@) <= host_ports@.len(),
            groups == service_pairs(services@, host_ports@),
            offset == service_port_total(services@.take(i as int)),
            out@.len() == i,
            forall|j: int| 0 <= j < i ==> (#[trigger] out@[j]).0@ == services@[j].0@ && out@[j].1@
                == service_pairs(services@.take(i as int), host_ports@)[j],
            service_pairs(services@.take(i as int), host_ports@).len() == i,
            all@ == flatten_pairs(service_pairs(services@.take(i as int), host_ports@)),
        decreases services@.len() - i,
    {
        let ghost pre = services@.take(i as int);
        let ghost next = services@.take(i + 1);
        proof {
            assert(next.drop_last() =~= pre);
            assert(next.last() == services@[i as int]);
            lemma_service_total_prefix(services@, i + 1);
        }
        let ports = &services[i].1;
        let n = ports.len();
        assert(service_port_total(next) == offset + n);
        let ghost all_before = all@;
        let mut pairs: Vec<(u16, u32)> = Vec::new();
        let mut j: usize = 0;
        while j < n
            invariant
                n == ports@.len(),
                hlen == host_ports@.len(),
                offset + n <= host_ports@.len(),
                j <= n,
                pairs@ == Seq::new(j as nat, |t: int| (host_ports@[offset + t], ports@[t])),
                all@ == all_before + pairs@,
            decreases n - j,
        {
            let pair = (host_ports[offset + j], ports[j]);
            pairs.push(pair);
            all.push(pair);
            assert(pairs@ =~= Seq::new((j + 1) as nat, |t: int| (host_ports@[offset + t], ports@[t])));
            j = j + 1;
        }
        let ghost g = Seq::new(n as nat, |t: int| (host_ports@[offset + t], ports@[t]));
        assert(pairs@ =~= g);
        assert(service_pairs(next, host_ports@) == service_pairs(pre, host_ports@).push(g));
        assert(service_pairs(next, host_ports@).drop_last() =~= service_pairs(pre, host_ports@));
        assert(service_pairs(next, host_ports@).last() == g);
        assert(flatten_pairs(service_pairs(next, host_ports@)) =~= all_before + g);
        out.push((services[i].0.clone(), pairs));
        offset = offset + n;
        i = i + 1;
        proof {
            assert forall|t: int| 0 <= t < i implies (#[trigger] out@[t]).0@ == services@[t].0@
                && out@[t].1@ == service_pairs(services@.take(i as int), host_ports@)[t] by {
                assert(services@.take(i as int) =~= next);
            }
            assert(services@.take(i as int) =~= next);
        }
    }
    proof {
        assert(services@.take(services@.len() as int) =~= services@);
    }
    let nonempty_choice = compose_service.unicode_len() > 0;
    let mut k: usize = 0;
    while k < services.len() && !eq_str(services[k].0.as_str(), compose_service)
        invariant
            k <= services@.len(),
            forall|j: int| 0 <= j < k ==> (#[trigger] services@[j]).0@ != compose_service@,
        decreases services@.len() - k,
    {
        k = k + 1;
    }
    proof {
        lemma_service_index(services@, compose_service@, k as int);
    }
    let idx: usize = if nonempty_choice && k < services.len() { k } else { 0 };
    let primary: String = if nonempty_choice && k < services.len() {
        String::from_str(compose_service)
    } else if services.len() > 0 {
        services[0].0.clone()
    } else {
        String::from_str("app")
    };
    proof {
        let p = primary_service(services@, compose_service@);
        if services@.len() > 0 && !(nonempty_choice && k < services@.len()) {
            lemma_service_index(services@, services@[0].0@, 0);
        }
    }
    if idx < out.len() && out[idx].1.len() > 0 {
        let host_port = out[idx].1[0].0;
        Ok(ServicePorts { services: out, primary, host_port, all_pairs: all })
    } else {
        let mut e = String::from_str("service_ports: primary service '");
        e.append(primary.as_str());
        e.append("' has no ports");
        Err(e)
    }
}

/// The compose services take the host ports in order, one each: the
/// `k`-th published pair uses the `k`-th host port, so distinct host ports
/// are never shared between two container ports.
pub proof fn law_host_ports_in_order(services: Seq<(String, Vec<u32>)>, hosts: Seq<u16>)
    ensures
        flatten_pairs(service_pairs(services, hosts)).len() == service_port_total(services),
        forall|k: int| 0 <= k < service_port_total(services) ==>
            (#[trigger] flatten_pairs(service_pairs(services, hosts))[k]).0 == hosts[k],
    decreases services.len(),
{
    if services.len() > 0 {
        let prev = services.drop_last();
        law_host_ports_in_order(prev, hosts);
        let groups = service_pairs(services, hosts);
        let before = service_pairs(prev, hosts);
        assert(groups.drop_last() =~= before);
        let f = flatten_pairs(groups);
        let fp = flatten_pairs(before);
        let off = service_port_total(prev) as int;
        assert(f == fp + groups.last());
        assert forall|k: int| 0 <= k < service_port_total(services) implies (#[trigger] f[k]).0 == hosts[k] by {
            if k >= off {
                assert(f[k] == groups.last()[k - off]);
            } else {
                assert(f[k] == fp[k]);
            }
        }
    }
}

/// With distinct host ports to share out, no two published pairs share a
/// host port.
pub proof fn law_no_shared_host_port(services: Seq<(String, Vec<u32>)>, hosts: Seq<u16>)
    requires
        service_port_total(services) <= hosts.len(),
        forall|a: int, b: int| 0 <= a < b < hosts.len() ==> hosts[a] != hosts[b],
    ensures
        forall|a: int, b: int| 0 <= a < b < flatten_pairs(service_pairs(services, hosts)).len() ==>
            (#[trigger] flatten_pairs(service_pairs(services, hosts))[a]).0
                != (#[trigger] flatten_pairs(service_pairs(services, hosts))[b]).0,
{
    law_host_ports_in_order(services, hosts);
}

} // verus!
