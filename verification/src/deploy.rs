//! The decisions of `nervctf deploy`: which local challenges to create,
//! update or leave alone, what follow-up work each needs, and how
//! prerequisite and `next` names resolve to remote challenge ids.
use vstd::prelude::*;
use crate::models::{Challenge, ChallengeType, InstanceBackend, State, strs};
use crate::paths::{path_join, spec_path_join};
use crate::server::{trim, trim_str};
use crate::sync::{needs_update, spec_needs_update};
use crate::text::{digits_value, eq_str, is_blank, is_blank_str, parse_u32, parses_as_u32, spec_to_lowercase, to_lowercase, unsigned_digits};

verus! {

/// Index of the remote challenge a local challenge named `name` is matched
/// with: the last remote one of that name.
pub open spec fn remote_match(remotes: Seq<Challenge>, name: Seq<char>) -> Option<int>
    decreases remotes.len(),
{
    if remotes.len() == 0 {
        None
    } else if remotes.last().name@ == name {
        Some(remotes.len() - 1)
    } else {
        remote_match(remotes.drop_last(), name)
    }
}

/// The local challenge `i` differs from its remote counterpart.
pub open spec fn is_stale(locals: Seq<Challenge>, remotes: Seq<Challenge>, i: int) -> bool {
    match remote_match(remotes, locals[i].name@) {
        Some(k) => spec_needs_update(remotes[k], locals[i]),
        None => false,
    }
}

/// The local challenge `i` must be updated but its remote counterpart
/// carries no id.
pub open spec fn lacks_remote_id(locals: Seq<Challenge>, remotes: Seq<Challenge>, i: int) -> bool {
    is_stale(locals, remotes, i) && remotes[remote_match(remotes, locals[i].name@)->0].id is None
}

/// Local challenges among the first `n` with no remote counterpart.
pub open spec fn creates(locals: Seq<Challenge>, remotes: Seq<Challenge>, n: int) -> Seq<int>
    decreases n,
{
    if n <= 0 {
        seq![]
    } else if remote_match(remotes, locals[n - 1].name@) is None {
        creates(locals, remotes, n - 1).push(n - 1)
    } else {
        creates(locals, remotes, n - 1)
    }
}

/// Local challenges among the first `n` to update, with the remote id.
pub open spec fn updates(locals: Seq<Challenge>, remotes: Seq<Challenge>, n: int) -> Seq<(int, u32)>
    decreases n,
{
    if n <= 0 {
        seq![]
    } else if is_stale(locals, remotes, n - 1) {
        updates(locals, remotes, n - 1).push(
            (n - 1, remotes[remote_match(remotes, locals[n - 1].name@)->0].id->0),
        )
    } else {
        updates(locals, remotes, n - 1)
    }
}

/// Local challenges among the first `n` that match their remote one.
pub open spec fn fresh(locals: Seq<Challenge>, remotes: Seq<Challenge>, n: int) -> Seq<int>
    decreases n,
{
    if n <= 0 {
        seq![]
    } else if remote_match(remotes, locals[n - 1].name@) is Some && !is_stale(locals, remotes, n - 1) {
        fresh(locals, remotes, n - 1).push(n - 1)
    } else {
        fresh(locals, remotes, n - 1)
    }
}

/// The first local challenge (below `n`) that must be updated but whose
/// remote counterpart has no id.
pub open spec fn first_lacking_id(locals: Seq<Challenge>, remotes: Seq<Challenge>, n: int) -> Option<int>
    decreases n,
{
    if n <= 0 {
        None
    } else {
        match first_lacking_id(locals, remotes, n - 1) {
            Some(i) => Some(i),
            None => if lacks_remote_id(locals, remotes, n - 1) {
                Some(n - 1)
            } else {
                None
            },
        }
    }
}

/// What `deploy` does with each local challenge, by index into the local
/// list: create it, update the remote challenge with the given id, or
/// leave it as it is.
pub struct DeployPlan {
    pub to_create: Vec<usize>,
    pub to_update: Vec<(usize, u32)>,
    pub up_to_date: Vec<usize>,
}

/// Why a deploy plan could not be made.
pub enum DeployError {
    /// The remote challenge of this name must be updated but has no id.
    MissingRemoteId(String),
}

pub open spec fn as_ints(v: Seq<usize>) -> Seq<int> {
    v.map_values(|i: usize| i as int)
}

pub open spec fn as_int_pairs(v: Seq<(usize, u32)>) -> Seq<(int, u32)> {
    v.map_values(|p: (usize, u32)| (p.0 as int, p.1))
}

/// The remote challenge matched with a local challenge named `name`.
fn find_remote(remotes: &[Challenge], name: &str) -> (r: Option<usize>)
    ensures
        match r {
            Some(k) => remote_match(remotes@, name@) == Some(k as int) && k < remotes@.len(),
            None => remote_match(remotes@, name@) is None,
        },
{
    let mut k = remotes.len();
    assert(remotes@.take(k as int) =~= remotes@);
    while k > 0
        invariant
            k <= remotes@.len(),
            remote_match(remotes@, name@) == remote_match(remotes@.take(k as int), name@),
        decreases k,
    {
        let ghost pre = remotes@.take(k as int);
        assert(pre.drop_last() =~= remotes@.take(k - 1));
        assert(pre.last() == remotes@[k - 1]);
        if eq_str(remotes[k - 1].name.as_str(), name) {
            return Some(k - 1);
        }
        k = k - 1;
    }
    None
}

/// Sorts the local challenges into those to create, to update and to leave
/// alone, matching each with the last remote challenge of its name. Fails
/// on the first challenge that must be updated when its remote counterpart
/// has no id.
pub fn plan_deploy(locals: &[Challenge], remotes: &[Challenge]) -> (r: Result<DeployPlan, DeployError>)
    ensures
        match r {
            Ok(p) => {
                &&& first_lacking_id(locals@, remotes@, locals@.len() as int) is None
                &&& as_ints(p.to_create@) == creates(locals@, remotes@, locals@.len() as int)
                &&& as_int_pairs(p.to_update@) == updates(locals@, remotes@, locals@.len() as int)
                &&& as_ints(p.up_to_date@) == fresh(locals@, remotes@, locals@.len() as int)
            },
            Err(DeployError::MissingRemoteId(name)) => {
                &&& first_lacking_id(locals@, remotes@, locals@.len() as int) is Some
                &&& name@ == locals@[first_lacking_id(locals@, remotes@, locals@.len() as int)->0].name@
            },
        },
{
    let mut to_create: Vec<usize> = Vec::new();
    let mut to_update: Vec<(usize, u32)> = Vec::new();
    let mut up_to_date: Vec<usize> = Vec::new();
    let mut i: usize = 0;
    while i < locals.len()
        invariant
            i <= locals@.len(),
            first_lacking_id(locals@, remotes@, i as int) is None,
            as_ints(to_create@) == creates(locals@, remotes@, i as int),
            as_int_pairs(to_update@) == updates(locals@, remotes@, i as int),
            as_ints(up_to_date@) == fresh(locals@, remotes@, i as int),
        decreases locals@.len() - i,
    {
        let local = &locals[i];
        match find_remote(remotes, local.name.as_str()) {
            Some(k) => {
                if needs_update(&remotes[k], local) {
                    match remotes[k].id {
                        Some(id) => {
                            to_update.push((i, id));
                            assert(as_int_pairs(to_update@) =~= updates(locals@, remotes@, i + 1));
                        },
                        None => {
                            proof {
                                assert(first_lacking_id(locals@, remotes@, i + 1) == Some(i as int));
                                lemma_first_lacking_stays(locals@, remotes@, i + 1, locals@.len() as int);
                            }
                            return Err(DeployError::MissingRemoteId(local.name.clone()));
                        },
                    }
                } else {
                    up_to_date.push(i);
                    assert(as_ints(up_to_date@) =~= fresh(locals@, remotes@, i + 1));
                }
            },
            None => {
                to_create.push(i);
                assert(as_ints(to_create@) =~= creates(locals@, remotes@, i + 1));
            },
        }
        i = i + 1;
    }
    Ok(DeployPlan { to_create, to_update, up_to_date })
}

proof fn lemma_first_lacking_stays(locals: Seq<Challenge>, remotes: Seq<Challenge>, m: int, n: int)
    requires
        0 <= m <= n,
        first_lacking_id(locals, remotes, m) is Some,
    ensures
        first_lacking_id(locals, remotes, n) == first_lacking_id(locals, remotes, m),
    decreases n - m,
{
    if m < n {
        lemma_first_lacking_stays(locals, remotes, m, n - 1);
    }
}

/// The answer to `Proceed? (y/N)` agrees: trimmed and lowercased, it is `y`.
pub open spec fn confirms(input: Seq<char>) -> bool {
    spec_to_lowercase(trim(input)) == "y"@
}

/// Whether the typed answer confirms the deploy.
pub fn is_confirmation(input: &str) -> (r: bool)
    ensures
        r == confirms(input@),
{
    let t = trim_str(input);
    let lower = to_lowercase(t);
    eq_str(lower.as_str(), "y")
}

/// The id of the last remote challenge named `name` that has one (the
/// name-to-id map built from the remote list).
pub open spec fn remote_id_of(remotes: Seq<Challenge>, name: Seq<char>) -> Option<u32>
    decreases remotes.len(),
{
    if remotes.len() == 0 {
        None
    } else if remotes.last().name@ == name && remotes.last().id is Some {
        remotes.last().id
    } else {
        remote_id_of(remotes.drop_last(), name)
    }
}

/// Looks a remote challenge id up by name.
pub fn lookup_remote_id(remotes: &[Challenge], name: &str) -> (r: Option<u32>)
    ensures
        r == remote_id_of(remotes@, name@),
{
    let mut k = remotes.len();
    assert(remotes@.take(k as int) =~= remotes@);
    while k > 0
        invariant
            k <= remotes@.len(),
            remote_id_of(remotes@, name@) == remote_id_of(remotes@.take(k as int), name@),
        decreases k,
    {
        let ghost pre = remotes@.take(k as int);
        assert(pre.drop_last() =~= remotes@.take(k - 1));
        assert(pre.last() == remotes@[k - 1]);
        if remotes[k - 1].id.is_some() && eq_str(remotes[k - 1].name.as_str(), name) {
            return remotes[k - 1].id;
        }
        k = k - 1;
    }
    assert(remotes@.take(0) =~= Seq::<Challenge>::empty());
    None
}

/// The remote ids of the prerequisites named by the first `n` names: a
/// blank name is skipped, a number is an id, any other name is looked up;
/// the names not found on the remote are listed second.
pub open spec fn prereq_resolution(names: Seq<Seq<char>>, remotes: Seq<Challenge>, n: int) -> (Seq<u32>, Seq<Seq<char>>)
    decreases n,
{
    if n <= 0 {
        (seq![], seq![])
    } else {
        let (ids, missing) = prereq_resolution(names, remotes, n - 1);
        let req = names[n - 1];
        if is_blank(req) {
            (ids, missing)
        } else if parses_as_u32(req) {
            (ids.push(digits_value(unsigned_digits(req)) as u32), missing)
        } else {
            match remote_id_of(remotes, req) {
                Some(id) => (ids.push(id), missing),
                None => (ids, missing.push(req)),
            }
        }
    }
}

/// Resolves prerequisite names to remote ids, and lists the names that are
/// not found on the remote.
pub fn resolve_prereq_ids(names: &Vec<String>, remotes: &[Challenge]) -> (r: (Vec<u32>, Vec<String>))
    ensures
        (r.0@, strs(r.1@)) == prereq_resolution(strs(names@), remotes@, names@.len() as int),
{
    let mut ids: Vec<u32> = Vec::new();
    let mut missing: Vec<String> = Vec::new();
    let mut i: usize = 0;
    while i < names.len()
        invariant
            i <= names@.len(),
            (ids@, strs(missing@)) == prereq_resolution(strs(names@), remotes@, i as int),
        decreases names@.len() - i,
    {
        let req = names[i].as_str();
        assert(strs(names@)[i as int] == req@);
        if !is_blank_str(req) {
            match parse_u32(req) {
                Some(id) => {
                    ids.push(id);
                },
                None => {
                    match lookup_remote_id(remotes, req) {
                        Some(id) => {
                            ids.push(id);
                        },
                        None => {
                            let ghost before = strs(missing@);
                            missing.push(names[i].clone());
                            assert(strs(missing@) =~= before.push(req@));
                        },
                    }
                },
            }
        }
        i = i + 1;
    }
    (ids, missing)
}

/// The CTFd challenge type for a challenge kind.
pub open spec fn ctfd_type_name(t: ChallengeType) -> Seq<char> {
    match t {
        ChallengeType::Instance => "instance"@,
        ChallengeType::Dynamic => "dynamic"@,
        ChallengeType::Standard => "standard"@,
    }
}

/// The CTFd challenge type and the description to send (empty when none).
pub fn resolve_challenge_type_and_description(challenge: &Challenge) -> (r: (String, String))
    ensures
        r.0@ == ctfd_type_name(challenge.challenge_type),
        r.1@ == match challenge.description {
            Some(d) => d@,
            None => Seq::<char>::empty(),
        },
{
    let desc = match &challenge.description {
        Some(d) => d.clone(),
        None => String::new(),
    };
    let t = match challenge.challenge_type {
        ChallengeType::Instance => String::from_str("instance"),
        ChallengeType::Dynamic => String::from_str("dynamic"),
        ChallengeType::Standard => String::from_str("standard"),
    };
    (t, desc)
}

/// The state sent to CTFd: `visible` unless the challenge is hidden.
pub fn state_name(state: &Option<State>) -> (r: &'static str)
    ensures
        r@ == match state {
            Some(State::Hidden) => "hidden"@,
            _ => "visible"@,
        },
{
    match state {
        Some(State::Hidden) => "hidden",
        _ => "visible",
    }
}

/// The scoring fields of `extra` go into the CTFd payload: for dynamic
/// challenges, and for instance challenges that set an initial value.
pub fn merges_extra_fields(challenge: &Challenge) -> (r: bool)
    ensures
        r == match challenge.extra {
            Some(e) => challenge.challenge_type == ChallengeType::Dynamic || (challenge.challenge_type
                == ChallengeType::Instance && e.initial is Some),
            None => false,
        },
{
    match &challenge.extra {
        Some(e) => match challenge.challenge_type {
            ChallengeType::Dynamic => true,
            ChallengeType::Instance => e.initial.is_some(),
            ChallengeType::Standard => false,
        },
        None => false,
    }
}

/// Files to upload for a challenge once it exists remotely.
pub struct FileUploadJob {
    pub challenge_id: u32,
    pub source_path: String,
    pub files: Vec<String>,
}

/// Prerequisites to set once every challenge exists remotely.
pub struct ReqJob {
    pub challenge_id: u32,
    pub prereq_names: Vec<String>,
}

/// A `next` pointer to set once every challenge exists remotely.
pub struct NextJob {
    pub challenge_id: u32,
    pub next_name: String,
}

/// A copy of a list of strings.
pub fn copy_strings(v: &Vec<String>) -> (r: Vec<String>)
    ensures
        strs(r@) == strs(v@),
{
    let mut out: Vec<String> = Vec::new();
    let mut i: usize = 0;
    while i < v.len()
        invariant
            i <= v@.len(),
            strs(out@) == strs(v@).take(i as int),
        decreases v@.len() - i,
    {
        let ghost before = out@;
        out.push(v[i].clone());
        assert(out@ == before.push(v@[i as int]));
        assert(strs(out@) =~= strs(before).push(v@[i as int]@));
        assert(strs(v@).take(i + 1) =~= strs(v@).take(i as int).push(v@[i as int]@));
        i = i + 1;
    }
    assert(strs(v@).take(v@.len() as int) =~= strs(v@));
    out
}

/// The follow-up work for a challenge whose core was written under `id`:
/// its files, its prerequisites and its `next` pointer, each when present.
pub fn follow_up_jobs(
    local: &Challenge,
    id: u32,
    has_files: bool,
    has_reqs: bool,
    next: Option<String>,
) -> (r: (Option<FileUploadJob>, Option<ReqJob>, Option<NextJob>))
    requires
        has_reqs ==> local.requirements is Some,
    ensures
        has_files <==> r.0 is Some,
        has_files ==> r.0->0.challenge_id == id && r.0->0.source_path@ == local.source_path@
            && strs(r.0->0.files@) == match local.files {
                Some(f) => strs(f@),
                None => Seq::<Seq<char>>::empty(),
            },
        has_reqs <==> r.1 is Some,
        has_reqs ==> r.1->0.challenge_id == id && strs(r.1->0.prereq_names@)
            == local.requirements->0.names(),
        next is Some <==> r.2 is Some,
        next is Some ==> r.2->0.challenge_id == id && r.2->0.next_name@ == next->0@,
{
    let files_job = if has_files {
        let files: Vec<String> = match &local.files {
            Some(f) => copy_strings(f),
            None => Vec::new(),
        };
        Some(FileUploadJob { challenge_id: id, source_path: local.source_path.clone(), files })
    } else {
        None
    };
    let req_job = if has_reqs {
        match &local.requirements {
            Some(reqs) => Some(ReqJob { challenge_id: id, prereq_names: reqs.prerequisite_names() }),
            None => None,
        }
    } else {
        None
    };
    let next_job = match next {
        Some(n) => Some(NextJob { challenge_id: id, next_name: n }),
        None => None,
    };
    (files_job, req_job, next_job)
}

/// The backend name the monitor registers an instance under.
pub fn backend_label(backend: InstanceBackend) -> (r: &'static str)
    ensures
        r@ == match backend {
            InstanceBackend::Docker => "docker"@,
            InstanceBackend::Compose => "compose"@,
            InstanceBackend::Lxc => "lxc"@,
            InstanceBackend::Vagrant => "vagrant"@,
        },
{
    match backend {
        InstanceBackend::Docker => "docker",
        InstanceBackend::Compose => "compose",
        InstanceBackend::Lxc => "lxc",
        InstanceBackend::Vagrant => "vagrant",
    }
}

/// A build context to pack and send to the monitor: the local directory and
/// the monitor endpoint that builds from it.
pub struct BuildUpload {
    pub context_dir: String,
    pub endpoint: String,
}

/// An image reference that names a local build directory.
pub open spec fn is_local_image(img: Seq<char>) -> bool {
    img == "."@ || crate::text::starts_with(img, "./"@) || crate::text::starts_with(img, "../"@)
}

/// The build context an instance challenge ships to the monitor: for a
/// compose backend with a relative compose file, the challenge directory
/// (built by `/instance/build-compose`); for a Docker backend whose image is
/// a local directory, that directory (built by `/instance/build`).
pub open spec fn build_upload_of(c: Challenge) -> Option<(Seq<char>, Seq<char>)> {
    match c.instance {
        Some(inst) => match inst.backend {
            InstanceBackend::Compose => match inst.compose_file {
                Some(cf) => if !(cf@.len() > 0 && cf@[0] == '/') {
                    Some((c.source_path@, "/instance/build-compose"@))
                } else {
                    None
                },
                None => None,
            },
            InstanceBackend::Docker => match inst.image {
                Some(img) => if is_local_image(img@) {
                    Some((if img@ == "."@ { c.source_path@ } else { spec_path_join(c.source_path@, img@) },
                        "/instance/build"@))
                } else {
                    None
                },
                None => None,
            },
            _ => None,
        },
        None => None,
    }
}

/// Decides which build context, if any, an instance challenge uploads.
pub fn build_upload(c: &Challenge) -> (r: Option<BuildUpload>)
    ensures
        match r {
            Some(u) => build_upload_of(*c) == Some((u.context_dir@, u.endpoint@)),
            None => build_upload_of(*c) is None,
        },
{
    let inst = match &c.instance {
        Some(i) => i,
        None => return None,
    };
    match inst.backend {
        InstanceBackend::Compose => match &inst.compose_file {
            Some(cf) => {
                let s = cf.as_str();
                if s.unicode_len() > 0 && s.get_char(0) == '/' {
                    None
                } else {
                    Some(BuildUpload {
                        context_dir: c.source_path.clone(),
                        endpoint: String::from_str("/instance/build-compose"),
                    })
                }
            },
            None => None,
        },
        InstanceBackend::Docker => match &inst.image {
            Some(img) => {
                let s = img.as_str();
                let dot = eq_str(s, ".");
                if dot || crate::text::starts_with_str(s, "./") || crate::text::starts_with_str(s, "../") {
                    let dir = if dot {
                        c.source_path.clone()
                    } else {
                        path_join(c.source_path.as_str(), s)
                    };
                    Some(BuildUpload { context_dir: dir, endpoint: String::from_str("/instance/build") })
                } else {
                    None
                }
            },
            None => None,
        },
        _ => None,
    }
}


/// The local indices of the updates of a plan.
pub open spec fn update_indices(u: Seq<(int, u32)>) -> Seq<int> {
    u.map_values(|p: (int, u32)| p.0)
}

/// A deploy plan accounts for every local challenge exactly once: each is
/// created, updated or left alone.
pub proof fn law_plan_covers_all(locals: Seq<Challenge>, remotes: Seq<Challenge>, n: int)
    requires
        0 <= n <= locals.len(),
    ensures
        creates(locals, remotes, n).len() + updates(locals, remotes, n).len() + fresh(locals, remotes, n).len() == n,
        forall|i: int| 0 <= i < n ==> (creates(locals, remotes, n).contains(i) || update_indices(updates(locals, remotes, n)).contains(i)
            || fresh(locals, remotes, n).contains(i)),
    decreases n,
{
    if n > 0 {
        law_plan_covers_all(locals, remotes, n - 1);
        let c = creates(locals, remotes, n - 1);
        let u = updates(locals, remotes, n - 1);
        let f = fresh(locals, remotes, n - 1);
        let c2 = creates(locals, remotes, n);
        let u2 = updates(locals, remotes, n);
        let f2 = fresh(locals, remotes, n);
        if is_stale(locals, remotes, n - 1) {
            assert(remote_match(remotes, locals[n - 1].name@) is Some);
        }
        assert forall|i: int| 0 <= i < n implies (c2.contains(i) || update_indices(u2).contains(i)
            || f2.contains(i)) by {
            if i < n - 1 {
                if c.contains(i) {
                    let k = choose|k: int| 0 <= k < c.len() && c[k] == i;
                    assert(c2[k] == i);
                } else if update_indices(u).contains(i) {
                    let k = choose|k: int| 0 <= k < u.len() && update_indices(u)[k] == i;
                    assert(update_indices(u2)[k] == i);
                } else {
                    let k = choose|k: int| 0 <= k < f.len() && f[k] == i;
                    assert(f2[k] == i);
                }
            } else {
                if remote_match(remotes, locals[n - 1].name@) is None {
                    assert(c2[c2.len() - 1] == i);
                } else if is_stale(locals, remotes, n - 1) {
                    assert(update_indices(u2)[u2.len() - 1] == i);
                } else {
                    assert(f2[f2.len() - 1] == i);
                }
            }
        }
    }
}

/// No two challenges share a name.
pub open spec fn distinct_names(cs: Seq<Challenge>) -> bool {
    forall|i: int, j: int| 0 <= i < j < cs.len() ==> cs[i].name@ != cs[j].name@
}

proof fn lemma_match_self(cs: Seq<Challenge>, i: int)
    requires
        distinct_names(cs),
        0 <= i < cs.len(),
    ensures
        remote_match(cs, cs[i].name@) == Some(i),
    decreases cs.len(),
{
    if i < cs.len() - 1 {
        let d = cs.drop_last();
        assert(d[i] == cs[i]);
        assert(cs.last().name@ != cs[i].name@);
        lemma_match_self(d, i);
    }
}

proof fn lemma_redeploy_prefix(cs: Seq<Challenge>, n: int)
    requires
        distinct_names(cs),
        0 <= n <= cs.len(),
    ensures
        creates(cs, cs, n).len() == 0,
        updates(cs, cs, n).len() == 0,
        fresh(cs, cs, n).len() == n,
    decreases n,
{
    if n > 0 {
        lemma_redeploy_prefix(cs, n - 1);
        lemma_match_self(cs, n - 1);
        crate::sync::law_needs_update_reflexive(cs[n - 1]);
    }
}

/// Deploying a catalogue over the same challenges changes nothing: with
/// distinct names, every challenge is up to date, none is created or
/// updated.
pub proof fn law_redeploy_is_noop(cs: Seq<Challenge>)
    requires
        distinct_names(cs),
    ensures
        creates(cs, cs, cs.len() as int).len() == 0,
        updates(cs, cs, cs.len() as int).len() == 0,
        fresh(cs, cs, cs.len() as int).len() == cs.len(),
{
    lemma_redeploy_prefix(cs, cs.len() as int);
}

} // verus!
