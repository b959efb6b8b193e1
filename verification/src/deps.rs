//! Sync actions and their ordering by prerequisites (Kahn's algorithm).
use vstd::prelude::*;
use vstd::multiset::Multiset;
use crate::models::{Challenge, RequirementsQueue, opt_prereq_names, strs};

verus! {

/// What deploying does with one challenge.
#[derive(Debug)]
pub enum SyncAction {
    /// The challenge exists only locally.
    Create { name: String, challenge: Challenge },
    /// The challenge exists remotely under `remote_id` and differs.
    Update { name: String, local: Challenge, remote_id: u32 },
    /// The challenge exists remotely and matches.
    UpToDate { name: String },
    /// The challenge exists only remotely.
    RemoteOnly { name: String },
}

/// Actions that change CTFd and therefore take part in ordering.
pub open spec fn sortable(a: SyncAction) -> bool {
    a is Create || a is Update
}

/// The challenge name an action is about.
pub open spec fn action_name(a: SyncAction) -> Seq<char> {
    match a {
        SyncAction::Create { name, .. } => name@,
        SyncAction::Update { name, .. } => name@,
        SyncAction::UpToDate { name } => name@,
        SyncAction::RemoteOnly { name } => name@,
    }
}

/// The prerequisite names of the challenge an action deploys.
pub open spec fn action_reqs(a: SyncAction) -> Seq<Seq<char>> {
    match a {
        SyncAction::Create { challenge, .. } => opt_prereq_names(challenge.requirements),
        SyncAction::Update { local, .. } => opt_prereq_names(local.requirements),
        _ => seq![],
    }
}

/// The actions that do not change CTFd, in their original order.
pub open spec fn passive(s: Seq<SyncAction>) -> Seq<SyncAction>
    decreases s.len(),
{
    if s.len() == 0 {
        seq![]
    } else if sortable(s.last()) {
        passive(s.drop_last())
    } else {
        passive(s.drop_last()).push(s.last())
    }
}

/// Some action of `o` before position `t` is named `n`.
pub open spec fn named_before(o: Seq<SyncAction>, t: int, n: Seq<char>) -> bool {
    exists|u: int| #![trigger o[u]] 0 <= u < t && action_name(o[u]) == n
}

/// Some create or update of `s` is about `n`.
pub open spec fn carried(s: Seq<SyncAction>, n: Seq<char>) -> bool {
    exists|j: int| #![trigger s[j]] 0 <= j < s.len() && sortable(s[j]) && action_name(s[j]) == n
}

/// Every action of `o` creates or updates, after the actions about those of
/// its prerequisites that some create or update of `s` is about.
pub open spec fn ordered_after_prereqs(s: Seq<SyncAction>, o: Seq<SyncAction>) -> bool {
    &&& forall|t: int| 0 <= t < o.len() ==> sortable(#[trigger] o[t])
    &&& forall|t: int, q: int|
        #![trigger action_reqs(o[t])[q]]
        0 <= t < o.len() && 0 <= q < action_reqs(o[t]).len() && carried(s, action_reqs(o[t])[q])
            ==> named_before(o, t, action_reqs(o[t])[q])
}

/// `a` waits for a prerequisite that some create or update of `s` is about
/// but no action of `o` is.
pub open spec fn waits_outside(s: Seq<SyncAction>, o: Seq<SyncAction>, a: SyncAction) -> bool {
    exists|q: int|
        #![trigger action_reqs(a)[q]]
        0 <= q < action_reqs(a).len() && carried(s, action_reqs(a)[q]) && !named_before(o, o.len() as int, action_reqs(a)[q])
}

/// Every action of `l` creates or updates and waits for a prerequisite that
/// only actions left out of `o` are about: the actions held up by a cycle of
/// prerequisites.
pub open spec fn held_up(s: Seq<SyncAction>, o: Seq<SyncAction>, l: Seq<SyncAction>) -> bool {
    &&& forall|t: int| 0 <= t < l.len() ==> sortable(#[trigger] l[t])
    &&& forall|t: int| 0 <= t < l.len() ==> waits_outside(s, o, #[trigger] l[t])
}

/// `r` is `s` in dependency order: the same actions, first creates and
/// updates each after those of its prerequisites that `s` deploys, then the
/// creates and updates held up by a cycle, then the actions that do not
/// change CTFd in their original order.
pub open spec fn dependency_order(s: Seq<SyncAction>, r: Seq<SyncAction>) -> bool {
    let m = r.len() - passive(s).len();
    &&& r.to_multiset() == s.to_multiset()
    &&& r.len() >= passive(s).len()
    &&& r.skip(m) == passive(s)
    &&& exists|k: int|
        #![trigger r.take(k)]
        0 <= k <= m && ordered_after_prereqs(s, r.take(k)) && held_up(s, r.take(k), r.subrange(k, m))
}

/// Some entry of `names` flagged in `sortables` is `x`.
pub open spec fn carried_in(names: Seq<Seq<char>>, sortables: Seq<bool>, x: Seq<char>) -> bool {
    exists|j: int| #![trigger names[j]] 0 <= j < names.len() && sortables[j] && names[j] == x
}

/// Position `i` of `order` names, through `names`, the prerequisite `r`.
pub open spec fn emitted_name(names: Seq<Seq<char>>, order: Seq<usize>, r: Seq<char>) -> bool {
    exists|u: int| #![trigger order[u]] 0 <= u < order.len() && names[order[u] as int] == r
}

/// Every name of `req` that `names` carries (flagged in `sortables`) is the
/// name of an emitted index.
pub open spec fn ready_spec(req: Seq<Seq<char>>, names: Seq<Seq<char>>, sortables: Seq<bool>, order: Seq<usize>) -> bool {
    forall|q: int|
        0 <= q < req.len() && carried_in(names, sortables, #[trigger] req[q]) ==> emitted_name(names, order, req[q])
}

/// Number of `false` entries.
pub open spec fn falses(d: Seq<bool>) -> nat
    decreases d.len(),
{
    if d.len() == 0 {
        0
    } else {
        falses(d.drop_last()) + if d.last() { 0nat } else { 1nat }
    }
}

/// Setting a `false` entry to `true` removes one `false`.
proof fn lemma_falses_set(d: Seq<bool>, i: int)
    requires
        0 <= i < d.len(),
        !d[i],
    ensures
        falses(d.update(i, true)) + 1 == falses(d),
    decreases d.len(),
{
    if i < d.len() - 1 {
        lemma_falses_set(d.drop_last(), i);
        assert(d.update(i, true).drop_last() =~= d.drop_last().update(i, true));
    } else {
        assert(d.update(i, true).drop_last() =~= d.drop_last());
    }
}

/// A sequence of `false` has as many `false` entries as elements.
proof fn lemma_falses_all(d: Seq<bool>)
    requires
        forall|j: int| 0 <= j < d.len() ==> !(#[trigger] d[j]),
    ensures
        falses(d) == d.len(),
    decreases d.len(),
{
    if d.len() > 0 {
        lemma_falses_all(d.drop_last());
    }
}

/// Whether some entry of `names` flagged in `sortables` is `x`.
fn is_carried(names: &Vec<String>, sortables: &Vec<bool>, x: &str) -> (r: bool)
    requires
        names@.len() == sortables@.len(),
    ensures
        r == carried_in(strs(names@), sortables@, x@),
{
    let mut j: usize = 0;
    while j < names.len()
        invariant
            j <= names@.len(),
            names@.len() == sortables@.len(),
            forall|k: int| 0 <= k < j ==> !(sortables@[k] && #[trigger] strs(names@)[k] == x@),
        decreases names@.len() - j,
    {
        if sortables[j] && crate::text::eq_str(names[j].as_str(), x) {
            assert(strs(names@)[j as int] == x@);
            return true;
        }
        j = j + 1;
    }
    false
}

/// Whether every carried name of `req` is the name of an emitted index.
fn ready(req: &Vec<String>, names: &Vec<String>, sortables: &Vec<bool>, order: &Vec<usize>) -> (r: bool)
    requires
        names@.len() == sortables@.len(),
        forall|u: int| 0 <= u < order@.len() ==> (#[trigger] order@[u]) < names@.len(),
    ensures
        r == ready_spec(strs(req@), strs(names@), sortables@, order@),
{
    let mut q: usize = 0;
    while q < req.len()
        invariant
            q <= req@.len(),
            names@.len() == sortables@.len(),
            forall|u: int| 0 <= u < order@.len() ==> (#[trigger] order@[u]) < names@.len(),
            forall|p: int|
                0 <= p < q && carried_in(strs(names@), sortables@, #[trigger] strs(req@)[p]) ==> emitted_name(
                    strs(names@),
                    order@,
                    strs(req@)[p],
                ),
        decreases req@.len() - q,
    {
        if is_carried(names, sortables, req[q].as_str()) {
            let mut u: usize = 0;
            let mut found = false;
            while u < order.len()
                invariant
                    u <= order@.len(),
                    q < req@.len(),
                    forall|v: int| 0 <= v < order@.len() ==> (#[trigger] order@[v]) < names@.len(),
                    found ==> emitted_name(strs(names@), order@, req@[q as int]@),
                    !found ==> forall|v: int|
                        0 <= v < u ==> strs(names@)[(#[trigger] order@[v]) as int] != req@[q as int]@,
                decreases order@.len() - u,
            {
                if crate::text::eq_str(names[order[u]].as_str(), req[q].as_str()) {
                    found = true;
                    assert(strs(names@)[order@[u as int] as int] == req@[q as int]@);
                }
                u = u + 1;
            }
            if !found {
                assert(strs(req@)[q as int] == req@[q as int]@);
                assert(!emitted_name(strs(names@), order@, strs(req@)[q as int]));
                return false;
            }
        }
        q = q + 1;
    }
    true
}

/// What the sort of indices yields: `order` lists flagged indices, each
/// once, each after the indices naming its carried prerequisites, `done`
/// marks the listed ones, and every flagged index left out waits for a
/// carried name that no listed index has.
pub open spec fn kahn_result(
    names: Seq<Seq<char>>,
    reqs: Seq<Seq<Seq<char>>>,
    sortables: Seq<bool>,
    order: Seq<usize>,
    done: Seq<bool>,
) -> bool {
    let n = names.len();
    &&& done.len() == n
    &&& forall|t: int| 0 <= t < order.len() ==> (#[trigger] order[t]) < n
    &&& forall|t: int| 0 <= t < order.len() ==> sortables[(#[trigger] order[t]) as int]
    &&& forall|t: int, u: int| #![trigger order[t], order[u]] 0 <= t < u < order.len() ==> order[t] != order[u]
    &&& forall|j: int|
        0 <= j < n ==> ((#[trigger] done[j]) <==> exists|t: int| #![trigger order[t]] 0 <= t < order.len() && order[t] == j)
    &&& forall|t: int| 0 <= t < order.len() ==> ready_spec(reqs[(#[trigger] order[t]) as int], names, sortables, order.take(t))
    &&& forall|j: int| 0 <= j < n && #[trigger] sortables[j] && !done[j] ==> !ready_spec(reqs[j], names, sortables, order)
}

/// Kahn's algorithm over indices: repeatedly lists the first flagged index
/// not yet listed whose carried prerequisites are all names of listed
/// indices, until none is left.
fn kahn_order(names: &Vec<String>, reqs: &Vec<Vec<String>>, sortables: &Vec<bool>) -> (res: (Vec<usize>, Vec<bool>))
    requires
        names@.len() == reqs@.len(),
        names@.len() == sortables@.len(),
    ensures
        kahn_result(strs(names@), reqs@.map_values(|v: Vec<String>| strs(v@)), sortables@, res.0@, res.1@),
{
    let n = names.len();
    let ghost rq = reqs@.map_values(|v: Vec<String>| strs(v@));
    let mut done: Vec<bool> = Vec::new();
    let mut i: usize = 0;
    while i < n
        invariant
            i <= n,
            done@.len() == i,
            forall|j: int| 0 <= j < i ==> !(#[trigger] done@[j]),
        decreases n - i,
    {
        done.push(false);
        i = i + 1;
    }
    let mut order: Vec<usize> = Vec::new();
    proof {
        lemma_falses_all(done@);
    }
    loop
        invariant
            n == names@.len(),
            n == reqs@.len(),
            n == sortables@.len(),
            rq == reqs@.map_values(|v: Vec<String>| strs(v@)),
            order@.len() + falses(done@) == n,
            done@.len() == n,
            forall|t: int| 0 <= t < order@.len() ==> (#[trigger] order@[t]) < n,
            forall|t: int| 0 <= t < order@.len() ==> sortables@[(#[trigger] order@[t]) as int],
            forall|t: int, u: int|
                #![trigger order@[t], order@[u]]
                0 <= t < u < order@.len() ==> order@[t] != order@[u],
            forall|j: int|
                0 <= j < n ==> ((#[trigger] done@[j]) <==> exists|t: int|
                    #![trigger order@[t]]
                    0 <= t < order@.len() && order@[t] == j),
            forall|t: int|
                0 <= t < order@.len() ==> ready_spec(rq[(#[trigger] order@[t]) as int], strs(names@), sortables@, order@.take(t)),
        ensures
            forall|j: int|
                0 <= j < n && #[trigger] sortables@[j] && !done@[j] ==> !ready_spec(rq[j], strs(names@), sortables@, order@),
        decreases n - order@.len(),
    {
        let mut progress = false;
        let mut i: usize = 0;
        let ghost start_len = order@.len();
        while i < n
            invariant
                n == names@.len(),
                n == reqs@.len(),
                n == sortables@.len(),
                rq == reqs@.map_values(|v: Vec<String>| strs(v@)),
                i <= n,
                done@.len() == n,
                start_len <= order@.len() <= n,
                order@.len() + falses(done@) == n,
                progress <==> order@.len() > start_len,
                forall|t: int| 0 <= t < order@.len() ==> (#[trigger] order@[t]) < n,
                forall|t: int| 0 <= t < order@.len() ==> sortables@[(#[trigger] order@[t]) as int],
                forall|t: int, u: int|
                    #![trigger order@[t], order@[u]]
                    0 <= t < u < order@.len() ==> order@[t] != order@[u],
                forall|j: int|
                    0 <= j < n ==> ((#[trigger] done@[j]) <==> exists|t: int|
                        #![trigger order@[t]]
                        0 <= t < order@.len() && order@[t] == j),
                forall|t: int|
                    0 <= t < order@.len() ==> ready_spec(rq[(#[trigger] order@[t]) as int], strs(names@), sortables@, order@.take(t)),
                !progress ==> forall|j: int|
                    0 <= j < i && #[trigger] sortables@[j] && !done@[j] ==> !ready_spec(rq[j], strs(names@), sortables@, order@),
            decreases n - i,
        {
            if sortables[i] && !done[i] {
                let ok = ready(&reqs[i], names, sortables, &order);
                assert(rq[i as int] == strs(reqs@[i as int]@));
                if ok {
                    let ghost old_order = order@;
                    let ghost old_done = done@;
                    proof {
                        lemma_falses_set(done@, i as int);
                    }
                    order.push(i);
                    done.set(i, true);
                    progress = true;
                    assert(order@.take(old_order.len() as int) =~= old_order);
                    assert forall|t: int|
                        0 <= t < order@.len() implies ready_spec(rq[(#[trigger] order@[t]) as int], strs(names@), sortables@, order@.take(t)) by {
                        if t < old_order.len() {
                            assert(order@.take(t) =~= old_order.take(t));
                        }
                    }
                    assert forall|j: int|
                        0 <= j < n implies ((#[trigger] done@[j]) <==> exists|t: int|
                            #![trigger order@[t]]
                            0 <= t < order@.len() && order@[t] == j) by {
                        if j == i {
                            assert(order@[old_order.len() as int] == j);
                        } else {
                            if old_done[j] {
                                let t = choose|t: int|
                                    #![trigger old_order[t]]
                                    0 <= t < old_order.len() && old_order[t] == j;
                                assert(order@[t] == j);
                            }
                            if exists|t: int|
                                #![trigger order@[t]]
                                0 <= t < order@.len() && order@[t] == j {
                                let t = choose|t: int|
                                    #![trigger order@[t]]
                                    0 <= t < order@.len() && order@[t] == j;
                                assert(old_order[t] == j);
                            }
                        }
                    }
                    assert forall|t: int, u: int|
                        #![trigger order@[t], order@[u]]
                        0 <= t < u < order@.len() implies order@[t] != order@[u] by {
                        if u == old_order.len() {
                            if order@[t] == i {
                                assert(old_done[i as int]);
                            }
                        }
                    }
                }
            }
            i = i + 1;
        }
        if !progress {
            break;
        }
    }
    (order, done)
}

impl RequirementsQueue {
    /// Orders the actions so that every created or updated challenge comes
    /// after the created or updated challenges it requires (Kahn's
    /// algorithm), then the created or updated challenges held up by a
    /// cycle of prerequisites, then the up-to-date and remote-only actions in
    /// their original order. No action is lost; a prerequisite that no
    /// create or update is about (already deployed, or unknown) does not
    /// hold a challenge back.
    pub fn resolve_dependencies(&self, actions: Vec<SyncAction>) -> (r: Vec<SyncAction>)
        ensures
            dependency_order(actions@, r@),
    {
        let n = actions.len();
        let ghost s = actions@;
        // Facts about each action, gathered before the actions are moved.
        let mut names: Vec<String> = Vec::new();
        let mut reqs: Vec<Vec<String>> = Vec::new();
        let mut sortables: Vec<bool> = Vec::new();
        let mut i: usize = 0;
        while i < n
            invariant
                n == s.len(),
                s == actions@,
                i <= n,
                names@.len() == i,
                reqs@.len() == i,
                sortables@.len() == i,
                forall|j: int| 0 <= j < i ==> (#[trigger] names@[j])@ == action_name(s[j]),
                forall|j: int| 0 <= j < i ==> strs((#[trigger] reqs@[j])@) == action_reqs(s[j]),
                forall|j: int| 0 <= j < i ==> (#[trigger] sortables@[j]) == sortable(s[j]),
            decreases n - i,
        {
            let a = &actions[i];
            match a {
                SyncAction::Create { name, challenge } => {
                    names.push(name.clone());
                    sortables.push(true);
                    match &challenge.requirements {
                        Some(r) => reqs.push(r.prerequisite_names()),
                        None => {
                            let empty: Vec<String> = Vec::new();
                            assert(strs(empty@) =~= seq![]);
                            reqs.push(empty);
                        },
                    }
                },
                SyncAction::Update { name, local, .. } => {
                    names.push(name.clone());
                    sortables.push(true);
                    match &local.requirements {
                        Some(r) => reqs.push(r.prerequisite_names()),
                        None => {
                            let empty: Vec<String> = Vec::new();
                            assert(strs(empty@) =~= seq![]);
                            reqs.push(empty);
                        },
                    }
                },
                SyncAction::UpToDate { name } => {
                    names.push(name.clone());
                    sortables.push(false);
                    let empty: Vec<String> = Vec::new();
                    assert(strs(empty@) =~= seq![]);
                    reqs.push(empty);
                },
                SyncAction::RemoteOnly { name } => {
                    names.push(name.clone());
                    sortables.push(false);
                    let empty: Vec<String> = Vec::new();
                    assert(strs(empty@) =~= seq![]);
                    reqs.push(empty);
                },
            }
            i = i + 1;
        }
        let ghost nm = strs(names@);
        let ghost rq = reqs@.map_values(|v: Vec<String>| strs(v@));
        let ghost sv = sortables@;
        let (order, done) = kahn_order(&names, &reqs, &sortables);
        // Move the actions into slots so that each can be taken once.
        let mut actions = actions;
        let mut slots: Vec<Option<SyncAction>> = Vec::new();
        let mut k: usize = 0;
        while actions.len() > 0
            invariant
                n == s.len(),
                k + actions@.len() == n,
                actions@ == s.skip(k as int),
                slots@.len() == k,
                forall|j: int| 0 <= j < k ==> (#[trigger] slots@[j]) == Some(s[j]),
            decreases actions@.len(),
        {
            let a = actions.remove(0);
            assert(a == s[k as int]);
            slots.push(Some(a));
            k = k + 1;
            assert(actions@ =~= s.skip(k as int));
        }
        proof {
            lemma_slots_init(s, slots@);
        }
        let mut out: Vec<SyncAction> = Vec::new();
        proof {
            broadcast use vstd::seq_lib::group_to_multiset_ensures, vstd::multiset::group_multiset_axioms;
            assert(out@.to_multiset().len() == 0);
            assert(out@.to_multiset().add(slot_ms(slots@)) =~= s.to_multiset());
        }
        // The ordered creates and updates.
        let mut t: usize = 0;
        while t < order.len()
            invariant
                n == s.len(),
                slots@.len() == n,
                t <= order@.len(),
                out@.len() == t,
                kahn_result(nm, rq, sv, order@, done@),
                nm.len() == n,
                out@.to_multiset().add(slot_ms(slots@)) == s.to_multiset(),
                forall|u: int| 0 <= u < t ==> (#[trigger] out@[u]) == s[order@[u] as int],
                forall|j: int|
                    0 <= j < n ==> (#[trigger] slots@[j]) == if exists|u: int|
                        #![trigger order@[u]]
                        0 <= u < t && order@[u] == j {
                        None
                    } else {
                        Some(s[j])
                    },
            decreases order@.len() - t,
        {
            let j = order[t];
            assert(!exists|u: int| #![trigger order@[u]] 0 <= u < t && order@[u] == j);
            let ghost before = slots@;
            let taken = slots[j].take();
            proof {
                lemma_slot_take(before, j as int);
            }
            match taken {
                Some(a) => {
                    let ghost prev = out@;
                    out.push(a);
                    proof {
                        vstd::seq_lib::to_multiset_build(prev, a);
                        assert(out@ == prev.push(a));
                        assert(out@.to_multiset().add(slot_ms(slots@)) =~= prev.to_multiset().add(slot_ms(before)));
                    }
                },
                None => {
                    assert(false);
                },
            }
            t = t + 1;
            assert forall|jj: int|
                0 <= jj < n implies (#[trigger] slots@[jj]) == if exists|u: int|
                    #![trigger order@[u]]
                    0 <= u < t && order@[u] == jj {
                    None
                } else {
                    Some(s[jj])
                } by {
                if jj == j {
                    assert(order@[t - 1] == jj);
                } else {
                    if exists|u: int| #![trigger order@[u]] 0 <= u < t && order@[u] == jj {
                        let u = choose|u: int| #![trigger order@[u]] 0 <= u < t && order@[u] == jj;
                        assert(u < t - 1);
                    }
                }
            }
        }
        let k1 = out.len();
        let ghost o = out@;
        proof {
            lemma_ordered(s, nm, rq, sv, order@, done@, o);
        }
        assert forall|j: int| 0 <= j < n implies (#[trigger] slots@[j]) == if done@[j] { None } else { Some(s[j]) } by {
            if done@[j] {
                let u = choose|u: int| #![trigger order@[u]] 0 <= u < order@.len() && order@[u] == j;
            }
        }
        // The creates and updates held up by a cycle.
        let mut j: usize = 0;
        while j < n
            invariant
                n == s.len(),
                slots@.len() == n,
                sortables@ == sv,
                sv.len() == n,
                done@.len() == n,
                j <= n,
                k1 <= out@.len(),
                out@.take(k1 as int) == o,
                out@.to_multiset().add(slot_ms(slots@)) == s.to_multiset(),
                forall|jj: int| 0 <= jj < n ==> (#[trigger] sv[jj]) == sortable(s[jj]),
                forall|jj: int| 0 <= jj < n && sv[jj] && !done@[jj] ==> waits_outside(s, o, #[trigger] s[jj]),
                forall|u: int| k1 <= u < out@.len() ==> sortable(#[trigger] out@[u]) && waits_outside(s, o, out@[u]),
                forall|jj: int| 0 <= jj < j && sv[jj] ==> (#[trigger] slots@[jj]) is None,
                forall|jj: int| 0 <= jj < n && (jj >= j || !sv[jj]) ==> (#[trigger] slots@[jj]) == if done@[jj] { None } else { Some(s[jj]) },
            decreases n - j,
        {
            if sortables[j] {
                let ghost before = slots@;
                let taken = slots[j].take();
                match taken {
                    Some(a) => {
                        proof {
                            lemma_slot_take(before, j as int);
                        }
                        let ghost prev = out@;
                        out.push(a);
                        proof {
                            vstd::seq_lib::to_multiset_build(prev, a);
                            assert(out@.to_multiset().add(slot_ms(slots@)) =~= prev.to_multiset().add(slot_ms(before)));
                            assert(out@.take(k1 as int) =~= prev.take(k1 as int));
                        }
                    },
                    None => {
                        assert(slots@ =~= before);
                    },
                }
            }
            j = j + 1;
        }
        let k2 = out.len();
        let ghost l = out@.subrange(k1 as int, k2 as int);
        // The actions that do not change CTFd, in their original order.
        let mut j: usize = 0;
        while j < n
            invariant
                n == s.len(),
                slots@.len() == n,
                sortables@ == sv,
                sv.len() == n,
                j <= n,
                k1 <= k2 <= out@.len(),
                out@.take(k1 as int) == o,
                out@.subrange(k1 as int, k2 as int) == l,
                out@.skip(k2 as int) == passive(s.take(j as int)),
                out@.to_multiset().add(slot_ms(slots@)) == s.to_multiset(),
                forall|jj: int| 0 <= jj < n ==> (#[trigger] sv[jj]) == sortable(s[jj]),
                forall|jj: int| 0 <= jj < n && sv[jj] ==> (#[trigger] slots@[jj]) is None,
                forall|jj: int| 0 <= jj < j ==> (#[trigger] slots@[jj]) is None,
                forall|jj: int| j <= jj < n && !sv[jj] ==> (#[trigger] slots@[jj]) == Some(s[jj]),
            decreases n - j,
        {
            assert(s.take(j + 1).drop_last() =~= s.take(j as int));
            assert(s.take(j + 1).last() == s[j as int]);
            let ghost prev = out@;
            if !sortables[j] {
                let ghost before = slots@;
                let taken = slots[j].take();
                proof {
                    lemma_slot_take(before, j as int);
                }
                match taken {
                    Some(a) => {
                        out.push(a);
                        proof {
                            vstd::seq_lib::to_multiset_build(prev, a);
                            assert(out@.to_multiset().add(slot_ms(slots@)) =~= prev.to_multiset().add(slot_ms(before)));
                        }
                    },
                    None => {
                        assert(false);
                    },
                }
            }
            assert(out@.take(k1 as int) =~= prev.take(k1 as int));
            assert(out@.subrange(k1 as int, k2 as int) =~= prev.subrange(k1 as int, k2 as int));
            assert(out@.skip(k2 as int) =~= passive(s.take(j + 1)));
            j = j + 1;
        }
        assert(s.take(n as int) =~= s);
        proof {
            lemma_slots_none(slots@);
            assert(out@.to_multiset() =~= s.to_multiset());
            lemma_passive_len(s);
            let r = out@;
            let m = r.len() - passive(s).len();
            assert(m == k2);
            assert(r.take(k1 as int) == o);
            assert(r.subrange(k1 as int, m) == l);
            assert forall|t: int| 0 <= t < l.len() implies sortable(#[trigger] l[t]) && waits_outside(s, o, l[t]) by {
                assert(l[t] == out@[k1 + t]);
            }
            assert(held_up(s, r.take(k1 as int), r.subrange(k1 as int, m)));
            assert(ordered_after_prereqs(s, r.take(k1 as int)));
        }
        out
    }
}

/// `passive(s)` is never longer than `s`.
proof fn lemma_passive_len(s: Seq<SyncAction>)
    ensures
        passive(s).len() <= s.len(),
    decreases s.len(),
{
    if s.len() > 0 {
        lemma_passive_len(s.drop_last());
    }
}

/// The actions still in their slots.
pub open spec fn slot_ms(slots: Seq<Option<SyncAction>>) -> Multiset<SyncAction>
    decreases slots.len(),
{
    if slots.len() == 0 {
        Multiset::empty()
    } else {
        slot_ms(slots.drop_last()).add(
            match slots.last() {
                Some(a) => Multiset::singleton(a),
                None => Multiset::empty(),
            },
        )
    }
}

proof fn lemma_slots_init(s: Seq<SyncAction>, slots: Seq<Option<SyncAction>>)
    requires
        slots.len() == s.len(),
        forall|j: int| 0 <= j < s.len() ==> (#[trigger] slots[j]) == Some(s[j]),
    ensures
        slot_ms(slots) == s.to_multiset(),
    decreases s.len(),
{
    if s.len() > 0 {
        lemma_slots_init(s.drop_last(), slots.drop_last());
        assert(s =~= s.drop_last().push(s.last()));
        vstd::seq_lib::to_multiset_build(s.drop_last(), s.last());
        assert(s.to_multiset() =~= s.drop_last().to_multiset().insert(s.last()));
        assert(slot_ms(slots) =~= s.to_multiset());
    } else {
        broadcast use vstd::seq_lib::group_to_multiset_ensures, vstd::multiset::group_multiset_axioms;
        assert(s.to_multiset().len() == 0);
        assert(s.to_multiset() =~= Multiset::empty());
    }
}

proof fn lemma_slot_take(slots: Seq<Option<SyncAction>>, j: int)
    requires
        0 <= j < slots.len(),
    ensures
        slots[j] matches Some(a) ==> slot_ms(slots) == slot_ms(slots.update(j, None)).insert(a),
        slots[j] is None ==> slot_ms(slots) == slot_ms(slots.update(j, None)),
    decreases slots.len(),
{
    let u = slots.update(j, None);
    if j < slots.len() - 1 {
        lemma_slot_take(slots.drop_last(), j);
        assert(u.drop_last() =~= slots.drop_last().update(j, None));
        assert(u.last() == slots.last());
        if slots[j] is Some {
            assert(slot_ms(slots) =~= slot_ms(u).insert(slots[j]->0));
        }
    } else {
        assert(u.drop_last() =~= slots.drop_last());
        if slots[j] is Some {
            assert(slot_ms(slots) =~= slot_ms(u).insert(slots[j]->0));
        } else {
            assert(slot_ms(slots) =~= slot_ms(u));
        }
    }
}

proof fn lemma_slots_none(slots: Seq<Option<SyncAction>>)
    requires
        forall|j: int| 0 <= j < slots.len() ==> (#[trigger] slots[j]) is None,
    ensures
        slot_ms(slots) == Multiset::<SyncAction>::empty(),
    decreases slots.len(),
{
    if slots.len() > 0 {
        lemma_slots_none(slots.drop_last());
        assert(slot_ms(slots) =~= Multiset::<SyncAction>::empty());
    }
}

/// The listed indices, read through the actions, are ordered after their
/// carried prerequisites, and every create or update left out waits for a
/// prerequisite that only actions left out are about.
proof fn lemma_ordered(
    s: Seq<SyncAction>,
    names: Seq<Seq<char>>,
    reqs: Seq<Seq<Seq<char>>>,
    sortables: Seq<bool>,
    order: Seq<usize>,
    done: Seq<bool>,
    o: Seq<SyncAction>,
)
    requires
        names.len() == s.len(),
        reqs.len() == s.len(),
        sortables.len() == s.len(),
        forall|j: int| 0 <= j < s.len() ==> (#[trigger] names[j]) == action_name(s[j]),
        forall|j: int| 0 <= j < s.len() ==> (#[trigger] reqs[j]) == action_reqs(s[j]),
        forall|j: int| 0 <= j < s.len() ==> (#[trigger] sortables[j]) == sortable(s[j]),
        kahn_result(names, reqs, sortables, order, done),
        o.len() == order.len(),
        forall|t: int| 0 <= t < o.len() ==> #[trigger] o[t] == s[order[t] as int],
    ensures
        ordered_after_prereqs(s, o),
        forall|j: int| 0 <= j < s.len() && sortables[j] && !done[j] ==> waits_outside(s, o, #[trigger] s[j]),
{
    assert forall|x: Seq<char>| #[trigger] carried(s, x) <==> carried_in(names, sortables, x) by {
        if carried(s, x) {
            let j = choose|j: int| #![trigger s[j]] 0 <= j < s.len() && sortable(s[j]) && action_name(s[j]) == x;
            assert(names[j] == x && sortables[j]);
        }
        if carried_in(names, sortables, x) {
            let j = choose|j: int| #![trigger names[j]] 0 <= j < names.len() && sortables[j] && names[j] == x;
            assert(sortable(s[j]) && action_name(s[j]) == x);
        }
    }
    assert forall|t: int| 0 <= t < o.len() implies sortable(#[trigger] o[t]) by {
        assert(sortables[order[t] as int]);
    }
    assert forall|t: int, q: int|
        #![trigger action_reqs(o[t])[q]]
        0 <= t < o.len() && 0 <= q < action_reqs(o[t]).len() && carried(s, action_reqs(o[t])[q])
            implies named_before(o, t, action_reqs(o[t])[q]) by {
        let i = order[t] as int;
        assert(reqs[i] == action_reqs(o[t]));
        assert(ready_spec(reqs[i], names, sortables, order.take(t)));
        assert(carried_in(names, sortables, reqs[i][q]));
        assert(emitted_name(names, order.take(t), reqs[i][q]));
        let u = choose|u: int|
            #![trigger order.take(t)[u]]
            0 <= u < order.take(t).len() && names[order.take(t)[u] as int] == reqs[i][q];
        assert(o[u] == s[order[u] as int]);
        assert(action_name(o[u]) == reqs[i][q]);
    }
    assert forall|j: int| 0 <= j < s.len() && sortables[j] && !done[j] implies waits_outside(s, o, #[trigger] s[j]) by {
        assert(!ready_spec(reqs[j], names, sortables, order));
        let q = choose|q: int|
            !(0 <= q < reqs[j].len() && carried_in(names, sortables, #[trigger] reqs[j][q]) ==> emitted_name(names, order, reqs[j][q]));
        assert(reqs[j] == action_reqs(s[j]));
        assert(carried(s, action_reqs(s[j])[q]));
        if named_before(o, o.len() as int, action_reqs(s[j])[q]) {
            let u = choose|u: int| #![trigger o[u]] 0 <= u < o.len() && action_name(o[u]) == action_reqs(s[j])[q];
            assert(names[order[u] as int] == action_name(s[order[u] as int]));
            assert(emitted_name(names, order, reqs[j][q]));
        }
    }
}

} // verus!
