//! Deciding whether a remote challenge must be updated to match the local
//! one. List fields are compared as multisets (order does not matter).
use vstd::prelude::*;
use crate::models::{
    Challenge, Extra, FlagContent, FlagData, FlagType, HintContent, InstanceConfig, Requirements,
    Tag, opt_str,
};
use crate::text::eq_str;

verus! {

/// How many times `k` occurs in `s`.
pub open spec fn occurrences<K>(s: Seq<K>, k: K) -> nat
    decreases s.len(),
{
    if s.len() == 0 {
        0
    } else {
        occurrences(s.drop_last(), k) + if s.last() == k {
            1nat
        } else {
            0nat
        }
    }
}

/// `a` and `b` hold the same elements with the same multiplicities (sorting
/// both gives the same sequence).
pub open spec fn same_elements<K>(a: Seq<K>, b: Seq<K>) -> bool {
    forall|k: K| #[trigger] occurrences(a, k) == occurrences(b, k)
}

/// An element that occurs has a position.
pub proof fn lemma_occurrences_pos<K>(s: Seq<K>, k: K)
    requires
        occurrences(s, k) > 0,
    ensures
        exists|i: int| 0 <= i < s.len() && s[i] == k,
    decreases s.len(),
{
    if s.last() != k {
        lemma_occurrences_pos(s.drop_last(), k);
        let i = choose|i: int| 0 <= i < s.drop_last().len() && s.drop_last()[i] == k;
        assert(s[i] == k);
    } else {
        assert(s[s.len() - 1] == k);
    }
}

/// A value whose comparison key decides equality in the sync comparison.
pub trait Keyed: Sized {
    type K;

    /// The comparison key.
    spec fn key(&self) -> Self::K;

    /// Whether two values have the same key.
    fn same_key(&self, other: &Self) -> (r: bool)
        ensures
            r == (self.key() == other.key());
}

/// The keys of a sequence of values.
pub open spec fn keys<T: Keyed>(v: Seq<T>) -> Seq<T::K> {
    v.map_values(|x: T| x.key())
}

/// The sorting key of a flag: its content, its type (a simple flag is
/// static) and its case sensitivity (none for a simple flag).
pub open spec fn flag_key(f: FlagContent) -> (Seq<char>, FlagType, Option<FlagData>) {
    match f {
        FlagContent::Simple(s) => (s@, FlagType::Static, None),
        FlagContent::Detailed { content, type_, data, .. } => (content@, type_, data),
    }
}

/// The sorting key of a hint: its content and its cost (0 when absent).
pub open spec fn hint_key(h: HintContent) -> (Seq<char>, u32) {
    match h {
        HintContent::Simple(s) => (s@, 0),
        HintContent::Detailed { content, cost, .. } => (
            content@,
            match cost {
                Some(c) => c,
                None => 0,
            },
        ),
    }
}

impl Keyed for FlagContent {
    type K = (Seq<char>, FlagType, Option<FlagData>);

    open spec fn key(&self) -> Self::K {
        flag_key(*self)
    }

    fn same_key(&self, other: &Self) -> (r: bool) {
        let (c1, t1, d1) = match self {
            FlagContent::Simple(s) => (s.as_str(), FlagType::Static, None),
            FlagContent::Detailed { content, type_, data, .. } => (content.as_str(), *type_, *data),
        };
        let (c2, t2, d2) = match other {
            FlagContent::Simple(s) => (s.as_str(), FlagType::Static, None),
            FlagContent::Detailed { content, type_, data, .. } => (content.as_str(), *type_, *data),
        };
        let same_data = match (d1, d2) {
            (None, None) => true,
            (Some(x), Some(y)) => x == y,
            _ => false,
        };
        t1 == t2 && same_data && eq_str(c1, c2)
    }
}

impl Keyed for HintContent {
    type K = (Seq<char>, u32);

    open spec fn key(&self) -> Self::K {
        hint_key(*self)
    }

    fn same_key(&self, other: &Self) -> (r: bool) {
        let (c1, k1) = match self {
            HintContent::Simple(s) => (s.as_str(), 0u32),
            HintContent::Detailed { content, cost, .. } => (
                content.as_str(),
                match cost {
                    Some(c) => *c,
                    None => 0,
                },
            ),
        };
        let (c2, k2) = match other {
            HintContent::Simple(s) => (s.as_str(), 0u32),
            HintContent::Detailed { content, cost, .. } => (
                content.as_str(),
                match cost {
                    Some(c) => *c,
                    None => 0,
                },
            ),
        };
        k1 == k2 && eq_str(c1, c2)
    }
}

impl Keyed for Tag {
    type K = Seq<char>;

    open spec fn key(&self) -> Self::K {
        crate::models::tag_text(*self)
    }

    fn same_key(&self, other: &Self) -> (r: bool) {
        eq_str(self.value_str(), other.value_str())
    }
}

impl Keyed for String {
    type K = Seq<char>;

    open spec fn key(&self) -> Self::K {
        self@
    }

    fn same_key(&self, other: &Self) -> (r: bool) {
        eq_str(self.as_str(), other.as_str())
    }
}

/// Number of elements of `v` whose key is the key of `x`.
fn count_key<T: Keyed>(v: &Vec<T>, x: &T) -> (r: usize)
    ensures
        r == occurrences(keys(v@), x.key()),
{
    let mut cnt: usize = 0;
    let mut i: usize = 0;
    while i < v.len()
        invariant
            i <= v@.len(),
            cnt <= i,
            cnt == occurrences(keys(v@).take(i as int), x.key()),
        decreases v@.len() - i,
    {
        assert(keys(v@).take(i + 1).drop_last() =~= keys(v@).take(i as int));
        assert(keys(v@).take(i + 1).last() == v@[i as int].key());
        if v[i].same_key(x) {
            cnt = cnt + 1;
        }
        i = i + 1;
    }
    assert(keys(v@).take(v@.len() as int) =~= keys(v@));
    cnt
}

/// Whether `a` and `b` hold the same keys with the same multiplicities.
pub fn same_keys<T: Keyed>(a: &Vec<T>, b: &Vec<T>) -> (r: bool)
    ensures
        r == same_elements(keys(a@), keys(b@)),
{
    let mut i: usize = 0;
    while i < a.len()
        invariant
            i <= a@.len(),
            forall|j: int|
                0 <= j < i ==> occurrences(keys(a@), #[trigger] keys(a@)[j]) == occurrences(
                    keys(b@),
                    keys(a@)[j],
                ),
        decreases a@.len() - i,
    {
        if count_key(a, &a[i]) != count_key(b, &a[i]) {
            assert(keys(a@)[i as int] == a@[i as int].key());
            return false;
        }
        assert(keys(a@)[i as int] == a@[i as int].key());
        i = i + 1;
    }
    let mut j: usize = 0;
    while j < b.len()
        invariant
            j <= b@.len(),
            forall|k: int|
                0 <= k < a@.len() ==> occurrences(keys(a@), #[trigger] keys(a@)[k]) == occurrences(
                    keys(b@),
                    keys(a@)[k],
                ),
            forall|k: int|
                0 <= k < j ==> occurrences(keys(a@), #[trigger] keys(b@)[k]) == occurrences(
                    keys(b@),
                    keys(b@)[k],
                ),
        decreases b@.len() - j,
    {
        if count_key(a, &b[j]) != count_key(b, &b[j]) {
            assert(keys(b@)[j as int] == b@[j as int].key());
            return false;
        }
        assert(keys(b@)[j as int] == b@[j as int].key());
        j = j + 1;
    }
    assert forall|k: T::K| #[trigger] occurrences(keys(a@), k) == occurrences(keys(b@), k) by {
        if occurrences(keys(a@), k) > 0 {
            lemma_occurrences_pos(keys(a@), k);
        } else if occurrences(keys(b@), k) > 0 {
            lemma_occurrences_pos(keys(b@), k);
        }
    }
    true
}

/// Two optional lists differ when both are present and do not hold the same
/// keys; an absent list on either side is not compared.
pub open spec fn lists_differ<T: Keyed>(a: Option<Vec<T>>, b: Option<Vec<T>>) -> bool {
    match (a, b) {
        (Some(x), Some(y)) => !same_elements(keys(x@), keys(y@)),
        _ => false,
    }
}

/// Whether two optional lists differ in the sense of [`lists_differ`].
fn optional_lists_differ<T: Keyed>(a: &Option<Vec<T>>, b: &Option<Vec<T>>) -> (r: bool)
    ensures
        r == lists_differ(*a, *b),
{
    match (a, b) {
        (Some(x), Some(y)) => !same_keys(x, y),
        _ => false,
    }
}

/// Requirements differ when exactly one side has them, or both do and their
/// prerequisite names differ as multisets.
pub open spec fn requirements_differ(a: Option<Requirements>, b: Option<Requirements>) -> bool {
    match (a, b) {
        (None, None) => false,
        (Some(x), Some(y)) => !same_elements(x.names(), y.names()),
        _ => true,
    }
}

/// Two optional strings hold the same text.
pub fn same_opt_str(a: &Option<String>, b: &Option<String>) -> (r: bool)
    ensures
        r == (opt_str(*a) == opt_str(*b)),
{
    match (a, b) {
        (None, None) => true,
        (Some(x), Some(y)) => eq_str(x.as_str(), y.as_str()),
        _ => false,
    }
}

/// Two optional numbers are equal.
pub fn same_opt_u32(a: Option<u32>, b: Option<u32>) -> (r: bool)
    ensures
        r == (a == b),
{
    match (a, b) {
        (None, None) => true,
        (Some(x), Some(y)) => x == y,
        _ => false,
    }
}

/// Field-wise equality of two `extra` blocks (what comparing their JSON
/// forms decides).
pub open spec fn same_extra(a: Extra, b: Extra) -> bool {
    &&& a.initial == b.initial
    &&& a.decay == b.decay
    &&& a.minimum == b.minimum
    &&& opt_str(a.image) == opt_str(b.image)
    &&& a.internal_port == b.internal_port
    &&& opt_str(a.internal_ports) == opt_str(b.internal_ports)
    &&& a.flag_mode == b.flag_mode
    &&& opt_str(a.flag_prefix) == opt_str(b.flag_prefix)
    &&& opt_str(a.flag_suffix) == opt_str(b.flag_suffix)
    &&& a.random_flag_length == b.random_flag_length
    &&& opt_str(a.decay_function) == opt_str(b.decay_function)
    &&& a.timeout_minutes == b.timeout_minutes
    &&& opt_str(a.command) == opt_str(b.command)
}

/// Field-wise equality of two `instance` blocks.
pub open spec fn same_instance(a: InstanceConfig, b: InstanceConfig) -> bool {
    &&& a.backend == b.backend
    &&& opt_str(a.image) == opt_str(b.image)
    &&& opt_str(a.compose_file) == opt_str(b.compose_file)
    &&& opt_str(a.compose_service) == opt_str(b.compose_service)
    &&& opt_str(a.lxc_image) == opt_str(b.lxc_image)
    &&& opt_str(a.vagrantfile) == opt_str(b.vagrantfile)
    &&& a.internal_port == b.internal_port
    &&& a.connection@ == b.connection@
    &&& a.timeout_minutes == b.timeout_minutes
    &&& a.max_renewals == b.max_renewals
    &&& opt_str(a.command) == opt_str(b.command)
    &&& a.flag_mode == b.flag_mode
    &&& opt_str(a.flag_prefix) == opt_str(b.flag_prefix)
    &&& opt_str(a.flag_suffix) == opt_str(b.flag_suffix)
    &&& a.random_flag_length == b.random_flag_length
    &&& a.flag_delivery == b.flag_delivery
    &&& opt_str(a.flag_file_path) == opt_str(b.flag_file_path)
    &&& opt_str(a.flag_service) == opt_str(b.flag_service)
}

/// Both absent, or both present and equal field by field.
pub open spec fn same_opt_extra(a: Option<Extra>, b: Option<Extra>) -> bool {
    match (a, b) {
        (None, None) => true,
        (Some(x), Some(y)) => same_extra(x, y),
        _ => false,
    }
}

/// Both absent, or both present and equal field by field.
pub open spec fn same_opt_instance(a: Option<InstanceConfig>, b: Option<InstanceConfig>) -> bool {
    match (a, b) {
        (None, None) => true,
        (Some(x), Some(y)) => same_instance(x, y),
        _ => false,
    }
}

/// The remote challenge must be updated to match the local one: some
/// compared field differs. Flags, tags and hints are compared as multisets
/// of their keys and only when both sides list them; requirements as
/// multisets of prerequisite names.
pub open spec fn spec_needs_update(remote: Challenge, local: Challenge) -> bool {
    ||| remote.category@ != local.category@
    ||| remote.value != local.value
    ||| opt_str(remote.description) != opt_str(local.description)
    ||| remote.state != local.state
    ||| opt_str(remote.connection_info) != opt_str(local.connection_info)
    ||| remote.attempts != local.attempts
    ||| !same_opt_extra(remote.extra, local.extra)
    ||| lists_differ(remote.flags, local.flags)
    ||| lists_differ(remote.tags, local.tags)
    ||| lists_differ(remote.hints, local.hints)
    ||| requirements_differ(remote.requirements, local.requirements)
    ||| !same_opt_instance(remote.instance, local.instance)
}

fn same_extra_exec(a: &Extra, b: &Extra) -> (r: bool)
    ensures
        r == same_extra(*a, *b),
{
    let flag_mode_same = match (a.flag_mode, b.flag_mode) {
        (None, None) => true,
        (Some(x), Some(y)) => x == y,
        _ => false,
    };
    same_opt_u32(a.initial, b.initial) && same_opt_u32(a.decay, b.decay) && same_opt_u32(
        a.minimum,
        b.minimum,
    ) && same_opt_str(&a.image, &b.image) && same_opt_u32(a.internal_port, b.internal_port)
        && same_opt_str(&a.internal_ports, &b.internal_ports) && flag_mode_same && same_opt_str(
        &a.flag_prefix,
        &b.flag_prefix,
    ) && same_opt_str(&a.flag_suffix, &b.flag_suffix) && same_opt_u32(
        a.random_flag_length,
        b.random_flag_length,
    ) && same_opt_str(&a.decay_function, &b.decay_function) && same_opt_u32(
        a.timeout_minutes,
        b.timeout_minutes,
    ) && same_opt_str(&a.command, &b.command)
}

fn same_instance_exec(a: &InstanceConfig, b: &InstanceConfig) -> (r: bool)
    ensures
        r == same_instance(*a, *b),
{
    let flag_mode_same = match (a.flag_mode, b.flag_mode) {
        (None, None) => true,
        (Some(x), Some(y)) => x == y,
        _ => false,
    };
    let delivery_same = match (a.flag_delivery, b.flag_delivery) {
        (None, None) => true,
        (Some(x), Some(y)) => x == y,
        _ => false,
    };
    a.backend == b.backend && same_opt_str(&a.image, &b.image) && same_opt_str(
        &a.compose_file,
        &b.compose_file,
    ) && same_opt_str(&a.compose_service, &b.compose_service) && same_opt_str(
        &a.lxc_image,
        &b.lxc_image,
    ) && same_opt_str(&a.vagrantfile, &b.vagrantfile) && a.internal_port == b.internal_port
        && eq_str(a.connection.as_str(), b.connection.as_str()) && same_opt_u32(
        a.timeout_minutes,
        b.timeout_minutes,
    ) && same_opt_u32(a.max_renewals, b.max_renewals) && same_opt_str(&a.command, &b.command)
        && flag_mode_same && same_opt_str(&a.flag_prefix, &b.flag_prefix) && same_opt_str(
        &a.flag_suffix,
        &b.flag_suffix,
    ) && same_opt_u32(a.random_flag_length, b.random_flag_length) && delivery_same
        && same_opt_str(&a.flag_file_path, &b.flag_file_path) && same_opt_str(
        &a.flag_service,
        &b.flag_service,
    )
}

/// Returns true if the remote challenge needs to be updated to match local.
pub fn needs_update(remote: &Challenge, local: &Challenge) -> (r: bool)
    ensures
        r == spec_needs_update(*remote, *local),
{
    if !eq_str(remote.category.as_str(), local.category.as_str()) {
        return true;
    }
    if remote.value != local.value {
        return true;
    }
    if !same_opt_str(&remote.description, &local.description) {
        return true;
    }
    let state_same = match (remote.state, local.state) {
        (None, None) => true,
        (Some(x), Some(y)) => x == y,
        _ => false,
    };
    if !state_same {
        return true;
    }
    if !same_opt_str(&remote.connection_info, &local.connection_info) {
        return true;
    }
    if !same_opt_u32(remote.attempts, local.attempts) {
        return true;
    }
    let extra_same = match (&remote.extra, &local.extra) {
        (None, None) => true,
        (Some(x), Some(y)) => same_extra_exec(x, y),
        _ => false,
    };
    if !extra_same {
        return true;
    }
    if optional_lists_differ(&remote.flags, &local.flags) {
        return true;
    }
    if optional_lists_differ(&remote.tags, &local.tags) {
        return true;
    }
    if optional_lists_differ(&remote.hints, &local.hints) {
        return true;
    }
    let reqs_differ = match (&remote.requirements, &local.requirements) {
        (None, None) => false,
        (Some(x), Some(y)) => {
            let rn = x.prerequisite_names();
            let ln = y.prerequisite_names();
            assert(keys(rn@) =~= crate::models::strs(rn@));
            assert(keys(ln@) =~= crate::models::strs(ln@));
            !same_keys(&rn, &ln)
        },
        _ => true,
    };
    if reqs_differ {
        return true;
    }
    let instance_same = match (&remote.instance, &local.instance) {
        (None, None) => true,
        (Some(x), Some(y)) => same_instance_exec(x, y),
        _ => false,
    };
    !instance_same
}


/// A challenge never needs updating to match itself.
pub proof fn law_needs_update_reflexive(c: Challenge)
    ensures
        !spec_needs_update(c, c),
{
}

/// Whether two challenges differ does not depend on which one is remote.
pub proof fn law_needs_update_symmetric(a: Challenge, b: Challenge)
    ensures
        spec_needs_update(a, b) == spec_needs_update(b, a),
{
    assert(same_elements(keys(match a.flags { Some(x) => x@, None => seq![] }), keys(match b.flags { Some(x) => x@, None => seq![] }))
        == same_elements(keys(match b.flags { Some(x) => x@, None => seq![] }), keys(match a.flags { Some(x) => x@, None => seq![] })));
    assert(same_elements(keys(match a.tags { Some(x) => x@, None => seq![] }), keys(match b.tags { Some(x) => x@, None => seq![] }))
        == same_elements(keys(match b.tags { Some(x) => x@, None => seq![] }), keys(match a.tags { Some(x) => x@, None => seq![] })));
    assert(same_elements(keys(match a.hints { Some(x) => x@, None => seq![] }), keys(match b.hints { Some(x) => x@, None => seq![] }))
        == same_elements(keys(match b.hints { Some(x) => x@, None => seq![] }), keys(match a.hints { Some(x) => x@, None => seq![] })));
    match (a.requirements, b.requirements) {
        (Some(x), Some(y)) => {
            assert(same_elements(x.names(), y.names()) == same_elements(y.names(), x.names()));
        },
        _ => {},
    }
}

/// Reordering a challenge's flags, tags or hints never triggers an update:
/// if the local lists hold the same keys as before, the answer is the same.
pub proof fn law_list_order_irrelevant(remote: Challenge, local: Challenge, reordered: Challenge)
    requires
        reordered.category == local.category,
        reordered.value == local.value,
        reordered.description == local.description,
        reordered.state == local.state,
        reordered.connection_info == local.connection_info,
        reordered.attempts == local.attempts,
        reordered.extra == local.extra,
        reordered.instance == local.instance,
        reordered.requirements == local.requirements,
        reordered.flags is Some <==> local.flags is Some,
        reordered.tags is Some <==> local.tags is Some,
        reordered.hints is Some <==> local.hints is Some,
        reordered.flags is Some ==> same_elements(keys(reordered.flags->0@), keys(local.flags->0@)),
        reordered.tags is Some ==> same_elements(keys(reordered.tags->0@), keys(local.tags->0@)),
        reordered.hints is Some ==> same_elements(keys(reordered.hints->0@), keys(local.hints->0@)),
    ensures
        spec_needs_update(remote, reordered) == spec_needs_update(remote, local),
{
}


/// Taking out position `j` takes out one occurrence of what stood there.
proof fn lemma_occurrences_remove<K>(s: Seq<K>, j: int, k: K)
    requires
        0 <= j < s.len(),
    ensures
        occurrences(s, k) == occurrences(s.remove(j), k) + if s[j] == k { 1nat } else { 0nat },
    decreases s.len(),
{
    if j == s.len() - 1 {
        assert(s.remove(j) =~= s.drop_last());
    } else {
        lemma_occurrences_remove(s.drop_last(), j, k);
        assert(s.remove(j).drop_last() =~= s.drop_last().remove(j));
        assert(s.remove(j).last() == s.last());
    }
}

/// Two lists with the same items, counted with multiplicity, have the same
/// keys, counted with multiplicity.
pub proof fn lemma_same_items_same_keys<T: Keyed>(a: Seq<T>, b: Seq<T>)
    requires
        same_elements(a, b),
    ensures
        same_elements(keys(a), keys(b)),
    decreases a.len(),
{
    if a.len() == 0 {
        if b.len() > 0 {
            lemma_occurrences_remove(b, 0, b[0]);
            assert(occurrences(a, b[0]) == 0);
        }
        assert(keys(a) =~= keys(b));
    } else {
        let x = a.last();
        assert(occurrences(a, x) > 0);
        lemma_occurrences_pos(b, x);
        let j = choose|j: int| 0 <= j < b.len() && b[j] == x;
        let a1 = a.drop_last();
        let b1 = b.remove(j);
        assert forall|k: T| #[trigger] occurrences(a1, k) == occurrences(b1, k) by {
            lemma_occurrences_remove(b, j, k);
            assert(occurrences(a, k) == occurrences(b, k));
        }
        lemma_same_items_same_keys(a1, b1);
        assert(keys(a1) =~= keys(a).drop_last());
        assert(keys(b1) =~= keys(b).remove(j));
        assert forall|k: T::K| #[trigger] occurrences(keys(a), k) == occurrences(keys(b), k) by {
            lemma_occurrences_remove(keys(b), j, k);
            assert(occurrences(keys(a1), k) == occurrences(keys(b1), k));
            assert(keys(a).last() == x.key());
            assert(keys(b)[j] == x.key());
        }
    }
}

/// Permuting a challenge's flags, tags or hints never triggers an update:
/// if the local lists hold the same items as before, in any order, the
/// answer is the same.
pub proof fn law_list_permutation_irrelevant(remote: Challenge, local: Challenge, reordered: Challenge)
    requires
        reordered.category == local.category,
        reordered.value == local.value,
        reordered.description == local.description,
        reordered.state == local.state,
        reordered.connection_info == local.connection_info,
        reordered.attempts == local.attempts,
        reordered.extra == local.extra,
        reordered.instance == local.instance,
        reordered.requirements == local.requirements,
        reordered.flags is Some <==> local.flags is Some,
        reordered.tags is Some <==> local.tags is Some,
        reordered.hints is Some <==> local.hints is Some,
        reordered.flags is Some ==> same_elements(reordered.flags->0@, local.flags->0@),
        reordered.tags is Some ==> same_elements(reordered.tags->0@, local.tags->0@),
        reordered.hints is Some ==> same_elements(reordered.hints->0@, local.hints->0@),
    ensures
        spec_needs_update(remote, reordered) == spec_needs_update(remote, local),
{
    if reordered.flags is Some {
        lemma_same_items_same_keys(reordered.flags->0@, local.flags->0@);
    }
    if reordered.tags is Some {
        lemma_same_items_same_keys(reordered.tags->0@, local.tags->0@);
    }
    if reordered.hints is Some {
        lemma_same_items_same_keys(reordered.hints->0@, local.hints->0@);
    }
    law_list_order_irrelevant(remote, local, reordered);
}


/// A challenge whose `instance` block changed in any field, on either side
/// present, must be updated: the image, the backend, the ports, the
/// connection, the lifetime, the command and every flag setting count.
pub proof fn law_instance_change_needs_update(remote: Challenge, local: Challenge)
    requires
        remote.instance is Some,
        local.instance is Some,
        ({
            let a = remote.instance->0;
            let b = local.instance->0;
            ||| a.backend != b.backend
            ||| opt_str(a.image) != opt_str(b.image)
            ||| opt_str(a.compose_file) != opt_str(b.compose_file)
            ||| opt_str(a.compose_service) != opt_str(b.compose_service)
            ||| opt_str(a.lxc_image) != opt_str(b.lxc_image)
            ||| opt_str(a.vagrantfile) != opt_str(b.vagrantfile)
            ||| a.internal_port != b.internal_port
            ||| a.connection@ != b.connection@
            ||| a.timeout_minutes != b.timeout_minutes
            ||| a.max_renewals != b.max_renewals
            ||| opt_str(a.command) != opt_str(b.command)
            ||| a.flag_mode != b.flag_mode
            ||| opt_str(a.flag_prefix) != opt_str(b.flag_prefix)
            ||| opt_str(a.flag_suffix) != opt_str(b.flag_suffix)
            ||| a.random_flag_length != b.random_flag_length
            ||| a.flag_delivery != b.flag_delivery
            ||| opt_str(a.flag_file_path) != opt_str(b.flag_file_path)
            ||| opt_str(a.flag_service) != opt_str(b.flag_service)
        }),
    ensures
        spec_needs_update(remote, local),
{
}

/// An instance block added or removed locally makes the challenge need an
/// update.
pub proof fn law_instance_presence_needs_update(remote: Challenge, local: Challenge)
    requires
        remote.instance is Some != local.instance is Some,
    ensures
        spec_needs_update(remote, local),
{
}

} // verus!
