//! The monitor's diff of a local challenge catalogue against the challenges
//! in the CTFd database: what to create, what to update, what is up to date
//! and what exists only remotely.
//!
//! Challenges are matched by name. Where a name occurs more than once in a
//! list, its last entry is the one that counts; entries without a name take
//! no part.
use vstd::prelude::*;
use crate::models::strs;
use crate::text::eq_str;

verus! {

/// A challenge as the diff compares it: its name, when it has one, and the
/// JSON text of its category, value and description.
pub struct DiffEntry {
    pub name: Option<String>,
    pub category: String,
    pub value: String,
    pub description: String,
}

/// The outcome of a diff; each list holds names.
pub struct ChallengeDiff {
    pub to_create: Vec<String>,
    pub to_update: Vec<String>,
    pub up_to_date: Vec<String>,
    pub remote_only: Vec<String>,
}

pub open spec fn named(s: Seq<DiffEntry>, i: int) -> bool {
    s[i].name is Some
}

pub open spec fn name_at(s: Seq<DiffEntry>, i: int) -> Seq<char> {
    s[i].name->0@
}

/// The last index below `k` whose entry is named `n`.
pub open spec fn last_below(s: Seq<DiffEntry>, n: Seq<char>, k: int) -> Option<int>
    decreases k,
{
    if k <= 0 {
        None
    } else if named(s, k - 1) && name_at(s, k - 1) == n {
        Some(k - 1)
    } else {
        last_below(s, n, k - 1)
    }
}

/// The index of the entry that counts for name `n`.
pub open spec fn last_index(s: Seq<DiffEntry>, n: Seq<char>) -> Option<int> {
    last_below(s, n, s.len() as int)
}

/// Entry `i` is the one that counts for its name.
pub open spec fn counts(s: Seq<DiffEntry>, i: int) -> bool {
    named(s, i) && last_index(s, name_at(s, i)) == Some(i)
}

/// Two entries differ in category, value or description.
pub open spec fn changed(l: DiffEntry, r: DiffEntry) -> bool {
    l.category@ != r.category@ || l.value@ != r.value@ || l.description@ != r.description@
}

/// How local entry `i` is classified: 0 when it does not count, 1 to
/// create, 2 to update, 3 up to date.
pub open spec fn kind_of(locals: Seq<DiffEntry>, remotes: Seq<DiffEntry>, i: int) -> int {
    if !counts(locals, i) {
        0
    } else {
        match last_index(remotes, name_at(locals, i)) {
            None => 1,
            Some(j) => if changed(locals[i], remotes[j]) { 2 } else { 3 },
        }
    }
}

/// The names of the local entries below `k` of the given kind, in order.
pub open spec fn kind_upto(locals: Seq<DiffEntry>, remotes: Seq<DiffEntry>, k: int, kind: int) -> Seq<Seq<char>>
    decreases k,
{
    if k <= 0 {
        Seq::empty()
    } else {
        let rest = kind_upto(locals, remotes, k - 1, kind);
        if kind_of(locals, remotes, k - 1) == kind {
            rest.push(name_at(locals, k - 1))
        } else {
            rest
        }
    }
}

/// Remote entry `j` counts for its name and no local entry has that name.
pub open spec fn only_remote(locals: Seq<DiffEntry>, remotes: Seq<DiffEntry>, j: int) -> bool {
    counts(remotes, j) && last_index(locals, name_at(remotes, j)) is None
}

/// The names of the remote-only entries below `k`, in order.
pub open spec fn remote_only_upto(locals: Seq<DiffEntry>, remotes: Seq<DiffEntry>, k: int) -> Seq<Seq<char>>
    decreases k,
{
    if k <= 0 {
        Seq::empty()
    } else {
        let rest = remote_only_upto(locals, remotes, k - 1);
        if only_remote(locals, remotes, k - 1) {
            rest.push(name_at(remotes, k - 1))
        } else {
            rest
        }
    }
}

/// The number of entries below `k` that count for their name.
pub open spec fn distinct_upto(s: Seq<DiffEntry>, k: int) -> nat
    decreases k,
{
    if k <= 0 {
        0
    } else {
        distinct_upto(s, k - 1) + if counts(s, k - 1) { 1nat } else { 0nat }
    }
}

/// The diff of `locals` against `remotes`, each list in the order of the
/// entries that count.
pub open spec fn diff_of(locals: Seq<DiffEntry>, remotes: Seq<DiffEntry>) -> (Seq<Seq<char>>, Seq<Seq<char>>, Seq<Seq<char>>, Seq<Seq<char>>) {
    (
        kind_upto(locals, remotes, locals.len() as int, 1),
        kind_upto(locals, remotes, locals.len() as int, 2),
        kind_upto(locals, remotes, locals.len() as int, 3),
        remote_only_upto(locals, remotes, remotes.len() as int),
    )
}

/// The index of the entry that counts for `name`.
pub fn find_last(entries: &[DiffEntry], name: &str) -> (r: Option<usize>)
    ensures
        match r {
            Some(k) => last_index(entries@, name@) == Some(k as int),
            None => last_index(entries@, name@) is None,
        },
        r matches Some(k) ==> k < entries@.len(),
{
    let mut k: usize = entries.len();
    while k > 0
        invariant
            k <= entries@.len(),
            last_index(entries@, name@) == last_below(entries@, name@, k as int),
        decreases k,
    {
        match &entries[k - 1].name {
            Some(n) => {
                if eq_str(n.as_str(), name) {
                    return Some(k - 1);
                }
            },
            None => {},
        }
        k = k - 1;
    }
    None
}

fn entries_differ(l: &DiffEntry, r: &DiffEntry) -> (b: bool)
    ensures
        b == changed(*l, *r),
{
    !eq_str(l.category.as_str(), r.category.as_str())
        || !eq_str(l.value.as_str(), r.value.as_str())
        || !eq_str(l.description.as_str(), r.description.as_str())
}

/// Classifies each local challenge as to create (no remote of that name),
/// to update (category, value or description differ) or up to date, and
/// lists the remote challenges whose name no local one has.
pub fn diff_challenges(locals: &[DiffEntry], remotes: &[DiffEntry]) -> (r: ChallengeDiff)
    ensures
        diff_of(locals@, remotes@) == (strs(r.to_create@), strs(r.to_update@), strs(r.up_to_date@), strs(r.remote_only@)),
{
    let mut to_create: Vec<String> = Vec::new();
    let mut to_update: Vec<String> = Vec::new();
    let mut up_to_date: Vec<String> = Vec::new();
    let mut i: usize = 0;
    while i < locals.len()
        invariant
            i <= locals@.len(),
            strs(to_create@) == kind_upto(locals@, remotes@, i as int, 1),
            strs(to_update@) == kind_upto(locals@, remotes@, i as int, 2),
            strs(up_to_date@) == kind_upto(locals@, remotes@, i as int, 3),
        decreases locals@.len() - i,
    {
        match &locals[i].name {
            Some(n) => {
                let last = find_last(locals, n.as_str());
                if last == Some(i) {
                    match find_last(remotes, n.as_str()) {
                        None => {
                            to_create.push(n.clone());
                        },
                        Some(j) => {
                            if entries_differ(&locals[i], &remotes[j]) {
                                to_update.push(n.clone());
                            } else {
                                up_to_date.push(n.clone());
                            }
                        },
                    }
                }
            },
            None => {},
        }
        proof {
            assert(strs(to_create@) =~= kind_upto(locals@, remotes@, i + 1, 1));
            assert(strs(to_update@) =~= kind_upto(locals@, remotes@, i + 1, 2));
            assert(strs(up_to_date@) =~= kind_upto(locals@, remotes@, i + 1, 3));
        }
        i = i + 1;
    }
    let mut remote_only: Vec<String> = Vec::new();
    let mut j: usize = 0;
    while j < remotes.len()
        invariant
            j <= remotes@.len(),
            strs(remote_only@) == remote_only_upto(locals@, remotes@, j as int),
        decreases remotes@.len() - j,
    {
        match &remotes[j].name {
            Some(n) => {
                if find_last(remotes, n.as_str()) == Some(j) && find_last(locals, n.as_str()).is_none() {
                    remote_only.push(n.clone());
                }
            },
            None => {},
        }
        proof {
            assert(strs(remote_only@) =~= remote_only_upto(locals@, remotes@, j + 1));
        }
        j = j + 1;
    }
    ChallengeDiff { to_create, to_update, up_to_date, remote_only }
}

proof fn lemma_kind_partition(locals: Seq<DiffEntry>, remotes: Seq<DiffEntry>, k: int)
    requires
        0 <= k <= locals.len(),
    ensures
        kind_upto(locals, remotes, k, 1).len() + kind_upto(locals, remotes, k, 2).len()
            + kind_upto(locals, remotes, k, 3).len() == distinct_upto(locals, k),
    decreases k,
{
    if k > 0 {
        lemma_kind_partition(locals, remotes, k - 1);
    }
}

/// Every local name is classified exactly once: the three local lists
/// together hold as many names as the local catalogue has distinct names.
pub proof fn law_diff_partitions(locals: Seq<DiffEntry>, remotes: Seq<DiffEntry>)
    ensures
        diff_of(locals, remotes).0.len() + diff_of(locals, remotes).1.len() + diff_of(locals, remotes).2.len()
            == distinct_upto(locals, locals.len() as int),
{
    lemma_kind_partition(locals, remotes, locals.len() as int);
}

proof fn lemma_last_below_found(s: Seq<DiffEntry>, n: Seq<char>, k: int, i: int)
    requires
        0 <= i < k <= s.len(),
        named(s, i),
        name_at(s, i) == n,
    ensures
        last_below(s, n, k) matches Some(j) && i <= j < k && named(s, j) && name_at(s, j) == n,
    decreases k,
{
    if k - 1 != i && !(named(s, k - 1) && name_at(s, k - 1) == n) {
        lemma_last_below_found(s, n, k - 1, i);
    }
}

proof fn lemma_self_kinds(s: Seq<DiffEntry>, k: int)
    requires
        0 <= k <= s.len(),
    ensures
        kind_upto(s, s, k, 1).len() == 0,
        kind_upto(s, s, k, 2).len() == 0,
        remote_only_upto(s, s, k).len() == 0,
    decreases k,
{
    if k > 0 {
        lemma_self_kinds(s, k - 1);
        let i = k - 1;
        if counts(s, i) {
            lemma_last_below_found(s, name_at(s, i), s.len() as int, i);
        }
    }
}

/// A catalogue diffed against itself has nothing to create, nothing to
/// update and nothing only remote: every challenge is up to date.
pub proof fn law_self_diff_up_to_date(s: Seq<DiffEntry>)
    ensures
        diff_of(s, s).0.len() == 0,
        diff_of(s, s).1.len() == 0,
        diff_of(s, s).3.len() == 0,
        diff_of(s, s).2.len() == distinct_upto(s, s.len() as int),
{
    lemma_self_kinds(s, s.len() as int);
    lemma_kind_partition(s, s, s.len() as int);
}


/// Entry `i` has name `n` and no later entry has that name.
pub open spec fn last_named(s: Seq<DiffEntry>, i: int, n: Seq<char>) -> bool {
    &&& 0 <= i < s.len()
    &&& s[i].name is Some
    &&& s[i].name->0@ == n
    &&& forall|k: int| i < k < s.len() && s[k].name is Some ==> s[k].name->0@ != n
}

proof fn lemma_last_named(s: Seq<DiffEntry>, i: int, n: Seq<char>, k: int)
    requires
        last_named(s, i, n),
        i < k <= s.len(),
    ensures
        last_below(s, n, k) == Some(i),
    decreases k,
{
    if k - 1 > i {
        assert(!(named(s, k - 1) && name_at(s, k - 1) == n));
        lemma_last_named(s, i, n, k - 1);
    }
}

/// A name is listed under a kind exactly when some entry of that kind has it.
proof fn lemma_kind_upto_contains(locals: Seq<DiffEntry>, remotes: Seq<DiffEntry>, k: int, kind: int, x: Seq<char>)
    requires
        0 <= k <= locals.len(),
    ensures
        kind_upto(locals, remotes, k, kind).contains(x) <==> exists|m: int|
            0 <= m < k && kind_of(locals, remotes, m) == kind && #[trigger] name_at(locals, m) == x,
    decreases k,
{
    if k > 0 {
        lemma_kind_upto_contains(locals, remotes, k - 1, kind, x);
        let rest = kind_upto(locals, remotes, k - 1, kind);
        if kind_of(locals, remotes, k - 1) == kind {
            assert(kind_upto(locals, remotes, k, kind) == rest.push(name_at(locals, k - 1)));
            let pushed = rest.push(name_at(locals, k - 1));
            if pushed.contains(x) && !rest.contains(x) {
                let q = choose|q: int| 0 <= q < pushed.len() && #[trigger] pushed[q] == x;
                if q < rest.len() {
                    assert(rest[q] == x);
                }
            }
            if rest.contains(x) {
                let q = choose|q: int| 0 <= q < rest.len() && rest[q] == x;
                assert(rest.push(name_at(locals, k - 1))[q] == x);
            }
            if name_at(locals, k - 1) == x {
                assert(rest.push(name_at(locals, k - 1))[rest.len() as int] == x);
            }
        }
    } else {
        assert(kind_upto(locals, remotes, k, kind) =~= Seq::<Seq<char>>::empty());
    }
}

/// The local entry that counts for name `n` is the only one classified
/// under that name.
proof fn lemma_only_classified(locals: Seq<DiffEntry>, remotes: Seq<DiffEntry>, i: int, n: Seq<char>, kind: int)
    requires
        last_named(locals, i, n),
        kind != 0,
    ensures
        diff_kind_has(locals, remotes, kind, n) <==> kind_of(locals, remotes, i) == kind,
{
    lemma_last_named(locals, i, n, locals.len() as int);
    lemma_kind_upto_contains(locals, remotes, locals.len() as int, kind, n);
    if exists|m: int| 0 <= m < locals.len() && kind_of(locals, remotes, m) == kind && #[trigger] name_at(locals, m) == n {
        let m = choose|m: int| 0 <= m < locals.len() && kind_of(locals, remotes, m) == kind && #[trigger] name_at(locals, m) == n;
        assert(counts(locals, m));
        assert(m == i);
    }
    if kind_of(locals, remotes, i) == kind {
        assert(name_at(locals, i) == n);
    }
}

/// The list of the given kind (1 create, 2 update, 3 up to date) holds `n`.
pub open spec fn diff_kind_has(locals: Seq<DiffEntry>, remotes: Seq<DiffEntry>, kind: int, n: Seq<char>) -> bool {
    kind_upto(locals, remotes, locals.len() as int, kind).contains(n)
}

/// A local challenge whose remote counterpart (the last remote entry of its
/// name) differs in category, value or description is listed to update and
/// not as up to date; one that agrees in all three is listed as up to date
/// and not to update.
pub proof fn law_changed_entry_updated(locals: Seq<DiffEntry>, remotes: Seq<DiffEntry>, i: int, j: int, n: Seq<char>)
    requires
        last_named(locals, i, n),
        last_named(remotes, j, n),
    ensures
        (locals[i].category@ != remotes[j].category@ || locals[i].value@ != remotes[j].value@
            || locals[i].description@ != remotes[j].description@) ==> diff_of(locals, remotes).1.contains(n)
            && !diff_of(locals, remotes).2.contains(n),
        (locals[i].category@ == remotes[j].category@ && locals[i].value@ == remotes[j].value@
            && locals[i].description@ == remotes[j].description@) ==> diff_of(locals, remotes).2.contains(n)
            && !diff_of(locals, remotes).1.contains(n),
{
    lemma_last_named(locals, i, n, locals.len() as int);
    lemma_last_named(remotes, j, n, remotes.len() as int);
    assert(counts(locals, i));
    assert(last_index(remotes, name_at(locals, i)) == Some(j));
    lemma_only_classified(locals, remotes, i, n, 2);
    lemma_only_classified(locals, remotes, i, n, 3);
}

/// A local challenge whose name no remote entry has is listed to create.
pub proof fn law_new_entry_created(locals: Seq<DiffEntry>, remotes: Seq<DiffEntry>, i: int, n: Seq<char>)
    requires
        last_named(locals, i, n),
        forall|k: int| 0 <= k < remotes.len() && remotes[k].name is Some ==> remotes[k].name->0@ != n,
    ensures
        diff_of(locals, remotes).0.contains(n),
        !diff_of(locals, remotes).1.contains(n),
        !diff_of(locals, remotes).2.contains(n),
{
    lemma_last_named(locals, i, n, locals.len() as int);
    assert(counts(locals, i));
    lemma_no_name(remotes, n, remotes.len() as int);
    lemma_only_classified(locals, remotes, i, n, 1);
    lemma_only_classified(locals, remotes, i, n, 2);
    lemma_only_classified(locals, remotes, i, n, 3);
}

proof fn lemma_no_name(s: Seq<DiffEntry>, n: Seq<char>, k: int)
    requires
        0 <= k <= s.len(),
        forall|m: int| 0 <= m < s.len() && s[m].name is Some ==> s[m].name->0@ != n,
    ensures
        last_below(s, n, k) is None,
    decreases k,
{
    if k > 0 {
        lemma_no_name(s, n, k - 1);
    }
}

} // verus!
