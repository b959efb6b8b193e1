//! Recognising challenge files, finishing a loaded challenge (its source
//! directory and the top-level keys the ctfcli spec does not know), and the
//! statistics over a scanned set.
use vstd::prelude::*;
use crate::models::{Challenge, listed, strs};
use crate::paths::{path_extension, path_file_name, path_parent, spec_extension, spec_file_name, spec_parent};
use crate::report::{join_with, push_joined};
use crate::text::{contains, contains_str, dec, eq_str, push_decimal, spec_to_lowercase, to_lowercase};

verus! {

/// File names that are always challenge files.
pub open spec fn is_challenge_pattern(name: Seq<char>) -> bool {
    name == "challenge.yml"@ || name == "challenge.yaml"@ || name == "challenge.json"@
}

/// Extensions a challenge file may have.
pub open spec fn is_challenge_extension(ext: Seq<char>) -> bool {
    ext == "yml"@ || ext == "yaml"@ || ext == "json"@
}

/// A path names a challenge file: its file name is one of the fixed
/// patterns, or it has a challenge extension and its lowercased file name
/// contains `challenge`.
pub open spec fn challenge_file(path: Seq<char>) -> bool {
    match spec_file_name(path) {
        Some(name) => is_challenge_pattern(name) || match spec_extension(path) {
            Some(ext) => is_challenge_extension(ext) && contains(spec_to_lowercase(name), "challenge"@),
            None => false,
        },
        None => false,
    }
}

/// The directory a challenge's relative file references resolve against:
/// the parent of its file, or `.` when the path has none.
pub open spec fn source_dir_of(path: Seq<char>) -> Seq<char> {
    match spec_parent(path) {
        Some(p) => p,
        None => "."@,
    }
}

/// Top-level keys of the ctfcli challenge spec, plus this tool's `instance`.
pub open spec fn known_spec_keys() -> Seq<Seq<char>> {
    seq![
        "name"@, "author"@, "category"@, "description"@, "attribution"@, "value"@, "type"@,
        "extra"@, "image"@, "protocol"@, "host"@, "connection_info"@, "healthcheck"@,
        "attempts"@, "flags"@, "topics"@, "tags"@, "files"@, "hints"@, "requirements"@,
        "next"@, "state"@, "version"@, "id"@, "challenge_id"@, "instance"@,
    ]
}

/// The keys of `keys` that the spec does not know, in order.
pub open spec fn unknown_keys_of(keys: Seq<Seq<char>>) -> Seq<Seq<char>> {
    keys.filter(|k: Seq<char>| !known_spec_keys().contains(k))
}

/// A path whose extension is `json` (parsed as JSON rather than YAML).
pub open spec fn is_json_path(path: Seq<char>) -> bool {
    spec_extension(path) == Some("json"@)
}

/// A challenge file that could not be loaded during a scan.
pub struct ScanFailure {
    pub path: String,
    pub error: String,
}

/// Recognises challenge files and summarises scanned challenges.
pub struct DirectoryScanner;

/// Statistics about scanned challenges.
pub struct ChallengeStats {
    pub total_challenges: usize,
    pub total_points: u32,
    pub total_flags: usize,
    pub total_hints: usize,
    pub total_files: usize,
    pub categories: Vec<String>,
}

/// What one challenge adds to a statistic: its points (`0`), flags (`1`),
/// hints (`2`) or files (`3`).
pub open spec fn tally(c: Challenge, kind: int) -> nat {
    if kind == 0 {
        c.value as nat
    } else if kind == 1 {
        match c.flags {
            Some(v) => v@.len(),
            None => 0,
        }
    } else if kind == 2 {
        match c.hints {
            Some(v) => v@.len(),
            None => 0,
        }
    } else {
        match c.files {
            Some(v) => v@.len(),
            None => 0,
        }
    }
}

/// Sum of one statistic over a sequence of challenges.
pub open spec fn sum_over(cs: Seq<Challenge>, kind: int) -> nat
    decreases cs.len(),
{
    if cs.len() == 0 {
        0
    } else {
        sum_over(cs.drop_last(), kind) + tally(cs.last(), kind)
    }
}

pub open spec fn total_points(cs: Seq<Challenge>) -> nat {
    sum_over(cs, 0)
}

pub open spec fn total_flags(cs: Seq<Challenge>) -> nat {
    sum_over(cs, 1)
}

pub open spec fn total_hints(cs: Seq<Challenge>) -> nat {
    sum_over(cs, 2)
}

pub open spec fn total_files(cs: Seq<Challenge>) -> nat {
    sum_over(cs, 3)
}

/// The categories of `cs`, each once, in order of first appearance.
pub open spec fn distinct_categories(cs: Seq<Challenge>) -> Seq<Seq<char>>
    decreases cs.len(),
{
    if cs.len() == 0 {
        seq![]
    } else {
        let prev = distinct_categories(cs.drop_last());
        if prev.contains(cs.last().category@) {
            prev
        } else {
            prev.push(cs.last().category@)
        }
    }
}

/// A sum over a prefix is at most the sum over the whole.
pub proof fn lemma_sum_prefix(cs: Seq<Challenge>, kind: int, i: int)
    requires
        0 <= i <= cs.len(),
    ensures
        sum_over(cs.take(i), kind) <= sum_over(cs, kind),
    decreases cs.len(),
{
    if i < cs.len() {
        assert(cs.drop_last().take(i) =~= cs.take(i));
        lemma_sum_prefix(cs.drop_last(), kind, i);
    } else {
        assert(cs.take(i) =~= cs);
    }
}

impl ChallengeStats {
    pub open spec fn category_names(&self) -> Seq<Seq<char>> {
        strs(self.categories@)
    }

    /// The report lines of the statistics.
    pub open spec fn report(&self) -> Seq<Seq<char>> {
        seq![
            "stats:"@,
            "  Total Challenges: "@ + dec(self.total_challenges as nat),
            "  Total Points: "@ + dec(self.total_points as nat),
            "  Total Flags: "@ + dec(self.total_flags as nat),
            "  Total Hints: "@ + dec(self.total_hints as nat),
            "  Total Files: "@ + dec(self.total_files as nat),
            "  Categories: "@ + join_with(self.category_names(), ", "@),
        ]
    }

    /// The statistics as printed, one line each.
    pub fn lines(&self) -> (r: Vec<String>)
        ensures
            strs(r@) == self.report(),
    {
        let mut out: Vec<String> = Vec::new();
        out.push(String::from_str("stats:"));
        let mut l = String::from_str("  Total Challenges: ");
        push_decimal(&mut l, self.total_challenges as u64);
        out.push(l);
        let mut l = String::from_str("  Total Points: ");
        push_decimal(&mut l, self.total_points as u64);
        out.push(l);
        let mut l = String::from_str("  Total Flags: ");
        push_decimal(&mut l, self.total_flags as u64);
        out.push(l);
        let mut l = String::from_str("  Total Hints: ");
        push_decimal(&mut l, self.total_hints as u64);
        out.push(l);
        let mut l = String::from_str("  Total Files: ");
        push_decimal(&mut l, self.total_files as u64);
        out.push(l);
        let mut l = String::from_str("  Categories: ");
        push_joined(&mut l, &self.categories, ", ");
        out.push(l);
        assert(strs(out@) =~= self.report());
        out
    }
}

/// The parent directory of a challenge file, or `.`.
pub fn source_dir(path: &str) -> (r: String)
    ensures
        r@ == source_dir_of(path@),
{
    match path_parent(path) {
        Some(p) => p,
        None => String::from_str("."),
    }
}

/// Whether a challenge file is parsed as JSON.
pub fn is_json_file(path: &str) -> (r: bool)
    ensures
        r == is_json_path(path@),
{
    match path_extension(path) {
        Some(ext) => eq_str(ext.as_str(), "json"),
        None => false,
    }
}

/// Whether `key` is a top-level key of the challenge spec.
fn is_known_key(key: &str) -> (r: bool)
    ensures
        r == known_spec_keys().contains(key@),
{
    let known: [&str; 26] = [
        "name", "author", "category", "description", "attribution", "value", "type", "extra",
        "image", "protocol", "host", "connection_info", "healthcheck", "attempts", "flags",
        "topics", "tags", "files", "hints", "requirements", "next", "state", "version", "id",
        "challenge_id", "instance",
    ];
    let ghost spec_known = known_spec_keys();
    assert(known@.map_values(|s: &str| s@) =~= spec_known);
    let mut i: usize = 0;
    while i < 26
        invariant
            i <= 26,
            known@.map_values(|s: &str| s@) == spec_known,
            spec_known == known_spec_keys(),
            forall|j: int| 0 <= j < i ==> spec_known[j] != key@,
        decreases 26 - i,
    {
        if eq_str(known[i], key) {
            assert(spec_known[i as int] == key@);
            return true;
        }
        i = i + 1;
    }
    assert(!spec_known.contains(key@)) by {
        if spec_known.contains(key@) {
            let j = choose|j: int| 0 <= j < spec_known.len() && spec_known[j] == key@;
            assert(spec_known[j] != key@);
        }
    }
    false
}

/// The top-level keys that the challenge spec does not know, in order.
pub fn unknown_keys(keys: &Vec<String>) -> (r: Vec<String>)
    ensures
        strs(r@) == unknown_keys_of(strs(keys@)),
{
    let mut out: Vec<String> = Vec::new();
    let mut i: usize = 0;
    while i < keys.len()
        invariant
            i <= keys@.len(),
            strs(out@) == unknown_keys_of(strs(keys@).take(i as int)),
        decreases keys@.len() - i,
    {
        let known = is_known_key(keys[i].as_str());
        proof {
            let pre = strs(keys@).take(i as int);
            let next = strs(keys@).take(i + 1);
            assert(next.drop_last() =~= pre);
            assert(next.last() == keys@[i as int]@);
            reveal_with_fuel(Seq::filter, 1);
        }
        if !known {
            out.push(keys[i].clone());
            proof {
                assert(strs(out@) =~= strs(out@).drop_last().push(keys@[i as int]@));
            }
        }
        i = i + 1;
    }
    assert(strs(keys@).take(keys@.len() as int) =~= strs(keys@));
    out
}

/// Finishes a challenge loaded from `path`: its source directory is the
/// file's directory, and for a YAML file every top-level key that the spec
/// does not know is recorded for the validator. `top_level_keys` are the
/// string keys of the file's top-level mapping, in file order.
pub fn finish_loaded(config: &mut Challenge, path: &str, top_level_keys: &Vec<String>)
    ensures
        final(config).source_path@ == source_dir_of(path@),
        strs(final(config).unknown_yaml_keys@) == if is_json_path(path@) {
            strs(old(config).unknown_yaml_keys@)
        } else {
            strs(old(config).unknown_yaml_keys@) + unknown_keys_of(strs(top_level_keys@))
        },
        final(config).name == old(config).name,
        final(config).category == old(config).category,
        final(config).flags == old(config).flags,
{
    config.source_path = source_dir(path);
    if !is_json_file(path) {
        let mut extra = unknown_keys(top_level_keys);
        let ghost before = config.unknown_yaml_keys@;
        config.unknown_yaml_keys.append(&mut extra);
        assert(strs(config.unknown_yaml_keys@) =~= strs(before) + unknown_keys_of(strs(top_level_keys@)));
    }
}

impl DirectoryScanner {
    pub fn new() -> (r: Self) {
        DirectoryScanner
    }

    /// Whether `path` names a challenge configuration file.
    pub fn is_challenge_file(&self, path: &str) -> (r: bool)
        ensures
            r == challenge_file(path@),
    {
        match path_file_name(path) {
            Some(name) => {
                let n = name.as_str();
                if eq_str(n, "challenge.yml") || eq_str(n, "challenge.yaml") || eq_str(n, "challenge.json") {
                    return true;
                }
                match path_extension(path) {
                    Some(ext) => {
                        let e = ext.as_str();
                        if eq_str(e, "yml") || eq_str(e, "yaml") || eq_str(e, "json") {
                            let lower = to_lowercase(n);
                            contains_str(lower.as_str(), "challenge")
                        } else {
                            false
                        }
                    },
                    None => false,
                }
            },
            None => false,
        }
    }

    /// Counts challenges, points, flags, hints and files, and lists the
    /// categories in order of first appearance.
    pub fn get_stats(&self, challenges: &[Challenge]) -> (r: ChallengeStats)
        requires
            total_points(challenges@) <= u32::MAX,
            total_flags(challenges@) <= usize::MAX,
            total_hints(challenges@) <= usize::MAX,
            total_files(challenges@) <= usize::MAX,
        ensures
            r.total_challenges == challenges@.len(),
            r.total_points == total_points(challenges@),
            r.total_flags == total_flags(challenges@),
            r.total_hints == total_hints(challenges@),
            r.total_files == total_files(challenges@),
            r.category_names() == distinct_categories(challenges@),
    {
        let ghost cs = challenges@;
        let mut stats = ChallengeStats {
            total_challenges: 0,
            total_points: 0,
            total_flags: 0,
            total_hints: 0,
            total_files: 0,
            categories: Vec::new(),
        };
        let mut i: usize = 0;
        while i < challenges.len()
            invariant
                cs == challenges@,
                i <= cs.len(),
                sum_over(cs, 0) <= u32::MAX,
                sum_over(cs, 1) <= usize::MAX,
                sum_over(cs, 2) <= usize::MAX,
                sum_over(cs, 3) <= usize::MAX,
                stats.total_challenges == i,
                stats.total_points == sum_over(cs.take(i as int), 0),
                stats.total_flags == sum_over(cs.take(i as int), 1),
                stats.total_hints == sum_over(cs.take(i as int), 2),
                stats.total_files == sum_over(cs.take(i as int), 3),
                stats.category_names() == distinct_categories(cs.take(i as int)),
            decreases cs.len() - i,
        {
            let c = &challenges[i];
            proof {
                let next = cs.take(i + 1);
                assert(next.drop_last() =~= cs.take(i as int));
                assert(next.last() == cs[i as int]);
                lemma_sum_prefix(cs, 0, i + 1);
                lemma_sum_prefix(cs, 1, i + 1);
                lemma_sum_prefix(cs, 2, i + 1);
                lemma_sum_prefix(cs, 3, i + 1);
            }
            stats.total_challenges = stats.total_challenges + 1;
            stats.total_points = stats.total_points + c.value;
            match &c.flags {
                Some(v) => { stats.total_flags = stats.total_flags + v.len(); },
                None => {},
            }
            match &c.hints {
                Some(v) => { stats.total_hints = stats.total_hints + v.len(); },
                None => {},
            }
            match &c.files {
                Some(v) => { stats.total_files = stats.total_files + v.len(); },
                None => {},
            }
            if !listed(&stats.categories, c.category.as_str()) {
                stats.categories.push(c.category.clone());
                proof {
                    assert(stats.category_names() =~= distinct_categories(cs.take(i as int)).push(c.category@));
                }
            }
            i = i + 1;
        }
        assert(cs.take(cs.len() as int) =~= cs);
        stats
    }
}


/// The category list names every category of the scanned challenges, each
/// exactly once.
pub proof fn law_categories_distinct(cs: Seq<Challenge>)
    ensures
        forall|i: int, j: int| 0 <= i < j < distinct_categories(cs).len() ==> distinct_categories(cs)[i]
            != distinct_categories(cs)[j],
        forall|k: int| 0 <= k < cs.len() ==> distinct_categories(cs).contains(#[trigger] cs[k].category@),
        forall|i: int| 0 <= i < distinct_categories(cs).len() ==> exists|k: int| 0 <= k < cs.len()
            && #[trigger] distinct_categories(cs)[i] == cs[k].category@,
    decreases cs.len(),
{
    if cs.len() > 0 {
        let p = cs.drop_last();
        law_categories_distinct(p);
        let prev = distinct_categories(p);
        let d = distinct_categories(cs);
        let last = cs.last().category@;
        assert forall|k: int| 0 <= k < cs.len() implies d.contains(#[trigger] cs[k].category@) by {
            if k < cs.len() - 1 {
                assert(cs[k] == p[k]);
                let w = choose|w: int| 0 <= w < prev.len() && prev[w] == p[k].category@;
                if !prev.contains(last) {
                    assert(d[w] == prev[w]);
                }
            } else {
                if !prev.contains(last) {
                    assert(d[d.len() - 1] == last);
                }
            }
        }
        assert forall|i: int| 0 <= i < d.len() implies exists|k: int| 0 <= k < cs.len()
            && #[trigger] d[i] == cs[k].category@ by {
            if i < prev.len() {
                let k = choose|k: int| 0 <= k < p.len() && prev[i] == p[k].category@;
                assert(cs[k] == p[k]);
                assert(d[i] == prev[i]);
            } else {
                assert(d[i] == cs[cs.len() - 1].category@);
            }
        }
    }
}


/// `k` is none of the top-level keys of the ctfcli challenge spec (nor this
/// tool's `instance`).
pub open spec fn outside_ctfcli_spec(k: Seq<char>) -> bool {
    k != "name"@ && k != "author"@ && k != "category"@ && k != "description"@ && k != "attribution"@ && k != "value"@ && k != "type"@ && k != "extra"@ && k != "image"@ && k != "protocol"@ && k != "host"@ && k != "connection_info"@ && k != "healthcheck"@ && k != "attempts"@ && k != "flags"@ && k != "topics"@ && k != "tags"@ && k != "files"@ && k != "hints"@ && k != "requirements"@ && k != "next"@ && k != "state"@ && k != "version"@ && k != "id"@ && k != "challenge_id"@ && k != "instance"@
}

/// The keys reported as unknown are exactly those of the given keys that
/// the ctfcli spec does not name: a spec key such as `author` is never
/// reported, and every other key is.
pub proof fn law_unknown_keys_exact(keys: Seq<Seq<char>>)
    ensures
        forall|k: Seq<char>| #[trigger] unknown_keys_of(keys).contains(k) <==> keys.contains(k) && outside_ctfcli_spec(k),
{
    broadcast use vstd::seq_lib::group_filter_ensures;
    let pred = |k: Seq<char>| !known_spec_keys().contains(k);
    assert forall|k: Seq<char>| #[trigger] unknown_keys_of(keys).contains(k) implies keys.contains(k) && outside_ctfcli_spec(k) by {
        keys.lemma_filter_contains_rev(pred, k);
        let i = choose|i: int| 0 <= i < unknown_keys_of(keys).len() && unknown_keys_of(keys)[i] == k;
        assert(pred(unknown_keys_of(keys)[i]));
        assert(!known_spec_keys().contains(k));
        assert(known_spec_keys()[0] == "name"@);
        assert(known_spec_keys()[1] == "author"@);
        assert(known_spec_keys()[2] == "category"@);
        assert(known_spec_keys()[3] == "description"@);
        assert(known_spec_keys()[4] == "attribution"@);
        assert(known_spec_keys()[5] == "value"@);
        assert(known_spec_keys()[6] == "type"@);
        assert(known_spec_keys()[7] == "extra"@);
        assert(known_spec_keys()[8] == "image"@);
        assert(known_spec_keys()[9] == "protocol"@);
        assert(known_spec_keys()[10] == "host"@);
        assert(known_spec_keys()[11] == "connection_info"@);
        assert(known_spec_keys()[12] == "healthcheck"@);
        assert(known_spec_keys()[13] == "attempts"@);
        assert(known_spec_keys()[14] == "flags"@);
        assert(known_spec_keys()[15] == "topics"@);
        assert(known_spec_keys()[16] == "tags"@);
        assert(known_spec_keys()[17] == "files"@);
        assert(known_spec_keys()[18] == "hints"@);
        assert(known_spec_keys()[19] == "requirements"@);
        assert(known_spec_keys()[20] == "next"@);
        assert(known_spec_keys()[21] == "state"@);
        assert(known_spec_keys()[22] == "version"@);
        assert(known_spec_keys()[23] == "id"@);
        assert(known_spec_keys()[24] == "challenge_id"@);
        assert(known_spec_keys()[25] == "instance"@);
    }
    assert forall|k: Seq<char>| keys.contains(k) && outside_ctfcli_spec(k) implies #[trigger] unknown_keys_of(keys).contains(k) by {
        let i = choose|i: int| 0 <= i < keys.len() && keys[i] == k;
        assert(!known_spec_keys().contains(k)) by {
            if known_spec_keys().contains(k) {
                let j = choose|j: int| 0 <= j < known_spec_keys().len() && known_spec_keys()[j] == k;
            }
        }
        keys.lemma_filter_contains(pred, i);
    }
}

} // verus!
