//! The challenge model of the ctfcli specification (with the NervCTF
//! `instance` extension), the dependency queue used while deploying, and
//! dependency ordering of sync actions.
use vstd::prelude::*;
use crate::text::{dec, decimal, eq_str};

verus! {

/// Kind of a challenge as written in `type:`.
#[derive(Debug, Clone, Copy, PartialEq, Eq, Structural)]
pub enum ChallengeType {
    Standard,
    Dynamic,
    Instance,
}

/// How a detailed flag is matched.
#[derive(Debug, Clone, Copy, PartialEq, Eq, Structural)]
pub enum FlagType {
    Static,
    Regex,
}

/// Case sensitivity of a detailed flag.
#[derive(Debug, Clone, Copy, PartialEq, Eq, Structural)]
pub enum FlagData {
    CaseSensitive,
    CaseInsensitive,
}

/// A flag: either a bare string or a detailed object.
#[derive(Debug, Clone)]
pub enum FlagContent {
    Simple(String),
    Detailed {
        id: Option<u32>,
        challenge_id: Option<u32>,
        type_: FlagType,
        content: String,
        data: Option<FlagData>,
    },
}

/// A hint as returned by the CTFd API.
#[derive(Debug, Clone)]
pub struct Hint {
    pub content: String,
    pub cost: Option<u32>,
    pub title: Option<String>,
}

/// A hint: either a bare string or a detailed object.
#[derive(Debug, Clone)]
pub enum HintContent {
    Simple(String),
    Detailed { content: String, cost: Option<u32>, title: Option<String> },
}

/// Flag generation mode for container challenges (`extra.flag_mode`).
#[derive(Debug, Clone, Copy, PartialEq, Eq, Structural)]
pub enum FlagMode {
    Static,
    Random,
}

/// The `extra` block shared by dynamic and instance challenges.
#[derive(Debug, Clone)]
pub struct Extra {
    pub initial: Option<u32>,
    pub decay: Option<u32>,
    pub minimum: Option<u32>,
    pub image: Option<String>,
    pub internal_port: Option<u32>,
    pub internal_ports: Option<String>,
    pub flag_mode: Option<FlagMode>,
    pub flag_prefix: Option<String>,
    pub flag_suffix: Option<String>,
    pub random_flag_length: Option<u32>,
    pub decay_function: Option<String>,
    pub timeout_minutes: Option<u32>,
    pub command: Option<String>,
}

impl Default for Extra {
    fn default() -> (r: Self)
        ensures
            r.initial is None && r.decay is None && r.minimum is None && r.image is None
                && r.internal_port is None && r.internal_ports is None && r.flag_mode is None
                && r.flag_prefix is None && r.flag_suffix is None && r.random_flag_length is None
                && r.decay_function is None && r.timeout_minutes is None && r.command is None,
    {
        Extra {
            initial: None,
            decay: None,
            minimum: None,
            image: None,
            internal_port: None,
            internal_ports: None,
            flag_mode: None,
            flag_prefix: None,
            flag_suffix: None,
            random_flag_length: None,
            decay_function: None,
            timeout_minutes: None,
            command: None,
        }
    }
}

/// Visibility of a challenge.
#[derive(Debug, Clone, Copy, PartialEq, Eq, Structural)]
pub enum State {
    Hidden,
    Visible,
}

/// A file record as returned by the CTFd API.
#[derive(Debug, Clone)]
pub struct File {
    pub location: String,
    pub sha1sum: String,
    pub id: Option<u32>,
    pub file_type: String,
}

/// A tag: either a bare string or a detailed object.
#[derive(Debug, Clone)]
pub enum Tag {
    Simple(String),
    Detailed { challenge_id: Option<u32>, id: Option<u32>, value: String },
}

/// One entry of a `requirements:` list, as far as the tool reads it: a name,
/// a non-negative integer id, or anything else (which is ignored).
#[derive(Debug, Clone)]
pub enum PrereqValue {
    Text(String),
    Number(u64),
    Other,
}

/// `requirements:` — a plain list or an advanced object.
#[derive(Debug, Clone)]
pub enum Requirements {
    Simple(Vec<PrereqValue>),
    Advanced { prerequisites: Vec<PrereqValue>, anonymize: bool },
}

/// Backend that runs an instance challenge.
#[derive(Debug, Clone, Copy, PartialEq, Eq, Structural)]
pub enum InstanceBackend {
    Docker,
    Compose,
    Lxc,
    Vagrant,
}

/// How an instance's flag is produced.
#[derive(Debug, Clone, Copy, PartialEq, Eq, Structural)]
pub enum InstanceFlagMode {
    Static,
    Random,
}

/// How an instance's flag reaches the container.
#[derive(Debug, Clone, Copy, PartialEq, Eq, Structural)]
pub enum FlagDelivery {
    Env,
    File,
}

/// The `instance:` block of an instance challenge.
#[derive(Debug, Clone)]
pub struct InstanceConfig {
    pub backend: InstanceBackend,
    pub image: Option<String>,
    pub compose_file: Option<String>,
    pub compose_service: Option<String>,
    pub lxc_image: Option<String>,
    pub vagrantfile: Option<String>,
    pub internal_port: u32,
    pub connection: String,
    pub timeout_minutes: Option<u32>,
    pub max_renewals: Option<u32>,
    pub command: Option<String>,
    pub flag_mode: Option<InstanceFlagMode>,
    pub flag_prefix: Option<String>,
    pub flag_suffix: Option<String>,
    pub random_flag_length: Option<u32>,
    pub flag_delivery: Option<FlagDelivery>,
    pub flag_file_path: Option<String>,
    pub flag_service: Option<String>,
}

/// One challenge, as read from `challenge.yml` or returned by CTFd.
#[derive(Debug, Clone)]
pub struct Challenge {
    pub name: String,
    pub category: String,
    pub value: u32,
    pub challenge_type: ChallengeType,
    pub description: Option<String>,
    pub id: Option<u32>,
    pub challenge_id: Option<u32>,
    pub author: Option<String>,
    pub extra: Option<Extra>,
    pub instance: Option<InstanceConfig>,
    pub image: Option<String>,
    pub protocol: Option<String>,
    pub host: Option<String>,
    pub connection_info: Option<String>,
    pub healthcheck: Option<String>,
    pub attempts: Option<u32>,
    pub flags: Option<Vec<FlagContent>>,
    pub topics: Option<Vec<String>>,
    pub tags: Option<Vec<Tag>>,
    pub files: Option<Vec<String>>,
    pub hints: Option<Vec<HintContent>>,
    pub requirements: Option<Requirements>,
    pub next: Option<String>,
    pub state: Option<State>,
    pub script: Option<String>,
    pub solved_by_me: Option<bool>,
    pub solves: Option<u32>,
    pub template: Option<String>,
    pub version: String,
    pub source_path: String,
    pub unknown_yaml_keys: Vec<String>,
}

// ── Views ──────────────────────────────────────────────────────────────────

/// The characters of each string of a sequence.
pub open spec fn strs(v: Seq<String>) -> Seq<Seq<char>> {
    v.map_values(|s: String| s@)
}

/// The characters of an optional string.
pub open spec fn opt_str(o: Option<String>) -> Option<Seq<char>> {
    match o {
        Some(s) => Some(s@),
        None => None,
    }
}

/// The text of a hint.
pub open spec fn hint_text(h: HintContent) -> Seq<char> {
    match h {
        HintContent::Simple(s) => s@,
        HintContent::Detailed { content, .. } => content@,
    }
}

/// The value of a tag.
pub open spec fn tag_text(t: Tag) -> Seq<char> {
    match t {
        Tag::Simple(s) => s@,
        Tag::Detailed { value, .. } => value@,
    }
}

/// The content of a flag.
pub open spec fn flag_text(f: FlagContent) -> Seq<char> {
    match f {
        FlagContent::Simple(s) => s@,
        FlagContent::Detailed { content, .. } => content@,
    }
}

/// The name a requirement entry contributes, if any: a string as is, a
/// non-negative integer in decimal.
pub open spec fn prereq_value_name(v: PrereqValue) -> Option<Seq<char>> {
    match v {
        PrereqValue::Text(s) => Some(s@),
        PrereqValue::Number(n) => Some(dec(n as nat)),
        PrereqValue::Other => None,
    }
}

/// The names of a list of requirement entries, in order, skipping the
/// entries that are neither strings nor non-negative integers.
pub open spec fn prereq_names_of(vals: Seq<PrereqValue>) -> Seq<Seq<char>>
    decreases vals.len(),
{
    if vals.len() == 0 {
        seq![]
    } else {
        let rest = prereq_names_of(vals.drop_last());
        match prereq_value_name(vals.last()) {
            Some(n) => rest.push(n),
            None => rest,
        }
    }
}

impl Requirements {
    /// The raw entries of either form.
    pub open spec fn entries(self) -> Seq<PrereqValue> {
        match self {
            Requirements::Simple(v) => v@,
            Requirements::Advanced { prerequisites, .. } => prerequisites@,
        }
    }

    /// The prerequisite names, as `prerequisite_names` returns them.
    pub open spec fn names(self) -> Seq<Seq<char>> {
        prereq_names_of(self.entries())
    }
}

/// The prerequisite names of optional requirements (none when absent).
pub open spec fn opt_prereq_names(r: Option<Requirements>) -> Seq<Seq<char>> {
    match r {
        Some(req) => req.names(),
        None => seq![],
    }
}

// ── Accessors ──────────────────────────────────────────────────────────────

/// Whether `x` is one of `names`.
pub fn listed(names: &Vec<String>, x: &str) -> (r: bool)
    ensures
        r == strs(names@).contains(x@),
{
    let mut i: usize = 0;
    while i < names.len()
        invariant
            i <= names@.len(),
            forall|j: int| 0 <= j < i ==> (#[trigger] names@[j])@ != x@,
        decreases names@.len() - i,
    {
        if eq_str(names[i].as_str(), x) {
            assert(strs(names@)[i as int] == x@);
            return true;
        }
        i = i + 1;
    }
    assert(!strs(names@).contains(x@)) by {
        if strs(names@).contains(x@) {
            let j = choose|j: int| 0 <= j < strs(names@).len() && strs(names@)[j] == x@;
            assert(names@[j]@ == x@);
        }
    }
    false
}

impl HintContent {
    /// The text of the hint, whichever form it was written in.
    pub fn content_str(&self) -> (r: &str)
        ensures
            r@ == hint_text(*self),
    {
        match self {
            HintContent::Simple(s) => s.as_str(),
            HintContent::Detailed { content, .. } => content.as_str(),
        }
    }
}

impl Tag {
    /// The value of the tag, whichever form it was written in.
    pub fn value_str(&self) -> (r: &str)
        ensures
            r@ == tag_text(*self),
    {
        match self {
            Tag::Simple(s) => s.as_str(),
            Tag::Detailed { value, .. } => value.as_str(),
        }
    }
}

impl FlagContent {
    /// The content of the flag, whichever form it was written in.
    pub fn content_str(&self) -> (r: &str)
        ensures
            r@ == flag_text(*self),
    {
        match self {
            FlagContent::Simple(s) => s.as_str(),
            FlagContent::Detailed { content, .. } => content.as_str(),
        }
    }
}

impl Requirements {
    /// Extract prerequisite names/IDs as strings for topological sorting:
    /// strings are kept, non-negative integers are written in decimal, other
    /// entries are dropped; the order is kept.
    pub fn prerequisite_names(&self) -> (r: Vec<String>)
        ensures
            strs(r@) == self.names(),
    {
        let vals = match self {
            Requirements::Simple(v) => v,
            Requirements::Advanced { prerequisites, .. } => prerequisites,
        };
        let mut out: Vec<String> = Vec::new();
        let mut i: usize = 0;
        while i < vals.len()
            invariant
                i <= vals@.len(),
                vals@ == self.entries(),
                strs(out@) == prereq_names_of(vals@.take(i as int)),
            decreases vals@.len() - i,
        {
            assert(vals@.take(i + 1).drop_last() =~= vals@.take(i as int));
            assert(vals@.take(i + 1).last() == vals@[i as int]);
            match &vals[i] {
                PrereqValue::Text(s) => {
                    out.push(s.clone());
                },
                PrereqValue::Number(n) => {
                    out.push(decimal(*n));
                },
                PrereqValue::Other => {},
            }
            assert(strs(out@) =~= prereq_names_of(vals@.take(i + 1)));
            i = i + 1;
        }
        assert(vals@.take(vals@.len() as int) =~= vals@);
        out
    }
}

/// The default `version:` of a challenge file.
pub fn default_version() -> (r: String)
    ensures
        r@ == "0.1"@,
{
    String::from_str("0.1")
}

} // verus!

verus! {

// ── Dependency queue ───────────────────────────────────────────────────────

/// A challenge waiting for its prerequisites: its name and the names it still
/// waits for.
pub type WaitView = (Seq<char>, Seq<Seq<char>>);

/// `reqs` without every occurrence of `x`, order kept.
pub open spec fn without(reqs: Seq<Seq<char>>, x: Seq<char>) -> Seq<Seq<char>>
    decreases reqs.len(),
{
    if reqs.len() == 0 {
        seq![]
    } else {
        let rest = without(reqs.drop_last(), x);
        if reqs.last() == x {
            rest
        } else {
            rest.push(reqs.last())
        }
    }
}

/// The queue after `x` was deployed: `x` is struck from every waiting list,
/// and the entries left with nothing to wait for are dropped.
pub open spec fn settle(q: Seq<WaitView>, x: Seq<char>) -> Seq<WaitView>
    decreases q.len(),
{
    if q.len() == 0 {
        seq![]
    } else {
        let rest = settle(q.drop_last(), x);
        let w = (q.last().0, without(q.last().1, x));
        if w.1.len() > 0 {
            rest.push(w)
        } else {
            rest
        }
    }
}

/// The names of the entries that wait for nothing, in queue order.
pub open spec fn ready_names(q: Seq<WaitView>) -> Seq<Seq<char>>
    decreases q.len(),
{
    if q.len() == 0 {
        seq![]
    } else if q.last().1.len() == 0 {
        ready_names(q.drop_last()).push(q.last().0)
    } else {
        ready_names(q.drop_last())
    }
}

/// The entries that still wait for something, in queue order.
pub open spec fn still_waiting(q: Seq<WaitView>) -> Seq<WaitView>
    decreases q.len(),
{
    if q.len() == 0 {
        seq![]
    } else if q.last().1.len() == 0 {
        still_waiting(q.drop_last())
    } else {
        still_waiting(q.drop_last()).push(q.last())
    }
}

/// A challenge together with the prerequisites it still waits for.
#[derive(Debug)]
pub struct ChallengeWaiting {
    name: String,
    requirements: Vec<String>,
}

impl View for ChallengeWaiting {
    type V = WaitView;

    closed spec fn view(&self) -> WaitView {
        (self.name@, strs(self.requirements@))
    }
}

impl ChallengeWaiting {
    /// A waiting entry for `name` with the given prerequisites.
    pub fn new(name: String, requirements: Vec<String>) -> (r: Self)
        ensures
            r@ == (name@, strs(requirements@)),
    {
        Self { name, requirements }
    }

    /// Nothing is left to wait for.
    pub fn satisfied(&self) -> (r: bool)
        ensures
            r == (self@.1.len() == 0),
    {
        self.requirements.len() == 0
    }

    /// Strikes `x` from the prerequisites.
    fn strike(&mut self, x: &str)
        ensures
            final(self)@ == (old(self)@.0, without(old(self)@.1, x@)),
    {
        let mut rest: Vec<String> = Vec::new();
        std::mem::swap(&mut rest, &mut self.requirements);
        let _total = rest.len();
        let ghost orig = rest@;
        let mut kept: Vec<String> = Vec::new();
        let mut k: usize = 0;
        while rest.len() > 0
            invariant
                orig.len() <= usize::MAX,
                k <= orig.len(),
                k + rest@.len() == orig.len(),
                rest@ == orig.skip(k as int),
                strs(kept@) == without(strs(orig.take(k as int)), x@),
            decreases rest@.len(),
        {
            let r = rest.remove(0);
            assert(orig[k as int] == r);
            assert(strs(orig.take(k + 1)).drop_last() =~= strs(orig.take(k as int)));
            assert(strs(orig.take(k + 1)).last() == r@);
            if !crate::text::eq_str(r.as_str(), x) {
                kept.push(r);
            }
            assert(strs(kept@) =~= without(strs(orig.take(k + 1)), x@));
            k = k + 1;
            assert(rest@ =~= orig.skip(k as int));
        }
        assert(orig.take(k as int) =~= orig);
        self.requirements = kept;
    }
}

/// The challenges still waiting for prerequisites, in the order they were
/// added.
#[derive(Debug)]
pub struct RequirementsQueue {
    queue: Vec<ChallengeWaiting>,
}

impl View for RequirementsQueue {
    type V = Seq<WaitView>;

    closed spec fn view(&self) -> Seq<WaitView> {
        self.queue@.map_values(|w: ChallengeWaiting| w@)
    }
}

impl RequirementsQueue {
    /// An empty queue.
    pub fn new() -> (r: Self)
        ensures
            r@ == Seq::<WaitView>::empty(),
    {
        let r = Self { queue: Vec::new() };
        assert(r@ =~= Seq::<WaitView>::empty());
        r
    }

    /// Appends `challenge` waiting for `requirements`.
    pub fn add(&mut self, challenge: String, requirements: Vec<String>)
        ensures
            final(self)@ == old(self)@.push((challenge@, strs(requirements@))),
    {
        self.queue.push(ChallengeWaiting::new(challenge, requirements));
        assert(self@ =~= old(self)@.push((challenge@, strs(requirements@))));
    }

    /// Records that `solved_challenge` was deployed: it is struck from every
    /// waiting list and entries with nothing left to wait for are dropped.
    pub fn process(&mut self, solved_challenge: &str)
        ensures
            final(self)@ == settle(old(self)@, solved_challenge@),
    {
        let mut rest: Vec<ChallengeWaiting> = Vec::new();
        std::mem::swap(&mut rest, &mut self.queue);
        let _total = rest.len();
        let ghost ov = rest@;
        let ghost orig = rest@.map_values(|w: ChallengeWaiting| w@);
        assert(orig == old(self)@);
        let mut kept: Vec<ChallengeWaiting> = Vec::new();
        let mut k: usize = 0;
        while rest.len() > 0
            invariant
                ov.len() <= usize::MAX,
                orig == ov.map_values(|w: ChallengeWaiting| w@),
                k <= orig.len(),
                k + rest@.len() == orig.len(),
                rest@ == ov.skip(k as int),
                kept@.map_values(|w: ChallengeWaiting| w@) == settle(orig.take(k as int), solved_challenge@),
            decreases rest@.len(),
        {
            let mut w = rest.remove(0);
            assert(orig[k as int] == w@);
            w.strike(solved_challenge);
            assert(orig.take(k + 1).drop_last() =~= orig.take(k as int));
            assert(orig.take(k + 1).last() == orig[k as int]);
            if !w.satisfied() {
                kept.push(w);
            }
            assert(kept@.map_values(|w: ChallengeWaiting| w@) =~= settle(orig.take(k + 1), solved_challenge@));
            k = k + 1;
            assert(rest@ =~= ov.skip(k as int));
        }
        assert(orig.take(k as int) =~= orig);
        self.queue = kept;
    }

    /// Removes the entries that wait for nothing and returns their names in
    /// queue order.
    pub fn pop_satisfied(&mut self) -> (r: Vec<String>)
        ensures
            strs(r@) == ready_names(old(self)@),
            final(self)@ == still_waiting(old(self)@),
    {
        let mut rest: Vec<ChallengeWaiting> = Vec::new();
        std::mem::swap(&mut rest, &mut self.queue);
        let _total = rest.len();
        let ghost ov = rest@;
        let ghost orig = rest@.map_values(|w: ChallengeWaiting| w@);
        assert(orig == old(self)@);
        let mut kept: Vec<ChallengeWaiting> = Vec::new();
        let mut satisfied: Vec<String> = Vec::new();
        let mut k: usize = 0;
        while rest.len() > 0
            invariant
                ov.len() <= usize::MAX,
                orig == ov.map_values(|w: ChallengeWaiting| w@),
                k <= orig.len(),
                k + rest@.len() == orig.len(),
                rest@ == ov.skip(k as int),
                kept@.map_values(|w: ChallengeWaiting| w@) == still_waiting(orig.take(k as int)),
                strs(satisfied@) == ready_names(orig.take(k as int)),
            decreases rest@.len(),
        {
            let w = rest.remove(0);
            assert(orig[k as int] == w@);
            assert(orig.take(k + 1).drop_last() =~= orig.take(k as int));
            assert(orig.take(k + 1).last() == orig[k as int]);
            if w.satisfied() {
                let ChallengeWaiting { name, requirements: _ } = w;
                satisfied.push(name);
            } else {
                kept.push(w);
            }
            assert(kept@.map_values(|w: ChallengeWaiting| w@) =~= still_waiting(orig.take(k + 1)));
            assert(strs(satisfied@) =~= ready_names(orig.take(k + 1)));
            k = k + 1;
            assert(rest@ =~= ov.skip(k as int));
        }
        assert(orig.take(k as int) =~= orig);
        self.queue = kept;
        satisfied
    }

    /// No challenge is waiting.
    pub fn is_empty(&self) -> (r: bool)
        ensures
            r == (self@.len() == 0),
    {
        self.queue.len() == 0
    }

    /// Some waiting entry has the name `challenge_name`.
    pub fn contains(&self, challenge_name: &str) -> (r: bool)
        ensures
            r == exists|i: int| 0 <= i < self@.len() && (#[trigger] self@[i]).0 == challenge_name@,
    {
        let mut i: usize = 0;
        while i < self.queue.len()
            invariant
                i <= self.queue@.len(),
                self@ == self.queue@.map_values(|w: ChallengeWaiting| w@),
                forall|j: int| 0 <= j < i ==> (#[trigger] self@[j]).0 != challenge_name@,
            decreases self.queue@.len() - i,
        {
            let w = &self.queue[i];
            if crate::text::eq_str(w.name.as_str(), challenge_name) {
                assert(self@[i as int].0 == challenge_name@);
                return true;
            }
            assert(self@[i as int] == w@);
            i = i + 1;
        }
        false
    }

    /// Same as [`RequirementsQueue::process`], taking the name by value.
    pub fn refresh(&mut self, challenge: String)
        ensures
            final(self)@ == settle(old(self)@, challenge@),
    {
        self.process(challenge.as_str());
    }

    /// The status report of the queue, one line each: that everything is
    /// ready, or each waiting challenge with its prerequisites.
    pub fn lines(&self) -> (r: Vec<String>)
        ensures
            strs(r@) == queue_report(self@),
    {
        let mut out: Vec<String> = Vec::new();
        if self.queue.len() == 0 {
            out.push(String::from_str("\u{2705} All challenges are ready to be processed."));
            assert(strs(out@) =~= queue_report(self@));
            return out;
        }
        out.push(String::from_str("\u{23f3} Challenges waiting for dependencies:"));
        let ghost q = self@;
        let mut i: usize = 0;
        while i < self.queue.len()
            invariant
                i <= self.queue@.len(),
                q == self@,
                q.len() == self.queue@.len(),
                strs(out@) == seq!["\u{23f3} Challenges waiting for dependencies:"@] + waiting_lines(q.take(i as int)),
            decreases self.queue@.len() - i,
        {
            let w = &self.queue[i];
            assert(q[i as int] == w@);
            let mut l = String::from_str("  - ");
            l.append(w.name.as_str());
            l.append(" (waiting for: ");
            crate::report::push_joined(&mut l, &w.requirements, ", ");
            l.append(")");
            let ghost before = strs(out@);
            out.push(l);
            assert(strs(out@) =~= before.push(waiting_line(q[i as int])));
            assert(q.take(i + 1).drop_last() =~= q.take(i as int));
            i = i + 1;
        }
        assert(q.take(q.len() as int) =~= q);
        out
    }
}

/// The report line of a waiting challenge.
pub open spec fn waiting_line(w: WaitView) -> Seq<char> {
    "  - "@ + w.0 + " (waiting for: "@ + crate::report::join_with(w.1, ", "@) + ")"@
}

/// The report lines of waiting challenges, in order.
pub open spec fn waiting_lines(q: Seq<WaitView>) -> Seq<Seq<char>>
    decreases q.len(),
{
    if q.len() == 0 {
        seq![]
    } else {
        waiting_lines(q.drop_last()).push(waiting_line(q.last()))
    }
}

/// The status report of a queue.
pub open spec fn queue_report(q: Seq<WaitView>) -> Seq<Seq<char>> {
    if q.len() == 0 {
        seq!["\u{2705} All challenges are ready to be processed."@]
    } else {
        seq!["\u{23f3} Challenges waiting for dependencies:"@] + waiting_lines(q)
    }
}


/// After `x` is processed, no entry of the queue waits for `x` any more and
/// no entry is left waiting for nothing.
pub proof fn law_process_strikes(q: Seq<WaitView>, x: Seq<char>)
    ensures
        forall|i: int| 0 <= i < settle(q, x).len() ==> !(#[trigger] settle(q, x)[i]).1.contains(x)
            && settle(q, x)[i].1.len() > 0,
    decreases q.len(),
{
    if q.len() > 0 {
        law_process_strikes(q.drop_last(), x);
        lemma_without_drops(q.last().1, x);
        let rest = settle(q.drop_last(), x);
        let w = (q.last().0, without(q.last().1, x));
        if w.1.len() > 0 {
            assert forall|i: int| 0 <= i < rest.push(w).len() implies !(#[trigger] rest.push(w)[i]).1.contains(x)
                && rest.push(w)[i].1.len() > 0 by {
                if i < rest.len() {
                    assert(rest.push(w)[i] == rest[i]);
                }
            }
        }
    }
}

/// `without(reqs, x)` does not contain `x`.
pub proof fn lemma_without_drops(reqs: Seq<Seq<char>>, x: Seq<char>)
    ensures
        !without(reqs, x).contains(x),
    decreases reqs.len(),
{
    if reqs.len() > 0 {
        lemma_without_drops(reqs.drop_last(), x);
        let rest = without(reqs.drop_last(), x);
        if reqs.last() != x {
            assert forall|i: int| 0 <= i < rest.push(reqs.last()).len() implies rest.push(reqs.last())[i] != x by {
                if i < rest.len() {
                    assert(rest.push(reqs.last())[i] == rest[i]);
                }
            }
        }
    }
}

/// Popping the satisfied entries splits the queue: every entry is either
/// returned or kept, and every kept entry still waits for something.
pub proof fn law_pop_partitions(q: Seq<WaitView>)
    ensures
        ready_names(q).len() + still_waiting(q).len() == q.len(),
        forall|i: int| 0 <= i < still_waiting(q).len() ==> (#[trigger] still_waiting(q)[i]).1.len() > 0,
    decreases q.len(),
{
    if q.len() > 0 {
        law_pop_partitions(q.drop_last());
    }
}

} // verus!
