//! Challenge validator: checks challenges for correctness before they are
//! deployed and reports errors (blocking) and warnings (advisory).
use vstd::prelude::*;
use crate::models::{
    Challenge, ChallengeType, Extra, FlagContent, FlagDelivery, InstanceBackend, InstanceConfig,
    InstanceFlagMode, flag_text, listed, opt_prereq_names, strs,
};
use crate::paths::{path_join, spec_path_join};
use crate::text::{dec, decimal, is_blank, is_blank_str, parses_as_u32, parses_as_u32_str, eq_str};

verus! {

/// How serious an issue is. Errors sort before warnings.
#[derive(Debug, Clone, Copy, PartialEq, Eq, Structural)]
pub enum Severity {
    Error,
    Warning,
}

/// The sort rank of a severity: errors first.
pub open spec fn rank(s: Severity) -> nat {
    match s {
        Severity::Error => 0,
        Severity::Warning => 1,
    }
}

/// One problem found in a challenge (or across challenges).
#[derive(Debug, Clone)]
pub struct Issue {
    pub severity: Severity,
    /// Empty for cross-challenge issues.
    pub challenge: String,
    pub field: Option<String>,
    pub message: String,
}

/// The content of an issue as text.
pub struct IssueView {
    pub severity: Severity,
    pub challenge: Seq<char>,
    pub field: Option<Seq<char>>,
    pub message: Seq<char>,
}

impl View for Issue {
    type V = IssueView;

    open spec fn view(&self) -> IssueView {
        IssueView {
            severity: self.severity,
            challenge: self.challenge@,
            field: crate::models::opt_str(self.field),
            message: self.message@,
        }
    }
}

/// The views of a sequence of issues.
pub open spec fn views(v: Seq<Issue>) -> Seq<IssueView> {
    v.map_values(|i: Issue| i@)
}

/// An error about `field` of challenge `name`.
pub open spec fn err(name: Seq<char>, field: Seq<char>, message: Seq<char>) -> IssueView {
    IssueView { severity: Severity::Error, challenge: name, field: Some(field), message }
}

/// A warning about `field` of challenge `name`.
pub open spec fn warning(name: Seq<char>, field: Seq<char>, message: Seq<char>) -> IssueView {
    IssueView { severity: Severity::Warning, challenge: name, field: Some(field), message }
}

/// An error that concerns no single challenge.
pub open spec fn global_err(message: Seq<char>) -> IssueView {
    IssueView { severity: Severity::Error, challenge: seq![], field: None, message }
}

impl Issue {
    fn error(challenge: &str, field: &str, message: String) -> (r: Self)
        ensures
            r@ == err(challenge@, field@, message@),
    {
        Self {
            severity: Severity::Error,
            challenge: String::from_str(challenge),
            field: Some(String::from_str(field)),
            message,
        }
    }

    fn warn(challenge: &str, field: &str, message: String) -> (r: Self)
        ensures
            r@ == warning(challenge@, field@, message@),
    {
        Self {
            severity: Severity::Warning,
            challenge: String::from_str(challenge),
            field: Some(String::from_str(field)),
            message,
        }
    }

    fn error_global(message: String) -> (r: Self)
        ensures
            r@ == global_err(message@),
    {
        let r = Self { severity: Severity::Error, challenge: String::new(), field: None, message };
        assert(r@.challenge =~= seq![]);
        r
    }
}

/// The outcome of validating a set of challenges.
pub struct ValidationReport {
    pub issues: Vec<Issue>,
}

/// Number of issues of severity `s`.
pub open spec fn count_severity(v: Seq<IssueView>, s: Severity) -> nat
    decreases v.len(),
{
    if v.len() == 0 {
        0
    } else {
        count_severity(v.drop_last(), s) + if v.last().severity == s {
            1nat
        } else {
            0nat
        }
    }
}

impl ValidationReport {
    /// Some issue is an error.
    pub fn has_errors(&self) -> (r: bool)
        ensures
            r == exists|i: int|
                0 <= i < self.issues@.len() && (#[trigger] self.issues@[i]).severity
                    == Severity::Error,
    {
        let mut i: usize = 0;
        while i < self.issues.len()
            invariant
                i <= self.issues@.len(),
                forall|j: int|
                    0 <= j < i ==> (#[trigger] self.issues@[j]).severity != Severity::Error,
            decreases self.issues@.len() - i,
        {
            if self.issues[i].severity == Severity::Error {
                return true;
            }
            i = i + 1;
        }
        false
    }

    /// There are no issues at all.
    pub fn is_clean(&self) -> (r: bool)
        ensures
            r == (self.issues@.len() == 0),
    {
        self.issues.len() == 0
    }

    fn count(&self, s: Severity) -> (r: usize)
        ensures
            r == count_severity(views(self.issues@), s),
    {
        let mut n: usize = 0;
        let mut i: usize = 0;
        while i < self.issues.len()
            invariant
                i <= self.issues@.len(),
                n <= i,
                n == count_severity(views(self.issues@).take(i as int), s),
            decreases self.issues@.len() - i,
        {
            assert(views(self.issues@).take(i + 1).drop_last() =~= views(self.issues@).take(
                i as int,
            ));
            if self.issues[i].severity == s {
                n = n + 1;
            }
            i = i + 1;
        }
        assert(views(self.issues@).take(i as int) =~= views(self.issues@));
        n
    }

    /// Number of errors.
    pub fn error_count(&self) -> (r: usize)
        ensures
            r == count_severity(views(self.issues@), Severity::Error),
    {
        self.count(Severity::Error)
    }

    /// Number of warnings.
    pub fn warning_count(&self) -> (r: usize)
        ensures
            r == count_severity(views(self.issues@), Severity::Warning),
    {
        self.count(Severity::Warning)
    }
}

// ── Per-challenge rules ────────────────────────────────────────────────────

/// `"flags[<i>]"`, the field of the flag at position `i`.
pub open spec fn flag_field(i: nat) -> Seq<char> {
    "flags["@ + dec(i) + "]"@
}

/// The text of an optional string, empty when absent.
pub open spec fn or_empty(o: Option<String>) -> Seq<char> {
    match o {
        Some(s) => s@,
        None => seq![],
    }
}

/// Issues about the name and the category.
pub open spec fn name_category_issues(c: Challenge) -> Seq<IssueView> {
    let n = c.name@;
    (if is_blank(n) {
        seq![err(n, "name"@, "must not be empty"@)]
    } else {
        seq![]
    }) + (if is_blank(c.category@) {
        seq![err(n, "category"@, "must not be empty"@)]
    } else {
        seq![]
    })
}

/// Issues about a required positive number of the `extra` block.
pub open spec fn required_positive(n: Seq<char>, field: Seq<char>, v: Option<u32>) -> Seq<IssueView> {
    match v {
        None => seq![err(n, field, "required"@)],
        Some(x) => if x == 0 {
            seq![err(n, field, "must be > 0"@)]
        } else {
            seq![]
        },
    }
}

/// Issues about an optional number of the `extra` block that must not be 0.
pub open spec fn nonzero_if_set(n: Seq<char>, field: Seq<char>, v: Option<u32>) -> Seq<IssueView> {
    if v == Some(0u32) {
        seq![err(n, field, "must be > 0"@)]
    } else {
        seq![]
    }
}

/// Issues about the `extra` block of a dynamic challenge.
pub open spec fn dynamic_issues(n: Seq<char>, extra: Option<Extra>) -> Seq<IssueView> {
    match extra {
        None => seq![err(n, "extra"@, "required — must have at least initial, decay, minimum"@)],
        Some(e) => required_positive(n, "extra.initial"@, e.initial) + required_positive(
            n,
            "extra.decay"@,
            e.decay,
        ) + if e.minimum is None {
            seq![warning(n, "extra.minimum"@, "not set (CTFd will default to 0)"@)]
        } else {
            seq![]
        },
    }
}

/// Issues about the backend-specific field of an instance block.
pub open spec fn backend_issues(n: Seq<char>, inst: InstanceConfig) -> Seq<IssueView> {
    match inst.backend {
        InstanceBackend::Docker => if is_blank(or_empty(inst.image)) {
            seq![
                err(
                    n,
                    "instance.image"@,
                    "required for docker backend — docker image name or build path"@,
                ),
            ]
        } else {
            seq![]
        },
        InstanceBackend::Lxc => if is_blank(or_empty(inst.lxc_image)) {
            seq![
                err(
                    n,
                    "instance.lxc_image"@,
                    "required for lxc backend — LXC image alias (e.g. 'ubuntu:22.04')"@,
                ),
            ]
        } else {
            seq![]
        },
        InstanceBackend::Vagrant => if is_blank(or_empty(inst.vagrantfile)) {
            seq![
                err(
                    n,
                    "instance.vagrantfile"@,
                    "required for vagrant backend — path to Vagrantfile"@,
                ),
            ]
        } else {
            seq![]
        },
        InstanceBackend::Compose => seq![],
    }
}

/// The challenge lists no flags (absent or empty).
pub open spec fn no_flags(c: Challenge) -> bool {
    match c.flags {
        None => true,
        Some(f) => f@.len() == 0,
    }
}

/// Issues about the `instance` block of an instance challenge.
pub open spec fn instance_block_issues(c: Challenge) -> Seq<IssueView> {
    match c.instance {
        None => seq![
            err(
                c.name@,
                "instance"@,
                "required for instance challenges — add an `instance:` block with backend, internal_port, connection (or put them under `extra:`)"@,
            ),
        ],
        Some(inst) => port_connection_issues(c.name@, inst) + backend_issues(c.name@, inst)
            + instance_flag_issues(c, inst),
    }
}

/// Issues about the challenge type: value, `extra` and `instance`.
pub open spec fn type_issues(c: Challenge) -> Seq<IssueView> {
    let n = c.name@;
    match c.challenge_type {
        ChallengeType::Dynamic => dynamic_issues(n, c.extra),
        ChallengeType::Instance => instance_block_issues(c) + match c.extra {
            Some(e) => nonzero_if_set(n, "extra.initial"@, e.initial) + nonzero_if_set(
                n,
                "extra.decay"@,
                e.decay,
            ),
            None => seq![],
        },
        ChallengeType::Standard => if c.value == 0 {
            seq![err(n, "value"@, "must be > 0"@)]
        } else {
            seq![]
        },
    }
}

/// Issues about the description.
pub open spec fn description_issues(c: Challenge) -> Seq<IssueView> {
    match c.description {
        None => seq![warning(c.name@, "description"@, "missing"@)],
        Some(d) => if is_blank(d@) {
            seq![warning(c.name@, "description"@, "empty"@)]
        } else {
            seq![]
        },
    }
}

/// An error for every flag, among the first `k`, whose content is blank.
pub open spec fn blank_flag_issues(n: Seq<char>, flags: Seq<FlagContent>, k: nat) -> Seq<IssueView>
    decreases k,
{
    if k == 0 {
        seq![]
    } else {
        let i = (k - 1) as nat;
        blank_flag_issues(n, flags, i) + if is_blank(flag_text(flags[i as int])) {
            seq![err(n, flag_field(i), "empty flag content"@)]
        } else {
            seq![]
        }
    }
}

/// Issues about the flags of a standard or dynamic challenge (instance
/// challenges check their flags with the `instance` block).
pub open spec fn flag_issues(c: Challenge) -> Seq<IssueView> {
    if c.challenge_type == ChallengeType::Instance {
        seq![]
    } else if no_flags(c) {
        seq![err(c.name@, "flags"@, "no flags defined"@)]
    } else {
        let f = c.flags.unwrap()@;
        blank_flag_issues(c.name@, f, f.len())
    }
}

/// The message for a referenced file that is missing.
pub open spec fn missing_file_message(source_path: Seq<char>, file: Seq<char>) -> Seq<char> {
    "'"@ + file + "' not found at "@ + spec_path_join(source_path, file)
}

/// An error for every file, among the first `k`, that does not exist.
pub open spec fn file_issues_upto(
    n: Seq<char>,
    source_path: Seq<char>,
    files: Seq<Seq<char>>,
    exists: Seq<bool>,
    k: nat,
) -> Seq<IssueView>
    decreases k,
{
    if k == 0 {
        seq![]
    } else {
        let i = k - 1;
        file_issues_upto(n, source_path, files, exists, i as nat) + if !exists[i] {
            seq![err(n, "files"@, missing_file_message(source_path, files[i]))]
        } else {
            seq![]
        }
    }
}

/// The files a challenge references.
pub open spec fn file_list(c: Challenge) -> Seq<Seq<char>> {
    match c.files {
        Some(f) => strs(f@),
        None => seq![],
    }
}

/// Issues about referenced files, given for each whether it exists.
pub open spec fn file_issues(c: Challenge, exists: Seq<bool>) -> Seq<IssueView> {
    file_issues_upto(c.name@, c.source_path@, file_list(c), exists, file_list(c).len())
}

/// Issues about the first `k` prerequisite names: numeric ids are skipped,
/// naming oneself is an error, a name outside `names` a warning.
pub open spec fn requirement_issues_upto(
    n: Seq<char>,
    reqs: Seq<Seq<char>>,
    names: Seq<Seq<char>>,
    k: nat,
) -> Seq<IssueView>
    decreases k,
{
    if k == 0 {
        seq![]
    } else {
        let i = k - 1;
        let r = reqs[i];
        requirement_issues_upto(n, reqs, names, i as nat) + if parses_as_u32(r) {
            seq![]
        } else if r == n {
            seq![err(n, "requirements"@, "challenge lists itself as a prerequisite"@)]
        } else if !names.contains(r) {
            seq![
                warning(
                    n,
                    "requirements"@,
                    "prerequisite '"@ + r + "' not found in local challenges"@,
                ),
            ]
        } else {
            seq![]
        }
    }
}

/// Issues about `requirements`.
pub open spec fn requirement_issues(c: Challenge, names: Seq<Seq<char>>) -> Seq<IssueView> {
    let reqs = opt_prereq_names(c.requirements);
    requirement_issues_upto(c.name@, reqs, names, reqs.len())
}

/// Issues about `next`.
pub open spec fn next_issues(c: Challenge, names: Seq<Seq<char>>) -> Seq<IssueView> {
    match c.next {
        None => seq![],
        Some(nx) => if nx@ == c.name@ {
            seq![err(c.name@, "next"@, "challenge points to itself"@)]
        } else if !names.contains(nx@) {
            seq![warning(c.name@, "next"@, "'"@ + nx@ + "' not found in local challenges"@)]
        } else {
            seq![]
        },
    }
}

/// A warning for each of the first `k` unknown YAML keys.
pub open spec fn unknown_key_issues_upto(n: Seq<char>, keys: Seq<Seq<char>>, k: nat) -> Seq<
    IssueView,
>
    decreases k,
{
    if k == 0 {
        seq![]
    } else {
        let i = k - 1;
        unknown_key_issues_upto(n, keys, i as nat) + seq![
            warning(
                n,
                keys[i],
                "unknown YAML key '"@ + keys[i]
                    + "' — not in the ctfcli spec, will be ignored"@,
            ),
        ]
    }
}

/// All issues of one challenge, in the order the checks run.
pub open spec fn challenge_issues(c: Challenge, names: Seq<Seq<char>>, exists: Seq<bool>) -> Seq<
    IssueView,
> {
    name_category_issues(c) + type_issues(c) + description_issues(c) + flag_issues(c)
        + file_issues(c, exists) + requirement_issues(c, names) + next_issues(c, names)
        + unknown_key_issues_upto(c.name@, strs(c.unknown_yaml_keys@), c.unknown_yaml_keys@.len())
}

} // verus!

verus! {

/// `a + b + c` as a new string.
pub fn concat3(a: &str, b: &str, c: &str) -> (r: String)
    ensures
        r@ == a@ + b@ + c@,
{
    let mut s = String::from_str(a);
    s.append(b);
    s.append(c);
    s
}

fn push_issue(out: &mut Vec<Issue>, i: Issue)
    ensures
        views(final(out)@) == views(old(out)@).push(i@),
{
    out.push(i);
    assert(views(out@) =~= views(old(out)@).push(i@));
}

fn push_name_category(out: &mut Vec<Issue>, c: &Challenge)
    ensures
        views(final(out)@) == views(old(out)@) + name_category_issues(*c),
{
    let name = c.name.as_str();
    let ghost before = views(out@);
    if is_blank_str(name) {
        push_issue(out, Issue::error(name, "name", String::from_str("must not be empty")));
    }
    let ghost mid = views(out@);
    if is_blank_str(c.category.as_str()) {
        push_issue(out, Issue::error(name, "category", String::from_str("must not be empty")));
    }
    assert(views(out@) =~= before + name_category_issues(*c));
}

fn push_required_positive(out: &mut Vec<Issue>, n: &str, field: &str, v: Option<u32>)
    ensures
        views(final(out)@) == views(old(out)@) + required_positive(n@, field@, v),
{
    match v {
        None => push_issue(out, Issue::error(n, field, String::from_str("required"))),
        Some(x) => {
            if x == 0 {
                push_issue(out, Issue::error(n, field, String::from_str("must be > 0")));
            }
        },
    }
    assert(views(out@) =~= views(old(out)@) + required_positive(n@, field@, v));
}

fn push_nonzero_if_set(out: &mut Vec<Issue>, n: &str, field: &str, v: Option<u32>)
    ensures
        views(final(out)@) == views(old(out)@) + nonzero_if_set(n@, field@, v),
{
    if v == Some(0u32) {
        push_issue(out, Issue::error(n, field, String::from_str("must be > 0")));
    }
    assert(views(out@) =~= views(old(out)@) + nonzero_if_set(n@, field@, v));
}

fn blank_or_absent(o: &Option<String>) -> (r: bool)
    ensures
        r == is_blank(or_empty(*o)),
{
    match o {
        Some(s) => is_blank_str(s.as_str()),
        None => true,
    }
}

fn push_backend(out: &mut Vec<Issue>, n: &str, inst: &InstanceConfig)
    ensures
        views(final(out)@) == views(old(out)@) + backend_issues(n@, *inst),
{
    match inst.backend {
        InstanceBackend::Docker => {
            if blank_or_absent(&inst.image) {
                push_issue(
                    out,
                    Issue::error(
                        n,
                        "instance.image",
                        String::from_str(
                            "required for docker backend — docker image name or build path",
                        ),
                    ),
                );
            }
        },
        InstanceBackend::Lxc => {
            if blank_or_absent(&inst.lxc_image) {
                push_issue(
                    out,
                    Issue::error(
                        n,
                        "instance.lxc_image",
                        String::from_str(
                            "required for lxc backend — LXC image alias (e.g. 'ubuntu:22.04')",
                        ),
                    ),
                );
            }
        },
        InstanceBackend::Vagrant => {
            if blank_or_absent(&inst.vagrantfile) {
                push_issue(
                    out,
                    Issue::error(
                        n,
                        "instance.vagrantfile",
                        String::from_str("required for vagrant backend — path to Vagrantfile"),
                    ),
                );
            }
        },
        InstanceBackend::Compose => {},
    }
    assert(views(out@) =~= views(old(out)@) + backend_issues(n@, *inst));
}

/// Issues about the port and the connection of an instance block.
pub open spec fn port_connection_issues(n: Seq<char>, inst: InstanceConfig) -> Seq<IssueView> {
    (if inst.internal_port == 0 {
        seq![err(n, "instance.internal_port"@, "must be > 0"@)]
    } else {
        seq![]
    }) + (if is_blank(inst.connection@) {
        seq![err(n, "instance.connection"@, "required (e.g. 'nc', 'http', 'ssh')"@)]
    } else {
        seq![]
    })
}

/// Issues about the flags and their delivery of an instance block.
pub open spec fn instance_flag_issues(c: Challenge, inst: InstanceConfig) -> Seq<IssueView> {
    let n = c.name@;
    (if inst.flag_mode != Some(InstanceFlagMode::Random) && no_flags(c) {
        seq![err(n, "flags"@, "required for instance challenges unless flag_mode: random"@)]
    } else {
        seq![]
    }) + (if inst.flag_delivery == Some(FlagDelivery::File) && inst.flag_file_path is None {
        seq![
            err(
                n,
                "instance.flag_file_path"@,
                "required when flag_delivery: file — absolute path inside the container"@,
            ),
        ]
    } else {
        seq![]
    })
}

fn push_port_connection(out: &mut Vec<Issue>, n: &str, inst: &InstanceConfig)
    ensures
        views(final(out)@) == views(old(out)@) + port_connection_issues(n@, *inst),
{
    if inst.internal_port == 0 {
        push_issue(out, Issue::error(n, "instance.internal_port", String::from_str("must be > 0")));
    }
    if is_blank_str(inst.connection.as_str()) {
        push_issue(
            out,
            Issue::error(
                n,
                "instance.connection",
                String::from_str("required (e.g. 'nc', 'http', 'ssh')"),
            ),
        );
    }
    assert(views(out@) =~= views(old(out)@) + port_connection_issues(n@, *inst));
}

fn push_instance_flags(out: &mut Vec<Issue>, c: &Challenge, inst: &InstanceConfig)
    ensures
        views(final(out)@) == views(old(out)@) + instance_flag_issues(*c, *inst),
{
    let n = c.name.as_str();
    let is_random = match inst.flag_mode {
        Some(InstanceFlagMode::Random) => true,
        _ => false,
    };
    let no_flags_here = match &c.flags {
        None => true,
        Some(f) => f.len() == 0,
    };
    if !is_random && no_flags_here {
        push_issue(
            out,
            Issue::error(
                n,
                "flags",
                String::from_str("required for instance challenges unless flag_mode: random"),
            ),
        );
    }
    let file_delivery = match inst.flag_delivery {
        Some(FlagDelivery::File) => true,
        _ => false,
    };
    if file_delivery && inst.flag_file_path.is_none() {
        push_issue(
            out,
            Issue::error(
                n,
                "instance.flag_file_path",
                String::from_str(
                    "required when flag_delivery: file — absolute path inside the container",
                ),
            ),
        );
    }
    assert(views(out@) =~= views(old(out)@) + instance_flag_issues(*c, *inst));
}

fn push_instance_block(out: &mut Vec<Issue>, c: &Challenge)
    ensures
        views(final(out)@) == views(old(out)@) + instance_block_issues(*c),
{
    let n = c.name.as_str();
    let ghost before = views(out@);
    match &c.instance {
        None => {
            push_issue(
                out,
                Issue::error(
                    n,
                    "instance",
                    String::from_str(
                        "required for instance challenges — add an `instance:` block with backend, internal_port, connection (or put them under `extra:`)",
                    ),
                ),
            );
            assert(views(out@) =~= before + instance_block_issues(*c));
        },
        Some(inst) => {
            push_port_connection(out, n, inst);
            push_backend(out, n, inst);
            push_instance_flags(out, c, inst);
            assert(instance_block_issues(*c) == port_connection_issues(n@, *inst) + backend_issues(
                n@,
                *inst,
            ) + instance_flag_issues(*c, *inst));
            assert(views(out@) =~= before + instance_block_issues(*c));
        },
    }
}

fn push_type(out: &mut Vec<Issue>, c: &Challenge)
    ensures
        views(final(out)@) == views(old(out)@) + type_issues(*c),
{
    let n = c.name.as_str();
    let ghost before = views(out@);
    match c.challenge_type {
        ChallengeType::Dynamic => {
            match &c.extra {
                None => {
                    push_issue(
                        out,
                        Issue::error(
                            n,
                            "extra",
                            String::from_str(
                                "required — must have at least initial, decay, minimum",
                            ),
                        ),
                    );
                },
                Some(e) => {
                    push_required_positive(out, n, "extra.initial", e.initial);
                    push_required_positive(out, n, "extra.decay", e.decay);
                    if e.minimum.is_none() {
                        push_issue(
                            out,
                            Issue::warn(
                                n,
                                "extra.minimum",
                                String::from_str("not set (CTFd will default to 0)"),
                            ),
                        );
                    }
                },
            }
            assert(views(out@) =~= before + type_issues(*c));
        },
        ChallengeType::Instance => {
            push_instance_block(out, c);
            let ghost mid = views(out@);
            match &c.extra {
                Some(e) => {
                    push_nonzero_if_set(out, n, "extra.initial", e.initial);
                    push_nonzero_if_set(out, n, "extra.decay", e.decay);
                },
                None => {},
            }
            assert(views(out@) =~= before + type_issues(*c));
        },
        ChallengeType::Standard => {
            if c.value == 0 {
                push_issue(out, Issue::error(n, "value", String::from_str("must be > 0")));
            }
            assert(views(out@) =~= before + type_issues(*c));
        },
    }
}

fn push_description(out: &mut Vec<Issue>, c: &Challenge)
    ensures
        views(final(out)@) == views(old(out)@) + description_issues(*c),
{
    let n = c.name.as_str();
    match &c.description {
        None => push_issue(out, Issue::warn(n, "description", String::from_str("missing"))),
        Some(d) => {
            if is_blank_str(d.as_str()) {
                push_issue(out, Issue::warn(n, "description", String::from_str("empty")));
            }
        },
    }
    assert(views(out@) =~= views(old(out)@) + description_issues(*c));
}

/// `"flags[<i>]"`.
fn flag_field_string(i: usize) -> (r: String)
    ensures
        r@ == flag_field(i as nat),
{
    let d = decimal(i as u64);
    concat3("flags[", d.as_str(), "]")
}

fn push_flags(out: &mut Vec<Issue>, c: &Challenge)
    ensures
        views(final(out)@) == views(old(out)@) + flag_issues(*c),
{
    let n = c.name.as_str();
    let ghost before = views(out@);
    if c.challenge_type == ChallengeType::Instance {
        assert(views(out@) =~= before + flag_issues(*c));
        return;
    }
    match &c.flags {
        None => {
            push_issue(out, Issue::error(n, "flags", String::from_str("no flags defined")));
            assert(views(out@) =~= before + flag_issues(*c));
        },
        Some(flags) => {
            if flags.len() == 0 {
                push_issue(out, Issue::error(n, "flags", String::from_str("no flags defined")));
                assert(views(out@) =~= before + flag_issues(*c));
            } else {
                let mut i: usize = 0;
                while i < flags.len()
                    invariant
                        i <= flags@.len(),
                        c.flags == Some(*flags),
                        n@ == c.name@,
                        views(out@) == before + blank_flag_issues(n@, flags@, i as nat),
                    decreases flags@.len() - i,
                {
                    if is_blank_str(flags[i].content_str()) {
                        let field = flag_field_string(i);
                        push_issue(
                            out,
                            Issue::error(n, field.as_str(), String::from_str("empty flag content")),
                        );
                    }
                    assert(views(out@) =~= before + blank_flag_issues(n@, flags@, (i + 1) as nat));
                    i = i + 1;
                }
            }
        },
    }
}

fn push_files(out: &mut Vec<Issue>, c: &Challenge, exists: &Vec<bool>)
    requires
        exists@.len() == file_list(*c).len(),
    ensures
        views(final(out)@) == views(old(out)@) + file_issues(*c, exists@),
{
    let n = c.name.as_str();
    let ghost before = views(out@);
    match &c.files {
        None => {
            assert(views(out@) =~= before + file_issues(*c, exists@));
        },
        Some(files) => {
            let mut i: usize = 0;
            while i < files.len()
                invariant
                    i <= files@.len(),
                    c.files == Some(*files),
                    exists@.len() == files@.len(),
                    n@ == c.name@,
                    file_list(*c) == strs(files@),
                    views(out@) == before + file_issues_upto(
                        n@,
                        c.source_path@,
                        strs(files@),
                        exists@,
                        i as nat,
                    ),
                decreases files@.len() - i,
            {
                if !exists[i] {
                    let file = files[i].as_str();
                    let joined = path_join(c.source_path.as_str(), file);
                    let msg = concat3("'", file, "' not found at ");
                    let mut message = msg;
                    message.append(joined.as_str());
                    push_issue(out, Issue::error(n, "files", message));
                }
                assert(strs(files@)[i as int] == files@[i as int]@);
                assert(views(out@) =~= before + file_issues_upto(
                    n@,
                    c.source_path@,
                    strs(files@),
                    exists@,
                    (i + 1) as nat,
                ));
                i = i + 1;
            }
        },
    }
}

/// Whether `x` is one of `names`.
fn push_requirements(out: &mut Vec<Issue>, c: &Challenge, names: &Vec<String>)
    ensures
        views(final(out)@) == views(old(out)@) + requirement_issues(*c, strs(names@)),
{
    let n = c.name.as_str();
    let ghost before = views(out@);
    let reqs = match &c.requirements {
        Some(r) => r.prerequisite_names(),
        None => {
            let v: Vec<String> = Vec::new();
            assert(strs(v@) =~= seq![]);
            v
        },
    };
    assert(strs(reqs@) == opt_prereq_names(c.requirements));
    let mut i: usize = 0;
    while i < reqs.len()
        invariant
            i <= reqs@.len(),
            n@ == c.name@,
            strs(reqs@) == opt_prereq_names(c.requirements),
            views(out@) == before + requirement_issues_upto(
                n@,
                strs(reqs@),
                strs(names@),
                i as nat,
            ),
        decreases reqs@.len() - i,
    {
        let r = reqs[i].as_str();
        assert(strs(reqs@)[i as int] == r@);
        if parses_as_u32_str(r) {
        } else if eq_str(r, n) {
            push_issue(
                out,
                Issue::error(
                    n,
                    "requirements",
                    String::from_str("challenge lists itself as a prerequisite"),
                ),
            );
        } else if !listed(names, r) {
            push_issue(
                out,
                Issue::warn(
                    n,
                    "requirements",
                    concat3("prerequisite '", r, "' not found in local challenges"),
                ),
            );
        }
        assert(views(out@) =~= before + requirement_issues_upto(
            n@,
            strs(reqs@),
            strs(names@),
            (i + 1) as nat,
        ));
        i = i + 1;
    }
}

fn push_next(out: &mut Vec<Issue>, c: &Challenge, names: &Vec<String>)
    ensures
        views(final(out)@) == views(old(out)@) + next_issues(*c, strs(names@)),
{
    let n = c.name.as_str();
    match &c.next {
        None => {},
        Some(nx) => {
            if eq_str(nx.as_str(), n) {
                push_issue(
                    out,
                    Issue::error(n, "next", String::from_str("challenge points to itself")),
                );
            } else if !listed(names, nx.as_str()) {
                push_issue(
                    out,
                    Issue::warn(
                        n,
                        "next",
                        concat3("'", nx.as_str(), "' not found in local challenges"),
                    ),
                );
            }
        },
    }
    assert(views(out@) =~= views(old(out)@) + next_issues(*c, strs(names@)));
}

fn push_unknown_keys(out: &mut Vec<Issue>, c: &Challenge)
    ensures
        views(final(out)@) == views(old(out)@) + unknown_key_issues_upto(
            c.name@,
            strs(c.unknown_yaml_keys@),
            c.unknown_yaml_keys@.len(),
        ),
{
    let n = c.name.as_str();
    let ghost before = views(out@);
    let mut i: usize = 0;
    while i < c.unknown_yaml_keys.len()
        invariant
            i <= c.unknown_yaml_keys@.len(),
            n@ == c.name@,
            views(out@) == before + unknown_key_issues_upto(
                n@,
                strs(c.unknown_yaml_keys@),
                i as nat,
            ),
        decreases c.unknown_yaml_keys@.len() - i,
    {
        let key = c.unknown_yaml_keys[i].as_str();
        assert(strs(c.unknown_yaml_keys@)[i as int] == key@);
        push_issue(
            out,
            Issue::warn(
                n,
                key,
                concat3(
                    "unknown YAML key '",
                    key,
                    "' — not in the ctfcli spec, will be ignored",
                ),
            ),
        );
        assert(views(out@) =~= before + unknown_key_issues_upto(
            n@,
            strs(c.unknown_yaml_keys@),
            (i + 1) as nat,
        ));
        i = i + 1;
    }
}

/// All issues of one challenge. `names` are the names of all local
/// challenges; `exists` says, for each referenced file, whether it exists.
pub fn validate_one(c: &Challenge, names: &Vec<String>, exists: &Vec<bool>) -> (r: Vec<Issue>)
    requires
        exists@.len() == file_list(*c).len(),
    ensures
        views(r@) == challenge_issues(*c, strs(names@), exists@),
{
    let mut out: Vec<Issue> = Vec::new();
    push_name_category(&mut out, c);
    push_type(&mut out, c);
    push_description(&mut out, c);
    push_flags(&mut out, c);
    push_files(&mut out, c, exists);
    push_requirements(&mut out, c, names);
    push_next(&mut out, c, names);
    push_unknown_keys(&mut out, c);
    assert(views(out@) =~= challenge_issues(*c, strs(names@), exists@));
    out
}

} // verus!

verus! {

// ── Ordering of the report ─────────────────────────────────────────────────

/// Lexicographic order of character sequences (`String`'s `Ord`, since
/// UTF-8 byte order is code point order).
pub open spec fn lex_le(a: Seq<char>, b: Seq<char>) -> bool
    decreases a.len(),
{
    if a.len() == 0 {
        true
    } else if b.len() == 0 {
        false
    } else if a[0] != b[0] {
        a[0] < b[0]
    } else {
        lex_le(a.drop_first(), b.drop_first())
    }
}

/// `lex_le` is reflexive.
pub proof fn lemma_lex_refl(a: Seq<char>)
    ensures
        lex_le(a, a),
    decreases a.len(),
{
    if a.len() > 0 {
        lemma_lex_refl(a.drop_first());
    }
}

/// `lex_le` is total.
pub proof fn lemma_lex_total(a: Seq<char>, b: Seq<char>)
    ensures
        lex_le(a, b) || lex_le(b, a),
    decreases a.len(),
{
    if a.len() > 0 && b.len() > 0 && a[0] == b[0] {
        lemma_lex_total(a.drop_first(), b.drop_first());
    }
}

/// `lex_le` is transitive.
pub proof fn lemma_lex_trans(a: Seq<char>, b: Seq<char>, c: Seq<char>)
    requires
        lex_le(a, b),
        lex_le(b, c),
    ensures
        lex_le(a, c),
    decreases a.len(),
{
    if a.len() > 0 && b.len() > 0 && c.len() > 0 && a[0] == b[0] && b[0] == c[0] {
        lemma_lex_trans(a.drop_first(), b.drop_first(), c.drop_first());
    }
}

/// `lex_le` is antisymmetric.
pub proof fn lemma_lex_antisym(a: Seq<char>, b: Seq<char>)
    requires
        lex_le(a, b),
        lex_le(b, a),
    ensures
        a == b,
    decreases a.len(),
{
    if a.len() > 0 && b.len() > 0 {
        lemma_lex_antisym(a.drop_first(), b.drop_first());
        assert(a =~= seq![a[0]] + a.drop_first());
        assert(b =~= seq![b[0]] + b.drop_first());
    } else if a.len() == 0 && b.len() == 0 {
        assert(a =~= b);
    }
}

/// The sort key of an issue: severity rank, then challenge name.
pub open spec fn issue_key(a: IssueView) -> (nat, Seq<char>) {
    (rank(a.severity), a.challenge)
}

/// `a` sorts no later than `b`: errors before warnings, then by challenge
/// name.
pub open spec fn issue_le(a: IssueView, b: IssueView) -> bool {
    rank(a.severity) < rank(b.severity) || (rank(a.severity) == rank(b.severity) && lex_le(
        a.challenge,
        b.challenge,
    ))
}

/// The issues are in report order.
pub open spec fn sorted_issues(s: Seq<IssueView>) -> bool {
    forall|i: int, j: int| 0 <= i < j < s.len() ==> issue_le(#[trigger] s[i], #[trigger] s[j])
}

/// The issues of `s` with sort key `k`, in their order in `s`.
pub open spec fn with_key(s: Seq<IssueView>, k: (nat, Seq<char>)) -> Seq<IssueView>
    decreases s.len(),
{
    if s.len() == 0 {
        seq![]
    } else if issue_key(s.last()) == k {
        with_key(s.drop_last(), k).push(s.last())
    } else {
        with_key(s.drop_last(), k)
    }
}

/// `r` is the stable sort of `s`: it is in report order and, for each sort
/// key, holds the issues of `s` with that key in their order in `s`.
pub open spec fn stable_sorted_of(r: Seq<IssueView>, s: Seq<IssueView>) -> bool {
    &&& sorted_issues(r)
    &&& forall|k: (nat, Seq<char>)| #[trigger] with_key(r, k) == with_key(s, k)
}

proof fn lemma_with_key_concat(a: Seq<IssueView>, b: Seq<IssueView>, k: (nat, Seq<char>))
    ensures
        with_key(a + b, k) == with_key(a, k) + with_key(b, k),
    decreases b.len(),
{
    if b.len() == 0 {
        assert(a + b =~= a);
        assert(with_key(b, k) =~= seq![]);
        assert(with_key(a, k) + with_key(b, k) =~= with_key(a, k));
    } else {
        lemma_with_key_concat(a, b.drop_last(), k);
        assert((a + b).drop_last() =~= a + b.drop_last());
        assert((a + b).last() == b.last());
        if issue_key(b.last()) == k {
            assert(with_key(a, k) + with_key(b, k) =~= (with_key(a, k) + with_key(b.drop_last(), k)).push(b.last()));
        } else {
        }
    }
}

proof fn lemma_with_key_none(s: Seq<IssueView>, k: (nat, Seq<char>))
    requires
        forall|i: int| 0 <= i < s.len() ==> issue_key(#[trigger] s[i]) != k,
    ensures
        with_key(s, k) == Seq::<IssueView>::empty(),
    decreases s.len(),
{
    if s.len() > 0 {
        lemma_with_key_none(s.drop_last(), k);
        assert(issue_key(s[s.len() - 1]) != k);
    }
}

proof fn lemma_with_key_single(x: IssueView, k: (nat, Seq<char>))
    ensures
        with_key(seq![x], k) == if issue_key(x) == k {
            seq![x]
        } else {
            Seq::<IssueView>::empty()
        },
{
    let e = seq![x].drop_last();
    assert(e =~= Seq::<IssueView>::empty());
    assert(with_key(e, k) =~= Seq::<IssueView>::empty());
    assert(seq![x].last() == x);
    if issue_key(x) == k {
        assert(Seq::<IssueView>::empty().push(x) =~= seq![x]);
    }
}

proof fn lemma_issue_le_total(a: IssueView, b: IssueView)
    ensures
        issue_le(a, b) || issue_le(b, a),
{
    lemma_lex_total(a.challenge, b.challenge);
}

proof fn lemma_issue_le_trans(a: IssueView, b: IssueView, c: IssueView)
    requires
        issue_le(a, b),
        issue_le(b, c),
    ensures
        issue_le(a, c),
{
    if rank(a.severity) == rank(b.severity) && rank(b.severity) == rank(c.severity) {
        lemma_lex_trans(a.challenge, b.challenge, c.challenge);
    }
}

/// `a` sorts no later than `b`.
fn issue_le_exec(a: &Issue, b: &Issue) -> (r: bool)
    ensures
        r == issue_le(a@, b@),
{
    let ra: u8 = match a.severity {
        Severity::Error => 0,
        Severity::Warning => 1,
    };
    let rb: u8 = match b.severity {
        Severity::Error => 0,
        Severity::Warning => 1,
    };
    if ra != rb {
        return ra < rb;
    }
    lex_le_str(a.challenge.as_str(), b.challenge.as_str())
}

/// Lexicographic comparison of two strings.
fn lex_le_str(a: &str, b: &str) -> (r: bool)
    ensures
        r == lex_le(a@, b@),
{
    let la = a.unicode_len();
    let lb = b.unicode_len();
    let mut i: usize = 0;
    assert(a@.skip(0) =~= a@);
    assert(b@.skip(0) =~= b@);
    while i < la && i < lb
        invariant
            la == a@.len(),
            lb == b@.len(),
            i <= la,
            i <= lb,
            lex_le(a@, b@) == lex_le(a@.skip(i as int), b@.skip(i as int)),
        decreases la - i,
    {
        let ca = a.get_char(i);
        let cb = b.get_char(i);
        assert(a@.skip(i as int)[0] == ca);
        assert(b@.skip(i as int)[0] == cb);
        if ca != cb {
            return ca < cb;
        }
        assert(a@.skip(i as int).drop_first() =~= a@.skip(i + 1));
        assert(b@.skip(i as int).drop_first() =~= b@.skip(i + 1));
        i = i + 1;
    }
    i == la
}

/// Sorts issues stably into report order (insertion sort).
pub fn sort_issues(v: Vec<Issue>) -> (r: Vec<Issue>)
    ensures
        stable_sorted_of(views(r@), views(v@)),
{
    let ghost input = views(v@);
    let mut rest = v;
    let mut out: Vec<Issue> = Vec::new();
    let ghost mut k: int = 0;
    let _total = rest.len();
    while rest.len() > 0
        invariant
            0 <= k <= input.len(),
            k + rest@.len() == input.len(),
            views(rest@) == input.skip(k),
            sorted_issues(views(out@)),
            forall|kk: (nat, Seq<char>)|
                #[trigger] with_key(views(out@), kk) == with_key(input.take(k), kk),
            out@.len() == k,
        decreases rest@.len(),
    {
        let ghost before = rest@;
        let x = rest.remove(0);
        assert(x@ == input[k]) by {
            assert(views(before)[0] == x@);
            assert(input.skip(k)[0] == input[k]);
        }
        let ghost s = views(out@);
        // Find the first position whose issue sorts after `x`.
        let mut p: usize = 0;
        while p < out.len() && issue_le_exec(&out[p], &x)
            invariant
                p <= out@.len(),
                s == views(out@),
                forall|j: int| 0 <= j < p ==> issue_le(#[trigger] s[j], x@),
            decreases out@.len() - p,
        {
            p = p + 1;
        }
        proof {
            assert forall|j: int| p <= j < s.len() implies !issue_le(#[trigger] s[j], x@) by {
                if issue_le(s[j], x@) {
                    if j > p {
                        lemma_issue_le_trans(s[p as int], s[j], x@);
                    }
                }
            }
        }
        out.insert(p, x);
        proof {
            let s2 = views(out@);
            assert(s2 =~= s.insert(p as int, x@));
            assert(s.insert(p as int, x@) =~= s.take(p as int) + seq![x@] + s.skip(p as int));
            assert(s =~= s.take(p as int) + s.skip(p as int));
            assert forall|i: int, j: int| 0 <= i < j < s2.len() implies issue_le(
                #[trigger] s2[i],
                #[trigger] s2[j],
            ) by {
                if j < p {
                    assert(s2[i] == s[i] && s2[j] == s[j]);
                } else if j == p {
                    assert(s2[i] == s[i]);
                } else if i < p {
                    assert(s2[i] == s[i] && s2[j] == s[j - 1]);
                    assert(issue_le(s[i], x@));
                    lemma_issue_le_total(s[j - 1], x@);
                    lemma_issue_le_trans(s[i], x@, s[j - 1]);
                } else if i == p {
                    assert(s2[j] == s[j - 1]);
                    lemma_issue_le_total(s[j - 1], x@);
                } else {
                    assert(s2[i] == s[i - 1] && s2[j] == s[j - 1]);
                }
            }
            assert(input.take(k + 1) =~= input.take(k) + seq![x@]);
            assert forall|kk: (nat, Seq<char>)|
                #[trigger] with_key(s2, kk) == with_key(input.take(k + 1), kk) by {
                lemma_with_key_concat(s.take(p as int) + seq![x@], s.skip(p as int), kk);
                lemma_with_key_concat(s.take(p as int), seq![x@], kk);
                lemma_with_key_concat(s.take(p as int), s.skip(p as int), kk);
                lemma_with_key_concat(input.take(k), seq![x@], kk);
                lemma_with_key_single(x@, kk);
                if issue_key(x@) == kk {
                    assert forall|i: int| 0 <= i < s.skip(p as int).len() implies issue_key(
                        #[trigger] s.skip(p as int)[i],
                    ) != kk by {
                        assert(s.skip(p as int)[i] == s[p + i]);
                        if issue_key(s[p + i]) == kk {
                            lemma_lex_refl(x@.challenge);
                        }
                    }
                    lemma_with_key_none(s.skip(p as int), kk);
                    assert(with_key(s.take(p as int), kk) + with_key(s.skip(p as int), kk)
                        =~= with_key(s.take(p as int), kk));
                }
            }
        }
        proof {
            k = k + 1;
        }
        assert(views(rest@) =~= input.skip(k)) by {
            assert(rest@ =~= before.skip(1));
            assert forall|idx: int| 0 <= idx < rest@.len() implies #[trigger] views(rest@)[idx] == input.skip(k)[idx] by {
                assert(rest@[idx] == before[idx + 1]);
                assert(views(before)[idx + 1] == input.skip(k - 1)[idx + 1]);
            }
        }
    }
    assert(input.take(k) =~= input);
    out
}

} // verus!

verus! {

// ── Whole-set validation ───────────────────────────────────────────────────

/// The names of the challenges, in order.
pub open spec fn names_of(cs: Seq<Challenge>) -> Seq<Seq<char>> {
    cs.map_values(|c: Challenge| c.name@)
}

/// No earlier name equals the name at `i`.
pub open spec fn first_at(ns: Seq<Seq<char>>, i: int) -> bool {
    forall|j: int| 0 <= j < i ==> ns[j] != ns[i]
}

/// The message for a name that occurs `count` times.
pub open spec fn duplicate_message(name: Seq<char>, count: nat) -> Seq<char> {
    "duplicate challenge name '"@ + name + "' appears "@ + dec(count) + " times"@
}

/// One error for each name that occurs more than once, at its first
/// occurrence among the first `k` names.
pub open spec fn duplicate_issues_upto(ns: Seq<Seq<char>>, k: nat) -> Seq<IssueView>
    decreases k,
{
    if k == 0 {
        seq![]
    } else {
        let i = k - 1;
        duplicate_issues_upto(ns, i as nat) + if first_at(ns, i) && crate::sync::occurrences(
            ns,
            ns[i],
        ) > 1 {
            seq![global_err(duplicate_message(ns[i], crate::sync::occurrences(ns, ns[i])))]
        } else {
            seq![]
        }
    }
}

/// The per-challenge issues of the first `k` challenges, concatenated.
pub open spec fn challenges_issues_upto(
    cs: Seq<Challenge>,
    ns: Seq<Seq<char>>,
    exists: Seq<Seq<bool>>,
    k: nat,
) -> Seq<IssueView>
    decreases k,
{
    if k == 0 {
        seq![]
    } else {
        let i = k - 1;
        challenges_issues_upto(cs, ns, exists, i as nat) + challenge_issues(cs[i], ns, exists[i])
    }
}

/// `exists` has one flag per referenced file of each challenge.
pub open spec fn file_flags_fit(cs: Seq<Challenge>, exists: Seq<Seq<bool>>) -> bool {
    &&& exists.len() == cs.len()
    &&& forall|i: int| 0 <= i < cs.len() ==> (#[trigger] exists[i]).len() == file_list(cs[i]).len()
}

/// All issues of a set of challenges before sorting: the duplicate-name
/// errors, then each challenge's issues in challenge order.
pub open spec fn report_issues(cs: Seq<Challenge>, exists: Seq<Seq<bool>>) -> Seq<IssueView> {
    duplicate_issues_upto(names_of(cs), cs.len()) + challenges_issues_upto(
        cs,
        names_of(cs),
        exists,
        cs.len(),
    )
}

/// The flags of a vector of flag vectors.
pub open spec fn flag_rows(ex: Seq<Vec<bool>>) -> Seq<Seq<bool>> {
    ex.map_values(|v: Vec<bool>| v@)
}

/// Number of challenges in `cs` named `x`.
fn count_named(cs: &[Challenge], x: &str) -> (r: usize)
    ensures
        r == crate::sync::occurrences(names_of(cs@), x@),
{
    let mut n: usize = 0;
    let mut i: usize = 0;
    while i < cs.len()
        invariant
            i <= cs@.len(),
            n <= i,
            n == crate::sync::occurrences(names_of(cs@).take(i as int), x@),
        decreases cs@.len() - i,
    {
        assert(names_of(cs@).take(i + 1).drop_last() =~= names_of(cs@).take(i as int));
        assert(names_of(cs@).take(i + 1).last() == cs@[i as int].name@);
        if eq_str(cs[i].name.as_str(), x) {
            n = n + 1;
        }
        i = i + 1;
    }
    assert(names_of(cs@).take(i as int) =~= names_of(cs@));
    n
}

/// No challenge before position `i` has the name of challenge `i`.
fn first_named(cs: &[Challenge], i: usize) -> (r: bool)
    requires
        i < cs@.len(),
    ensures
        r == first_at(names_of(cs@), i as int),
{
    let mut j: usize = 0;
    while j < i
        invariant
            i < cs@.len(),
            j <= i,
            forall|k: int| 0 <= k < j ==> names_of(cs@)[k] != names_of(cs@)[i as int],
        decreases i - j,
    {
        if eq_str(cs[j].name.as_str(), cs[i].name.as_str()) {
            assert(names_of(cs@)[j as int] == names_of(cs@)[i as int]);
            return false;
        }
        j = j + 1;
    }
    true
}

/// Validates challenges given, for each referenced file, whether it
/// exists. Issues come sorted: errors first, then by challenge name, in the
/// order found otherwise.
pub fn validate_challenges_with(challenges: &[Challenge], exists: &Vec<Vec<bool>>) -> (r:
    ValidationReport)
    requires
        file_flags_fit(challenges@, flag_rows(exists@)),
    ensures
        stable_sorted_of(views(r.issues@), report_issues(challenges@, flag_rows(exists@))),
{
    let ghost cs = challenges@;
    let ghost ns = names_of(cs);
    let ghost ex = flag_rows(exists@);
    let mut issues: Vec<Issue> = Vec::new();
    // Duplicate names.
    let mut i: usize = 0;
    while i < challenges.len()
        invariant
            cs == challenges@,
            ns == names_of(cs),
            i <= cs.len(),
            views(issues@) == duplicate_issues_upto(ns, i as nat),
        decreases cs.len() - i,
    {
        let name = challenges[i].name.as_str();
        assert(ns[i as int] == name@);
        if first_named(challenges, i) {
            let count = count_named(challenges, name);
            if count > 1 {
                let mut message = concat3("duplicate challenge name '", name, "' appears ");
                let d = decimal(count as u64);
                message.append(d.as_str());
                message.append(" times");
                push_issue(&mut issues, Issue::error_global(message));
            }
        }
        assert(views(issues@) =~= duplicate_issues_upto(ns, (i + 1) as nat));
        i = i + 1;
    }
    // All names, for the cross-references.
    let mut names: Vec<String> = Vec::new();
    let mut i: usize = 0;
    while i < challenges.len()
        invariant
            cs == challenges@,
            ns == names_of(cs),
            i <= cs.len(),
            names@.len() == i,
            forall|j: int| 0 <= j < i ==> (#[trigger] names@[j])@ == ns[j],
        decreases cs.len() - i,
    {
        names.push(challenges[i].name.clone());
        i = i + 1;
    }
    assert(strs(names@) =~= ns);
    let ghost dups = views(issues@);
    // Per-challenge issues.
    let mut i: usize = 0;
    while i < challenges.len()
        invariant
            cs == challenges@,
            ns == names_of(cs),
            ex == flag_rows(exists@),
            file_flags_fit(cs, ex),
            strs(names@) == ns,
            i <= cs.len(),
            views(issues@) == dups + challenges_issues_upto(cs, ns, ex, i as nat),
        decreases cs.len() - i,
    {
        assert(ex[i as int] == exists@[i as int]@);
        let more = validate_one(&challenges[i], &names, &exists[i]);
        let ghost prev = views(issues@);
        let mut more = more;
        issues.append(&mut more);
        assert(views(issues@) =~= prev + challenge_issues(cs[i as int], ns, ex[i as int]));
        assert(views(issues@) =~= dups + challenges_issues_upto(cs, ns, ex, (i + 1) as nat));
        i = i + 1;
    }
    ValidationReport { issues: sort_issues(issues) }
}

/// Validate a slice of challenges and return a report. Whether each
/// referenced file exists is asked of the filesystem; the report is the one
/// [`validate_challenges_with`] gives for those answers.
pub fn validate_challenges(challenges: &[Challenge]) -> (r: ValidationReport)
    ensures
        exists|ex: Seq<Seq<bool>>|
            file_flags_fit(challenges@, ex) && stable_sorted_of(
                views(r.issues@),
                report_issues(challenges@, ex),
            ),
{
    let mut exists: Vec<Vec<bool>> = Vec::new();
    let mut i: usize = 0;
    while i < challenges.len()
        invariant
            i <= challenges@.len(),
            exists@.len() == i,
            forall|j: int|
                0 <= j < i ==> (#[trigger] exists@[j])@.len() == file_list(challenges@[j]).len(),
        decreases challenges@.len() - i,
    {
        let c = &challenges[i];
        let mut row: Vec<bool> = Vec::new();
        match &c.files {
            Some(files) => {
                let mut j: usize = 0;
                while j < files.len()
                    invariant
                        j <= files@.len(),
                        row@.len() == j,
                    decreases files@.len() - j,
                {
                    let joined = path_join(c.source_path.as_str(), files[j].as_str());
                    row.push(crate::paths::path_exists(joined.as_str()));
                    j = j + 1;
                }
            },
            None => {},
        }
        exists.push(row);
        i = i + 1;
    }
    let r = validate_challenges_with(challenges, &exists);
    assert(file_flags_fit(challenges@, flag_rows(exists@)));
    r
}


/// Every issue is an error or a warning, so the two counts add up to the
/// number of issues; a report is clean exactly when both counts are zero.
pub proof fn law_counts_add_up(v: Seq<IssueView>)
    ensures
        count_severity(v, Severity::Error) + count_severity(v, Severity::Warning) == v.len(),
    decreases v.len(),
{
    if v.len() > 0 {
        law_counts_add_up(v.drop_last());
    }
}

/// In a report in order, no warning comes before an error.
pub proof fn law_errors_before_warnings(s: Seq<IssueView>)
    requires
        sorted_issues(s),
    ensures
        forall|i: int, j: int| 0 <= i < j < s.len() && (#[trigger] s[i]).severity == Severity::Warning
            ==> (#[trigger] s[j]).severity == Severity::Warning,
{
    assert forall|i: int, j: int| 0 <= i < j < s.len() && (#[trigger] s[i]).severity == Severity::Warning implies (#[trigger] s[j]).severity == Severity::Warning by {
        assert(issue_le(s[i], s[j]));
    }
}


/// `s` holds an error on field `field` of challenge `name`.
pub open spec fn error_on(s: Seq<IssueView>, name: Seq<char>, field: Seq<char>) -> bool {
    exists|i: int|
        0 <= i < s.len() && #[trigger] s[i].severity == Severity::Error && s[i].challenge == name && s[i].field
            == Some(field)
}

/// An instance challenge run by the Docker backend that names no image (or
/// only a blank one).
pub open spec fn docker_without_image(c: Challenge) -> bool {
    &&& c.challenge_type is Instance
    &&& c.instance is Some
    &&& c.instance->0.backend is Docker
    &&& match c.instance->0.image {
        None => true,
        Some(img) => is_blank(img@),
    }
}

/// A Docker instance challenge without an image gets an error on
/// `instance.image`.
pub proof fn law_docker_instance_needs_image(c: Challenge, names: Seq<Seq<char>>, exists: Seq<bool>)
    requires
        docker_without_image(c),
    ensures
        error_on(challenge_issues(c, names, exists), c.name@, "instance.image"@),
{
    let x = err(c.name@, "instance.image"@, "required for docker backend — docker image name or build path"@);
    lemma_image_error_in(c, names, exists);
    let s = challenge_issues(c, names, exists);
    let i = choose|i: int| 0 <= i < s.len() && s[i] == x;
    assert(s[i].severity == Severity::Error);
}

proof fn lemma_image_error_in(c: Challenge, names: Seq<Seq<char>>, exists: Seq<bool>)
    requires
        docker_without_image(c),
    ensures
        challenge_issues(c, names, exists).contains(
            err(c.name@, "instance.image"@, "required for docker backend — docker image name or build path"@),
        ),
{
    let x = err(c.name@, "instance.image"@, "required for docker backend — docker image name or build path"@);
    let n = c.name@;
    let inst = c.instance->0;
    assert(is_blank(or_empty(inst.image)));
    let be = backend_issues(n, inst);
    assert(be[0] == x);
    assert(be.contains(x));
    let pc = port_connection_issues(n, inst);
    crate::ctfd_sql::lemma_in_right(pc, be, x);
    crate::ctfd_sql::lemma_in_left(pc + be, instance_flag_issues(c, inst), x);
    let ib = instance_block_issues(c);
    assert(ib.contains(x));
    let ex = match c.extra {
        Some(e) => nonzero_if_set(n, "extra.initial"@, e.initial) + nonzero_if_set(n, "extra.decay"@, e.decay),
        None => seq![],
    };
    crate::ctfd_sql::lemma_in_left(ib, ex, x);
    let ti = type_issues(c);
    assert(ti.contains(x));
    let nc = name_category_issues(c);
    crate::ctfd_sql::lemma_in_right(nc, ti, x);
    let a1 = nc + ti;
    crate::ctfd_sql::lemma_in_left(a1, description_issues(c), x);
    let a2 = a1 + description_issues(c);
    crate::ctfd_sql::lemma_in_left(a2, flag_issues(c), x);
    let a3 = a2 + flag_issues(c);
    crate::ctfd_sql::lemma_in_left(a3, file_issues(c, exists), x);
    let a4 = a3 + file_issues(c, exists);
    crate::ctfd_sql::lemma_in_left(a4, requirement_issues(c, names), x);
    let a5 = a4 + requirement_issues(c, names);
    crate::ctfd_sql::lemma_in_left(a5, next_issues(c, names), x);
    let a6 = a5 + next_issues(c, names);
    crate::ctfd_sql::lemma_in_left(a6, unknown_key_issues_upto(c.name@, strs(c.unknown_yaml_keys@), c.unknown_yaml_keys@.len()), x);
}

proof fn lemma_upto_contains(cs: Seq<Challenge>, ns: Seq<Seq<char>>, exists: Seq<Seq<bool>>, k: nat, i: int, x: IssueView)
    requires
        0 <= i < k,
        challenge_issues(cs[i], ns, exists[i]).contains(x),
    ensures
        challenges_issues_upto(cs, ns, exists, k).contains(x),
    decreases k,
{
    let j = (k - 1) as nat;
    if i == j {
        crate::ctfd_sql::lemma_in_right(challenges_issues_upto(cs, ns, exists, j), challenge_issues(cs[i], ns, exists[i]), x);
    } else {
        lemma_upto_contains(cs, ns, exists, j, i, x);
        crate::ctfd_sql::lemma_in_left(challenges_issues_upto(cs, ns, exists, j), challenge_issues(cs[j as int], ns, exists[j as int]), x);
    }
}

proof fn lemma_with_key_contains(s: Seq<IssueView>, x: IssueView)
    ensures
        s.contains(x) ==> with_key(s, issue_key(x)).contains(x),
        with_key(s, issue_key(x)).contains(x) ==> s.contains(x),
    decreases s.len(),
{
    if s.len() > 0 {
        let d = s.drop_last();
        lemma_with_key_contains(d, x);
        let k = issue_key(x);
        if s.contains(x) {
            let i = choose|i: int| 0 <= i < s.len() && s[i] == x;
            if i < d.len() {
                assert(d[i] == x);
                if issue_key(s.last()) == k {
                    crate::ctfd_sql::lemma_in_left(with_key(d, k), seq![s.last()], x);
                    assert(with_key(d, k).push(s.last()) == with_key(d, k) + seq![s.last()]);
                }
            } else {
                assert(s.last() == x);
                assert(with_key(s, k) == with_key(d, k).push(x));
                assert(with_key(s, k)[with_key(d, k).len() as int] == x);
            }
        }
        if with_key(s, k).contains(x) {
            let i = choose|i: int| 0 <= i < with_key(s, k).len() && with_key(s, k)[i] == x;
            if issue_key(s.last()) == k {
                if i < with_key(d, k).len() {
                    assert(with_key(d, k)[i] == x);
                    let q = choose|q: int| 0 <= q < d.len() && d[q] == x;
                    assert(s[q] == x);
                } else {
                    assert(s[s.len() - 1] == x);
                }
            } else {
                assert(with_key(d, k).contains(x));
                let q = choose|q: int| 0 <= q < d.len() && d[q] == x;
                assert(s[q] == x);
            }
        }
    }
}

/// In the validation report of a set of challenges, every Docker instance
/// challenge without an image has an error on `instance.image`, so the
/// report has errors.
pub proof fn law_report_flags_missing_image(cs: Seq<Challenge>, exists: Seq<Seq<bool>>, r: Seq<IssueView>, i: int)
    requires
        file_flags_fit(cs, exists),
        stable_sorted_of(r, report_issues(cs, exists)),
        0 <= i < cs.len(),
        docker_without_image(cs[i]),
    ensures
        error_on(r, cs[i].name@, "instance.image"@),
{
    let x = err(cs[i].name@, "instance.image"@, "required for docker backend — docker image name or build path"@);
    lemma_image_error_in(cs[i], names_of(cs), exists[i]);
    lemma_upto_contains(cs, names_of(cs), exists, cs.len(), i, x);
    let s = report_issues(cs, exists);
    crate::ctfd_sql::lemma_in_right(duplicate_issues_upto(names_of(cs), cs.len()), challenges_issues_upto(cs, names_of(cs), exists, cs.len()), x);
    lemma_with_key_contains(s, x);
    assert(with_key(r, issue_key(x)) == with_key(s, issue_key(x)));
    lemma_with_key_contains(r, x);
    let j = choose|j: int| 0 <= j < r.len() && r[j] == x;
    assert(r[j].severity == Severity::Error);
}

} // verus!
