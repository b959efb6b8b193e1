//! The text of a validation report: one row per challenge field with its
//! status and issues, the compact one-line-per-issue view, and the summary.
//! Every function returns the lines; printing them is the caller's.
use vstd::prelude::*;
use crate::models::{
    Challenge, ChallengeType, Extra, FlagContent, FlagType, InstanceBackend, InstanceConfig,
    InstanceFlagMode, State, strs, tag_text,
};
use crate::text::{dec, decimal, eq_str, push_char_of, push_decimal};
use crate::validator::{Issue, IssueView, Severity, ValidationReport, count_severity, views};
use crate::scanner::ScanFailure;
use crate::fix::{lines, split_lines};

verus! {

/// `s` followed by spaces up to `w` characters (`{:<w$}`).
pub open spec fn pad_right(s: Seq<char>, w: nat) -> Seq<char> {
    if s.len() >= w {
        s
    } else {
        s + Seq::new((w - s.len()) as nat, |i: int| ' ')
    }
}

/// Some issue has severity `sev`.
pub open spec fn has_severity(issues: Seq<IssueView>, sev: Severity) -> bool
    decreases issues.len(),
{
    issues.len() > 0 && (issues.last().severity == sev || has_severity(issues.drop_last(), sev))
}

/// The pieces joined with `sep` between them.
pub open spec fn join_with(pieces: Seq<Seq<char>>, sep: Seq<char>) -> Seq<char>
    decreases pieces.len(),
{
    if pieces.len() == 0 {
        seq![]
    } else if pieces.len() == 1 {
        pieces[0]
    } else {
        join_with(pieces.drop_last(), sep) + sep + pieces.last()
    }
}

/// The messages of the issues, in order.
pub open spec fn messages(issues: Seq<IssueView>) -> Seq<Seq<char>> {
    issues.map_values(|i: IssueView| i.message)
}

/// The status tag and the value shown in a field row: `[E]` (a missing
/// value shown as `MISSING`), `[W]` (`(not set)`), ` ok` for a set field
/// without issues, ` --` for an unset one.
pub open spec fn row_status(value: Option<Seq<char>>, issues: Seq<IssueView>) -> (Seq<char>, Seq<char>) {
    if has_severity(issues, Severity::Error) {
        ("[E]"@, match value { Some(v) => v, None => "MISSING"@ })
    } else if has_severity(issues, Severity::Warning) {
        ("[W]"@, match value { Some(v) => v, None => "(not set)"@ })
    } else {
        match value {
            Some(v) => (" ok"@, v),
            None => (" --"@, "(not set)"@),
        }
    }
}

/// One field row: name padded to `fw`, status tag, value, and the issue
/// messages after `->` when there are any.
pub open spec fn field_row(fw: nat, field: Seq<char>, value: Option<Seq<char>>, issues: Seq<IssueView>) -> Seq<char> {
    let (tag, val) = row_status(value, issues);
    let base = "  "@ + pad_right(field, fw) + "  "@ + tag + "  "@ + val;
    if issues.len() == 0 {
        base
    } else {
        base + "  ->  "@ + join_with(messages(issues), ";  "@)
    }
}

/// A row for a sub-field such as `flags[0]`, indented one more level.
pub open spec fn sub_row(fw: nat, field: Seq<char>, value: Option<Seq<char>>, issues: Seq<IssueView>) -> Seq<char> {
    let tag = if has_severity(issues, Severity::Error) {
        "[E]"@
    } else if has_severity(issues, Severity::Warning) {
        "[W]"@
    } else {
        "   "@
    };
    let val = match value {
        Some(v) => v,
        None => "(empty)"@,
    };
    let w = if fw >= 2 { (fw - 2) as nat } else { 0 };
    "    "@ + pad_right(field, w) + "  "@ + tag + "  "@ + val + "  ->  "@ + join_with(messages(issues), ";  "@)
}

/// At most `max` characters of `s`: a longer `s` is cut to its first
/// `max - 1` characters followed by the ellipsis `…` (to nothing when `max`
/// is zero).
pub open spec fn truncated(s: Seq<char>, max: nat) -> Seq<char> {
    if s.len() <= max {
        s
    } else if max == 0 {
        Seq::empty()
    } else {
        s.take(max - 1).push('…')
    }
}

/// Truncates a string to at most `max_chars` characters, marking a cut with
/// `…`.
pub fn truncate_str(s: &str, max_chars: usize) -> (r: String)
    ensures
        r@ == truncated(s@, max_chars as nat),
        r@.len() <= max_chars,
        s@.len() > max_chars && max_chars >= 1 ==> r@.last() == '…' && r@.drop_last() == s@.take(max_chars - 1),
{
    let n = s.unicode_len();
    if n <= max_chars {
        return String::from_str(s);
    }
    if max_chars == 0 {
        return String::new();
    }
    let k = max_chars - 1;
    let mut out = String::from_str(s.substring_char(0, k));
    out.append("…");
    proof {
        reveal_strlit("…");
    }
    assert(s@.subrange(0, k as int) =~= s@.take(k as int));
    assert(out@ =~= s@.take(k as int).push('…'));
    out
}

/// The one-line summary of a flag: its content cut to 40 characters, or,
/// for a detailed flag, its type and content cut to 34.
pub open spec fn flag_summary(f: FlagContent) -> Seq<char> {
    match f {
        FlagContent::Simple(s) => if s@.len() == 0 {
            "(empty)"@
        } else {
            truncated(s@, 40)
        },
        FlagContent::Detailed { content, type_, .. } => {
            let prefix = match type_ {
                FlagType::Static => "static"@,
                FlagType::Regex => "regex"@,
            };
            if content@.len() == 0 {
                prefix + ": (empty)"@
            } else {
                prefix + ": "@ + truncated(content@, 34)
            }
        },
    }
}

/// Summarises one flag for display.
pub fn flag_display(fc: &FlagContent) -> (r: String)
    ensures
        r@ == flag_summary(*fc),
{
    match fc {
        FlagContent::Simple(s) => {
            if s.as_str().unicode_len() == 0 {
                String::from_str("(empty)")
            } else {
                truncate_str(s.as_str(), 40)
            }
        },
        FlagContent::Detailed { content, type_, .. } => {
            let mut out = match type_ {
                FlagType::Static => String::from_str("static"),
                FlagType::Regex => String::from_str("regex"),
            };
            if content.as_str().unicode_len() == 0 {
                out.append(": (empty)");
            } else {
                out.append(": ");
                let t = truncate_str(content.as_str(), 34);
                out.append(t.as_str());
            }
            out
        },
    }
}

/// Appends `s` padded with spaces to `w` characters.
fn push_padded(out: &mut String, s: &str, w: usize)
    ensures
        final(out)@ == old(out)@ + pad_right(s@, w as nat),
{
    let ghost start = out@;
    out.append(s);
    let n = s.unicode_len();
    let mut k = n;
    while k < w
        invariant
            n == s@.len(),
            n <= k,
            k == n || k <= w,
            out@ == start + s@ + Seq::new((k - n) as nat, |i: int| ' '),
        decreases w - k,
    {
        out.append(" ");
        proof {
            reveal_strlit(" ");
        }
        assert(out@ =~= start + s@ + Seq::new((k + 1 - n) as nat, |i: int| ' '));
        k = k + 1;
    }
    assert(out@ =~= start + pad_right(s@, w as nat));
}

fn has_severity_exec(issues: &Vec<Issue>, sev: Severity) -> (r: bool)
    ensures
        r == has_severity(views(issues@), sev),
{
    let mut i: usize = 0;
    let mut found = false;
    while i < issues.len()
        invariant
            i <= issues@.len(),
            found == has_severity(views(issues@).take(i as int), sev),
        decreases issues@.len() - i,
    {
        proof {
            assert(views(issues@).take(i + 1).drop_last() =~= views(issues@).take(i as int));
            assert(views(issues@).take(i + 1).last() == issues@[i as int]@);
        }
        let same = match (issues[i].severity, sev) {
            (Severity::Error, Severity::Error) => true,
            (Severity::Warning, Severity::Warning) => true,
            _ => false,
        };
        found = found || same;
        i = i + 1;
    }
    assert(views(issues@).take(issues@.len() as int) =~= views(issues@));
    found
}

/// Appends the issue messages joined with `;  `.
fn push_messages(out: &mut String, issues: &Vec<Issue>)
    ensures
        final(out)@ == old(out)@ + join_with(messages(views(issues@)), ";  "@),
{
    let ghost start = out@;
    let mut i: usize = 0;
    while i < issues.len()
        invariant
            i <= issues@.len(),
            out@ == start + join_with(messages(views(issues@)).take(i as int), ";  "@),
        decreases issues@.len() - i,
    {
        let ghost before = out@;
        if i > 0 {
            out.append(";  ");
        }
        out.append(issues[i].message.as_str());
        proof {
            let m = messages(views(issues@));
            assert(m.take(i + 1).drop_last() =~= m.take(i as int));
            assert(m.take(i + 1).last() == issues@[i as int].message@);
            if i == 0 {
                assert(m.take(1) =~= seq![issues@[0].message@]);
            }
            assert(out@ =~= start + join_with(m.take(i + 1), ";  "@));
        }
        i = i + 1;
    }
    assert(messages(views(issues@)).take(issues@.len() as int) =~= messages(views(issues@)));
}

/// One field row of the detailed view.
pub fn frow(fw: usize, field: &str, value: Option<&str>, issues: &Vec<Issue>) -> (r: String)
    ensures
        r@ == field_row(fw as nat, field@, match value { Some(v) => Some(v@), None => None }, views(issues@)),
{
    let has_e = has_severity_exec(issues, Severity::Error);
    let has_w = has_severity_exec(issues, Severity::Warning);
    let (tag, val): (&str, &str) = if has_e {
        ("[E]", match value { Some(v) => v, None => "MISSING" })
    } else if has_w {
        ("[W]", match value { Some(v) => v, None => "(not set)" })
    } else {
        match value {
            Some(v) => (" ok", v),
            None => (" --", "(not set)"),
        }
    };
    let mut out = String::from_str("  ");
    push_padded(&mut out, field, fw);
    out.append("  ");
    out.append(tag);
    out.append("  ");
    out.append(val);
    if issues.len() > 0 {
        out.append("  ->  ");
        push_messages(&mut out, issues);
    }
    out
}

/// One sub-field row of the detailed view.
pub fn frow_sub(fw: usize, field: &str, value: Option<&str>, issues: &Vec<Issue>) -> (r: String)
    ensures
        r@ == sub_row(fw as nat, field@, match value { Some(v) => Some(v@), None => None }, views(issues@)),
{
    let tag = if has_severity_exec(issues, Severity::Error) {
        "[E]"
    } else if has_severity_exec(issues, Severity::Warning) {
        "[W]"
    } else {
        "   "
    };
    let val = match value {
        Some(v) => v,
        None => "(empty)",
    };
    let w = if fw >= 2 { fw - 2 } else { 0 };
    let mut out = String::from_str("    ");
    push_padded(&mut out, field, w);
    out.append("  ");
    out.append(tag);
    out.append("  ");
    out.append(val);
    out.append("  ->  ");
    push_messages(&mut out, issues);
    out
}

/// The tag of an issue in the compact view.
pub open spec fn issue_tag(sev: Severity) -> Seq<char> {
    match sev {
        Severity::Error => "[E]"@,
        Severity::Warning => "[W]"@,
    }
}

/// One issue line of the compact view.
pub open spec fn compact_issue_line(i: IssueView) -> Seq<char> {
    "   "@ + issue_tag(i.severity) + "  "@ + match i.field {
        Some(f) => f,
        None => "(global)"@,
    } + ": "@ + i.message
}

/// The compact view of one challenge: nothing when it has no issues,
/// otherwise a header, one line per issue and a blank line.
pub open spec fn compact_lines(name: Seq<char>, category: Seq<char>, issues: Seq<IssueView>) -> Seq<Seq<char>> {
    if issues.len() == 0 {
        seq![]
    } else {
        let hdr = if has_severity(issues, Severity::Error) { "[x]"@ } else { "[!]"@ };
        seq![hdr + " \""@ + name + "\"  ["@ + category + "]"@] + issues.map_values(
            |i: IssueView| compact_issue_line(i),
        ) + seq![Seq::<char>::empty()]
    }
}

/// The compact view of one challenge and its issues.
pub fn challenge_compact_lines(name: &str, category: &str, issues: &Vec<Issue>) -> (r: Vec<String>)
    ensures
        crate::models::strs(r@) == compact_lines(name@, category@, views(issues@)),
{
    let mut out: Vec<String> = Vec::new();
    if issues.len() == 0 {
        assert(crate::models::strs(out@) =~= compact_lines(name@, category@, views(issues@)));
        return out;
    }
    let hdr = if has_severity_exec(issues, Severity::Error) { "[x]" } else { "[!]" };
    let mut h = String::from_str(hdr);
    h.append(" \"");
    h.append(name);
    h.append("\"  [");
    h.append(category);
    h.append("]");
    out.push(h);
    let ghost first = crate::models::strs(out@);
    let mut i: usize = 0;
    while i < issues.len()
        invariant
            i <= issues@.len(),
            first.len() == 1,
            crate::models::strs(out@) == first + views(issues@).take(i as int).map_values(
                |v: IssueView| compact_issue_line(v),
            ),
        decreases issues@.len() - i,
    {
        let issue = &issues[i];
        let mut line = String::from_str("   ");
        match issue.severity {
            Severity::Error => line.append("[E]"),
            Severity::Warning => line.append("[W]"),
        }
        line.append("  ");
        match &issue.field {
            Some(f) => line.append(f.as_str()),
            None => line.append("(global)"),
        }
        line.append(": ");
        line.append(issue.message.as_str());
        let ghost before = out@;
        out.push(line);
        proof {
            assert(line@ == compact_issue_line(issues@[i as int]@));
            assert(views(issues@).take(i + 1) =~= views(issues@).take(i as int).push(issues@[i as int]@));
            assert(crate::models::strs(out@) =~= crate::models::strs(before).push(line@));
            assert(crate::models::strs(out@) =~= first + views(issues@).take(i + 1).map_values(
                |v: IssueView| compact_issue_line(v),
            ));
        }
        i = i + 1;
    }
    let ghost before = out@;
    out.push(String::new());
    proof {
        assert(views(issues@).take(issues@.len() as int) =~= views(issues@));
        assert(crate::models::strs(out@) =~= crate::models::strs(before).push(Seq::<char>::empty()));
        assert(crate::models::strs(out@) =~= compact_lines(name@, category@, views(issues@)));
    }
    out
}

/// The issues about `field`, in order.
pub open spec fn issues_for(issues: Seq<IssueView>, field: Seq<char>) -> Seq<IssueView>
    decreases issues.len(),
{
    if issues.len() == 0 {
        seq![]
    } else {
        let prev = issues_for(issues.drop_last(), field);
        if issues.last().field == Some(field) {
            prev.push(issues.last())
        } else {
            prev
        }
    }
}

/// A copy of an issue.
fn copy_issue(i: &Issue) -> (r: Issue)
    ensures
        r@ == i@,
{
    Issue {
        severity: i.severity,
        challenge: i.challenge.clone(),
        field: match &i.field {
            Some(f) => Some(f.clone()),
            None => None,
        },
        message: i.message.clone(),
    }
}

/// The issues about `field`.
pub fn issues_about(issues: &Vec<Issue>, field: &str) -> (r: Vec<Issue>)
    ensures
        views(r@) == issues_for(views(issues@), field@),
{
    let mut out: Vec<Issue> = Vec::new();
    let mut i: usize = 0;
    while i < issues.len()
        invariant
            i <= issues@.len(),
            views(out@) == issues_for(views(issues@).take(i as int), field@),
        decreases issues@.len() - i,
    {
        proof {
            assert(views(issues@).take(i + 1).drop_last() =~= views(issues@).take(i as int));
            assert(views(issues@).take(i + 1).last() == issues@[i as int]@);
        }
        let matches = match &issues[i].field {
            Some(f) => eq_str(f.as_str(), field),
            None => false,
        };
        if matches {
            let ghost before = views(out@);
            out.push(copy_issue(&issues[i]));
            assert(views(out@) =~= before.push(issues@[i as int]@));
        }
        i = i + 1;
    }
    assert(views(issues@).take(issues@.len() as int) =~= views(issues@));
    out
}

/// The width of the field-name column of the detailed view.
pub open spec fn field_width() -> nat {
    16
}

/// The row for `field` with the issues about it.
pub open spec fn row(field: Seq<char>, value: Option<Seq<char>>, issues: Seq<IssueView>) -> Seq<char> {
    field_row(field_width(), field, value, issues_for(issues, field))
}

/// Appends the row for `field` to `out`.
fn push_row(out: &mut Vec<String>, field: &str, value: Option<&str>, issues: &Vec<Issue>)
    ensures
        crate::models::strs(final(out)@) == crate::models::strs(old(out)@).push(
            row(field@, match value { Some(v) => Some(v@), None => None }, views(issues@)),
        ),
{
    let about = issues_about(issues, field);
    let line = frow(16, field, value, &about);
    out.push(line);
    assert(crate::models::strs(out@) =~= crate::models::strs(old(out)@).push(line@));
}

/// Optional text of an optional string.
pub open spec fn opt_text(o: Option<String>) -> Option<Seq<char>> {
    match o {
        Some(s) => Some(s@),
        None => None,
    }
}

/// Optional decimal text of an optional number.
pub open spec fn opt_dec(o: Option<u32>) -> Option<Seq<char>> {
    match o {
        Some(n) => Some(dec(n as nat)),
        None => None,
    }
}

/// The header line of the detailed view.
pub open spec fn dict_header(name: Seq<char>, category: Seq<char>, issues: Seq<IssueView>) -> Seq<char> {
    (if has_severity(issues, Severity::Error) {
        "[x]"@
    } else if has_severity(issues, Severity::Warning) {
        "[!]"@
    } else {
        "✅"@
    }) + " \""@ + name + "\"  ["@ + category + "]"@
}

/// `s` with each newline turned into a space.
pub open spec fn newline_to_space(s: Seq<char>) -> Seq<char> {
    s.map_values(|c: char| if c == '\n' { ' ' } else { c })
}

/// The name of a challenge type.
pub open spec fn type_label(t: ChallengeType) -> Seq<char> {
    match t {
        ChallengeType::Standard => "standard"@,
        ChallengeType::Dynamic => "dynamic"@,
        ChallengeType::Instance => "instance"@,
    }
}

/// Rows for the name, author, category, description and type.
pub open spec fn core_rows(c: Challenge, issues: Seq<IssueView>) -> Seq<Seq<char>> {
    seq![
        row("name"@, Some(c.name@), issues),
        row("author"@, opt_text(c.author), issues),
        row("category"@, Some(c.category@), issues),
        row("description"@, match c.description {
            Some(d) => Some(truncated(newline_to_space(d@), 70)),
            None => None,
        }, issues),
        row("type"@, Some(type_label(c.challenge_type)), issues),
    ]
}

fn replace_newlines(s: &str) -> (r: String)
    ensures
        r@ == newline_to_space(s@),
{
    let n = s.unicode_len();
    let mut out = String::new();
    let mut i: usize = 0;
    while i < n
        invariant
            n == s@.len(),
            i <= n,
            out@ == newline_to_space(s@.take(i as int)),
        decreases n - i,
    {
        if s.get_char(i) == '\n' {
            out.append(" ");
            proof {
                reveal_strlit(" ");
            }
        } else {
            push_char_of(&mut out, s, i);
        }
        assert(out@ =~= newline_to_space(s@.take(i + 1)));
        i = i + 1;
    }
    assert(s@.take(n as int) =~= s@);
    out
}

fn opt_decimal(o: Option<u32>) -> (r: Option<String>)
    ensures
        match r {
            Some(t) => opt_dec(o) == Some(t@),
            None => o is None,
        },
{
    match o {
        Some(n) => Some(decimal(n as u64)),
        None => None,
    }
}

fn opt_as_str(o: &Option<String>) -> (r: Option<&str>)
    ensures
        match r {
            Some(t) => opt_text(*o) == Some(t@),
            None => o is None,
        },
{
    match o {
        Some(s) => Some(s.as_str()),
        None => None,
    }
}

fn push_core_rows(out: &mut Vec<String>, c: &Challenge, issues: &Vec<Issue>)
    ensures
        strs(final(out)@) == strs(old(out)@) + core_rows(*c, views(issues@)),
{
    let ghost v = views(issues@);
    push_row(out, "name", Some(c.name.as_str()), issues);
    push_row(out, "author", opt_as_str(&c.author), issues);
    push_row(out, "category", Some(c.category.as_str()), issues);
    let desc: Option<String> = match &c.description {
        Some(d) => {
            let flat = replace_newlines(d.as_str());
            Some(truncate_str(flat.as_str(), 70))
        },
        None => None,
    };
    push_row(out, "description", opt_as_str(&desc), issues);
    let t = match c.challenge_type {
        ChallengeType::Standard => "standard",
        ChallengeType::Dynamic => "dynamic",
        ChallengeType::Instance => "instance",
    };
    push_row(out, "type", Some(t), issues);
    assert(strs(out@) =~= strs(old(out)@) + core_rows(*c, v));
}

/// Rows for the dynamic-scoring fields of `extra`.
pub open spec fn extra_rows(e: Extra, issues: Seq<IssueView>) -> Seq<Seq<char>> {
    seq![
        row("extra.initial"@, opt_dec(e.initial), issues),
        row("extra.decay"@, opt_dec(e.decay), issues),
        row("extra.minimum"@, opt_dec(e.minimum), issues),
    ]
}

/// The lowercase name of a backend.
pub open spec fn backend_text(b: InstanceBackend) -> Seq<char> {
    match b {
        InstanceBackend::Docker => "docker"@,
        InstanceBackend::Compose => "compose"@,
        InstanceBackend::Lxc => "lxc"@,
        InstanceBackend::Vagrant => "vagrant"@,
    }
}

/// Rows for an instance configuration.
pub open spec fn instance_rows(inst: InstanceConfig, issues: Seq<IssueView>) -> Seq<Seq<char>> {
    seq![
        row("instance.backend"@, Some(backend_text(inst.backend)), issues),
        row("instance.internal_port"@, Some(dec(inst.internal_port as nat)), issues),
        row("instance.connection"@, Some(inst.connection@), issues),
    ] + match inst.image {
        Some(img) => seq![row("instance.image"@, Some(img@), issues)],
        None => seq![],
    } + seq![
        row("instance.flag_mode"@, match inst.flag_mode {
            Some(InstanceFlagMode::Static) => Some("static"@),
            Some(InstanceFlagMode::Random) => Some("random"@),
            None => None,
        }, issues),
    ]
}

/// The rows for the fields that matter for the challenge's type: its value,
/// its dynamic scoring, or its instance configuration.
pub open spec fn scoring_rows(c: Challenge, issues: Seq<IssueView>) -> Seq<Seq<char>> {
    match c.challenge_type {
        ChallengeType::Standard => seq![row("value"@, Some(dec(c.value as nat)), issues)],
        ChallengeType::Dynamic => match c.extra {
            Some(e) => extra_rows(e, issues),
            None => seq![row("extra"@, None, issues)],
        },
        ChallengeType::Instance => (match c.instance {
            Some(inst) => instance_rows(inst, issues),
            None => seq![row("instance"@, None, issues)],
        }) + match c.extra {
            Some(e) => extra_rows(e, issues),
            None => seq![],
        },
    }
}

fn push_extra_rows(out: &mut Vec<String>, e: &Extra, issues: &Vec<Issue>)
    ensures
        strs(final(out)@) == strs(old(out)@) + extra_rows(*e, views(issues@)),
{
    let i_s = opt_decimal(e.initial);
    push_row(out, "extra.initial", opt_as_str(&i_s), issues);
    let d_s = opt_decimal(e.decay);
    push_row(out, "extra.decay", opt_as_str(&d_s), issues);
    let m_s = opt_decimal(e.minimum);
    push_row(out, "extra.minimum", opt_as_str(&m_s), issues);
    assert(strs(out@) =~= strs(old(out)@) + extra_rows(*e, views(issues@)));
}

fn push_scoring_rows(out: &mut Vec<String>, c: &Challenge, issues: &Vec<Issue>)
    ensures
        strs(final(out)@) == strs(old(out)@) + scoring_rows(*c, views(issues@)),
{
    let ghost v = views(issues@);
    match c.challenge_type {
        ChallengeType::Standard => {
            let value = decimal(c.value as u64);
            push_row(out, "value", Some(value.as_str()), issues);
            assert(strs(out@) =~= strs(old(out)@) + scoring_rows(*c, v));
        },
        ChallengeType::Dynamic => {
            match &c.extra {
                Some(e) => push_extra_rows(out, e, issues),
                None => push_row(out, "extra", None, issues),
            }
            assert(strs(out@) =~= strs(old(out)@) + scoring_rows(*c, v));
        },
        ChallengeType::Instance => {
            match &c.instance {
                Some(inst) => {
                    let backend = match inst.backend {
                        InstanceBackend::Docker => "docker",
                        InstanceBackend::Compose => "compose",
                        InstanceBackend::Lxc => "lxc",
                        InstanceBackend::Vagrant => "vagrant",
                    };
                    push_row(out, "instance.backend", Some(backend), issues);
                    let port = decimal(inst.internal_port as u64);
                    push_row(out, "instance.internal_port", Some(port.as_str()), issues);
                    push_row(out, "instance.connection", Some(inst.connection.as_str()), issues);
                    match &inst.image {
                        Some(img) => push_row(out, "instance.image", Some(img.as_str()), issues),
                        None => {},
                    }
                    let fm: Option<&str> = match inst.flag_mode {
                        Some(InstanceFlagMode::Static) => Some("static"),
                        Some(InstanceFlagMode::Random) => Some("random"),
                        None => None,
                    };
                    push_row(out, "instance.flag_mode", fm, issues);
                    assert(strs(out@) =~= strs(old(out)@) + instance_rows(*inst, v));
                },
                None => {
                    push_row(out, "instance", None, issues);
                },
            }
            let ghost mid = strs(out@);
            match &c.extra {
                Some(e) => push_extra_rows(out, e, issues),
                None => {},
            }
            assert(strs(out@) =~= strs(old(out)@) + scoring_rows(*c, v));
        },
    }
}

/// The summaries of the flags.
pub open spec fn flag_summaries(fs: Seq<FlagContent>) -> Seq<Seq<char>> {
    fs.map_values(|f: FlagContent| flag_summary(f))
}

/// The value shown for the flags: their number and the first three
/// summaries, with a count of the rest.
pub open spec fn flags_value(flags: Option<Vec<FlagContent>>) -> Option<Seq<char>> {
    match flags {
        Some(f) => if f@.len() == 0 {
            None
        } else {
            let n = f@.len();
            let shown = f@.take(if n <= 3 { n as int } else { 3 });
            let tail = if n > 3 { ", +"@ + dec((n - 3) as nat) + " more"@ } else { seq![] };
            Some(dec(n) + " flag(s): "@ + join_with(flag_summaries(shown), ", "@) + tail)
        },
        None => None,
    }
}

/// The issue field of the `i`-th flag.
pub open spec fn flag_key(i: nat) -> Seq<char> {
    "flags["@ + dec(i) + "]"@
}

/// Sub-rows for the first `n` flags that have issues of their own.
pub open spec fn flag_sub_rows(fs: Seq<FlagContent>, issues: Seq<IssueView>, n: int) -> Seq<Seq<char>>
    decreases n,
{
    if n <= 0 {
        seq![]
    } else {
        let prev = flag_sub_rows(fs, issues, n - 1);
        let sub = issues_for(issues, flag_key((n - 1) as nat));
        if sub.len() > 0 {
            prev.push(sub_row(field_width(), flag_key((n - 1) as nat), Some(flag_summary(fs[n - 1])), sub))
        } else {
            prev
        }
    }
}

/// The flags row and the rows of flags with issues.
pub open spec fn flag_section(c: Challenge, issues: Seq<IssueView>) -> Seq<Seq<char>> {
    seq![row("flags"@, flags_value(c.flags), issues)] + match c.flags {
        Some(f) => flag_sub_rows(f@, issues, f@.len() as int),
        None => seq![],
    }
}

/// Appends `pieces` joined with `sep`.
pub fn push_joined(out: &mut String, pieces: &Vec<String>, sep: &str)
    ensures
        final(out)@ == old(out)@ + join_with(strs(pieces@), sep@),
{
    let ghost start = out@;
    let mut i: usize = 0;
    while i < pieces.len()
        invariant
            i <= pieces@.len(),
            out@ == start + join_with(strs(pieces@).take(i as int), sep@),
        decreases pieces@.len() - i,
    {
        if i > 0 {
            out.append(sep);
        }
        out.append(pieces[i].as_str());
        proof {
            let m = strs(pieces@);
            assert(m.take(i + 1).drop_last() =~= m.take(i as int));
            assert(m.take(i + 1).last() == pieces@[i as int]@);
            if i == 0 {
                assert(m.take(1) =~= seq![pieces@[0]@]);
            }
            assert(out@ =~= start + join_with(m.take(i + 1), sep@));
        }
        i = i + 1;
    }
    assert(strs(pieces@).take(pieces@.len() as int) =~= strs(pieces@));
}

fn flags_value_text(flags: &Option<Vec<FlagContent>>) -> (r: Option<String>)
    ensures
        match r {
            Some(t) => flags_value(*flags) == Some(t@),
            None => flags_value(*flags) is None,
        },
{
    let f = match flags {
        Some(f) => f,
        None => return None,
    };
    let n = f.len();
    if n == 0 {
        return None;
    }
    let shown_n = if n <= 3 { n } else { 3 };
    let mut summaries: Vec<String> = Vec::new();
    let mut i: usize = 0;
    while i < shown_n
        invariant
            shown_n <= f@.len(),
            i <= shown_n,
            strs(summaries@) == flag_summaries(f@.take(i as int)),
        decreases shown_n - i,
    {
        let ghost before = summaries@;
        let d = flag_display(&f[i]);
        summaries.push(d);
        assert(summaries@ == before.push(d));
        assert(strs(summaries@) =~= strs(before).push(flag_summary(f@[i as int])));
        assert(f@.take(i + 1) =~= f@.take(i as int).push(f@[i as int]));
        assert(strs(summaries@) =~= flag_summaries(f@.take(i + 1)));
        i = i + 1;
    }
    let mut out = decimal(n as u64);
    out.append(" flag(s): ");
    push_joined(&mut out, &summaries, ", ");
    if n > 3 {
        out.append(", +");
        push_decimal(&mut out, (n - 3) as u64);
        out.append(" more");
    }
    Some(out)
}

/// The issue field of the `i`-th flag.
fn flag_key_text(i: usize) -> (r: String)
    ensures
        r@ == flag_key(i as nat),
{
    let mut k = String::from_str("flags[");
    push_decimal(&mut k, i as u64);
    k.append("]");
    k
}

fn push_flag_section(out: &mut Vec<String>, c: &Challenge, issues: &Vec<Issue>)
    ensures
        strs(final(out)@) == strs(old(out)@) + flag_section(*c, views(issues@)),
{
    let ghost v = views(issues@);
    let fv = flags_value_text(&c.flags);
    push_row(out, "flags", opt_as_str(&fv), issues);
    let ghost head = strs(out@);
    match &c.flags {
        Some(f) => {
            let mut i: usize = 0;
            while i < f.len()
                invariant
                    i <= f@.len(),
                    v == views(issues@),
                    strs(out@) == head + flag_sub_rows(f@, v, i as int),
                decreases f@.len() - i,
            {
                let key = flag_key_text(i);
                let sub = issues_about(issues, key.as_str());
                if sub.len() > 0 {
                    let fval = flag_display(&f[i]);
                    let line = frow_sub(16, key.as_str(), Some(fval.as_str()), &sub);
                    let ghost before = strs(out@);
                    out.push(line);
                    assert(strs(out@) =~= before.push(line@));
                }
                i = i + 1;
            }
            assert(strs(out@) =~= strs(old(out)@) + flag_section(*c, v));
        },
        None => {
            assert(strs(out@) =~= strs(old(out)@) + flag_section(*c, v));
        },
    }
}

/// A bracketed, comma-separated list, or none for an empty one.
pub open spec fn bracket_list(items: Seq<Seq<char>>) -> Option<Seq<char>> {
    if items.len() == 0 {
        None
    } else {
        Some("["@ + join_with(items, ", "@) + "]"@)
    }
}

/// The text of each tag.
pub open spec fn tag_texts(tags: Seq<crate::models::Tag>) -> Seq<Seq<char>> {
    tags.map_values(|t: crate::models::Tag| tag_text(t))
}

/// The state as shown: `(defaults to visible)` when unset.
pub open spec fn state_text(s: Option<State>) -> Seq<char> {
    match s {
        None => "(defaults to visible)"@,
        Some(State::Visible) => "visible"@,
        Some(State::Hidden) => "hidden"@,
    }
}

/// Rows for tags, topics, files, hints, requirements, next, state,
/// connection info and attempts.
pub open spec fn list_rows(c: Challenge, issues: Seq<IssueView>) -> Seq<Seq<char>> {
    collection_rows(c, issues) + link_rows(c, issues)
}

/// Rows for tags, topics, files and hints.
pub open spec fn collection_rows(c: Challenge, issues: Seq<IssueView>) -> Seq<Seq<char>> {
    seq![
        row("tags"@, match c.tags { Some(t) => bracket_list(tag_texts(t@)), None => None }, issues),
        row("topics"@, match c.topics { Some(t) => bracket_list(strs(t@)), None => None }, issues),
        row("files"@, match c.files { Some(f) => bracket_list(strs(f@)), None => None }, issues),
        row("hints"@, match c.hints {
            Some(h) => if h@.len() == 0 { None } else { Some(dec(h@.len()) + " hint(s)"@) },
            None => None,
        }, issues),
    ]
}

/// Rows for requirements, next, state, connection info and attempts.
pub open spec fn link_rows(c: Challenge, issues: Seq<IssueView>) -> Seq<Seq<char>> {
    seq![
        row("requirements"@, match c.requirements {
            Some(r) => Some("["@ + join_with(r.names(), ", "@) + "]"@),
            None => None,
        }, issues),
        row("next"@, opt_text(c.next), issues),
        row("state"@, Some(state_text(c.state)), issues),
        row("connection_info"@, opt_text(c.connection_info), issues),
        row("attempts"@, opt_dec(c.attempts), issues),
    ]
}

fn bracket_text(items: &Vec<String>) -> (r: Option<String>)
    ensures
        match r {
            Some(t) => bracket_list(strs(items@)) == Some(t@),
            None => bracket_list(strs(items@)) is None,
        },
{
    if items.len() == 0 {
        return None;
    }
    let mut out = String::from_str("[");
    push_joined(&mut out, items, ", ");
    out.append("]");
    Some(out)
}

fn tag_values(tags: &Vec<crate::models::Tag>) -> (r: Vec<String>)
    ensures
        strs(r@) == tag_texts(tags@),
{
    let mut out: Vec<String> = Vec::new();
    let mut i: usize = 0;
    while i < tags.len()
        invariant
            i <= tags@.len(),
            strs(out@) == tag_texts(tags@.take(i as int)),
        decreases tags@.len() - i,
    {
        let ghost before = out@;
        let t = String::from_str(tags[i].value_str());
        out.push(t);
        assert(out@ == before.push(t));
        assert(strs(out@) =~= strs(before).push(tag_text(tags@[i as int])));
        assert(tags@.take(i + 1) =~= tags@.take(i as int).push(tags@[i as int]));
        assert(strs(out@) =~= tag_texts(tags@.take(i + 1)));
        i = i + 1;
    }
    assert(tags@.take(tags@.len() as int) =~= tags@);
    out
}

fn push_list_rows(out: &mut Vec<String>, c: &Challenge, issues: &Vec<Issue>)
    ensures
        strs(final(out)@) == strs(old(out)@) + list_rows(*c, views(issues@)),
{
    push_collection_rows(out, c, issues);
    let ghost mid = strs(out@);
    push_link_rows(out, c, issues);
    assert(strs(out@) =~= strs(old(out)@) + list_rows(*c, views(issues@)));
}

fn push_collection_rows(out: &mut Vec<String>, c: &Challenge, issues: &Vec<Issue>)
    ensures
        strs(final(out)@) == strs(old(out)@) + collection_rows(*c, views(issues@)),
{
    let ghost v = views(issues@);
    let tags: Option<String> = match &c.tags {
        Some(t) => bracket_text(&tag_values(t)),
        None => None,
    };
    push_row(out, "tags", opt_as_str(&tags), issues);
    let topics: Option<String> = match &c.topics {
        Some(t) => bracket_text(t),
        None => None,
    };
    push_row(out, "topics", opt_as_str(&topics), issues);
    let files: Option<String> = match &c.files {
        Some(f) => bracket_text(f),
        None => None,
    };
    push_row(out, "files", opt_as_str(&files), issues);
    let hints: Option<String> = match &c.hints {
        Some(h) => if h.len() == 0 {
            None
        } else {
            let mut t = decimal(h.len() as u64);
            t.append(" hint(s)");
            Some(t)
        },
        None => None,
    };
    push_row(out, "hints", opt_as_str(&hints), issues);
    assert(strs(out@) =~= strs(old(out)@) + collection_rows(*c, v));
}

fn push_link_rows(out: &mut Vec<String>, c: &Challenge, issues: &Vec<Issue>)
    ensures
        strs(final(out)@) == strs(old(out)@) + link_rows(*c, views(issues@)),
{
    let ghost v = views(issues@);
    let reqs: Option<String> = match &c.requirements {
        Some(r) => {
            let names = r.prerequisite_names();
            let mut t = String::from_str("[");
            push_joined(&mut t, &names, ", ");
            t.append("]");
            Some(t)
        },
        None => None,
    };
    push_row(out, "requirements", opt_as_str(&reqs), issues);
    push_row(out, "next", opt_as_str(&c.next), issues);
    let st = match c.state {
        None => "(defaults to visible)",
        Some(State::Visible) => "visible",
        Some(State::Hidden) => "hidden",
    };
    push_row(out, "state", Some(st), issues);
    push_row(out, "connection_info", opt_as_str(&c.connection_info), issues);
    let att = opt_decimal(c.attempts);
    push_row(out, "attempts", opt_as_str(&att), issues);
    assert(strs(out@) =~= strs(old(out)@) + link_rows(*c, v));
}

/// A row for an optional field, only when it is set.
pub open spec fn opt_row(field: Seq<char>, v: Option<String>, issues: Seq<IssueView>) -> Seq<Seq<char>> {
    match v {
        Some(x) => seq![row(field, Some(x@), issues)],
        None => seq![],
    }
}

/// Rows for the Docker fields that are set, and the version.
pub open spec fn tail_rows(c: Challenge, issues: Seq<IssueView>) -> Seq<Seq<char>> {
    opt_row("image"@, c.image, issues) + opt_row("protocol"@, c.protocol, issues) + opt_row(
        "host"@,
        c.host,
        issues,
    ) + opt_row("healthcheck"@, c.healthcheck, issues) + seq![row("version"@, Some(c.version@), issues)]
}

fn push_opt_row(out: &mut Vec<String>, field: &str, v: &Option<String>, issues: &Vec<Issue>)
    ensures
        strs(final(out)@) == strs(old(out)@) + opt_row(field@, *v, views(issues@)),
{
    match v {
        Some(x) => {
            push_row(out, field, Some(x.as_str()), issues);
            assert(strs(out@) =~= strs(old(out)@) + opt_row(field@, *v, views(issues@)));
        },
        None => {
            assert(strs(out@) =~= strs(old(out)@) + opt_row(field@, *v, views(issues@)));
        },
    }
}

fn push_tail_rows(out: &mut Vec<String>, c: &Challenge, issues: &Vec<Issue>)
    ensures
        strs(final(out)@) == strs(old(out)@) + tail_rows(*c, views(issues@)),
{
    push_opt_row(out, "image", &c.image, issues);
    push_opt_row(out, "protocol", &c.protocol, issues);
    push_opt_row(out, "host", &c.host, issues);
    push_opt_row(out, "healthcheck", &c.healthcheck, issues);
    push_row(out, "version", Some(c.version.as_str()), issues);
    assert(strs(out@) =~= strs(old(out)@) + tail_rows(*c, views(issues@)));
}

/// Rows for the YAML keys the spec does not know.
pub open spec fn unknown_rows(keys: Seq<Seq<char>>, issues: Seq<IssueView>) -> Seq<Seq<char>> {
    keys.map_values(|k: Seq<char>| row(k, Some("(present in YAML)"@), issues))
}

fn push_unknown_rows(out: &mut Vec<String>, keys: &Vec<String>, issues: &Vec<Issue>)
    ensures
        strs(final(out)@) == strs(old(out)@) + unknown_rows(strs(keys@), views(issues@)),
{
    let ghost start = strs(out@);
    let mut i: usize = 0;
    while i < keys.len()
        invariant
            i <= keys@.len(),
            strs(out@) == start + unknown_rows(strs(keys@).take(i as int), views(issues@)),
        decreases keys@.len() - i,
    {
        let ghost before = strs(out@);
        push_row(out, keys[i].as_str(), Some("(present in YAML)"), issues);
        proof {
            assert(strs(keys@).take(i + 1) =~= strs(keys@).take(i as int).push(keys@[i as int]@));
            assert(strs(out@) =~= start + unknown_rows(strs(keys@).take(i + 1), views(issues@)));
        }
        i = i + 1;
    }
    assert(strs(keys@).take(keys@.len() as int) =~= strs(keys@));
}

/// The fields the detailed view already shows a row for.
pub open spec fn rendered_fields() -> Seq<Seq<char>> {
    seq![
        "name"@,
        "author"@,
        "category"@,
        "description"@,
        "type"@,
        "value"@,
        "extra"@,
        "extra.initial"@,
        "extra.decay"@,
        "extra.minimum"@,
        "instance"@,
        "instance.backend"@,
        "instance.internal_port"@,
        "instance.connection"@,
        "instance.image"@,
        "instance.flag_mode"@,
        "instance.flag_delivery"@,
        "instance.flag_file_path"@,
        "instance.flag_service"@,
        "instance.flag_prefix"@,
        "instance.flag_suffix"@,
        "instance.random_flag_length"@,
        "instance.compose_file"@,
        "instance.compose_service"@,
        "instance.lxc_image"@,
        "instance.vagrantfile"@,
        "instance.timeout_minutes"@,
        "instance.max_per_team"@,
        "instance.max_renewals"@,
        "instance.command"@,
        "flags"@,
        "tags"@,
        "topics"@,
        "files"@,
        "hints"@,
        "requirements"@,
        "next"@,
        "state"@,
        "connection_info"@,
        "attempts"@,
        "image"@,
        "protocol"@,
        "host"@,
        "healthcheck"@,
        "version"@,
    ]
}

/// A field whose issues already appear in the detailed view.
pub open spec fn is_rendered(f: Seq<char>, unknown: Seq<Seq<char>>) -> bool {
    rendered_fields().contains(f) || crate::text::starts_with(f, "flags["@) || crate::text::starts_with(
        f,
        "files["@,
    ) || unknown.contains(f)
}

/// The fields that issues are about, each once, in order of first mention.
pub open spec fn distinct_fields(issues: Seq<IssueView>) -> Seq<Seq<char>>
    decreases issues.len(),
{
    if issues.len() == 0 {
        seq![]
    } else {
        let p = distinct_fields(issues.drop_last());
        match issues.last().field {
            Some(f) => if p.contains(f) {
                p
            } else {
                p.push(f)
            },
            None => p,
        }
    }
}

/// Rows for the fields with issues that no other row shows.
pub open spec fn leftover_rows(fields: Seq<Seq<char>>, unknown: Seq<Seq<char>>, issues: Seq<IssueView>) -> Seq<Seq<char>>
    decreases fields.len(),
{
    if fields.len() == 0 {
        seq![]
    } else {
        let p = leftover_rows(fields.drop_last(), unknown, issues);
        if is_rendered(fields.last(), unknown) {
            p
        } else {
            p.push(row(fields.last(), None, issues))
        }
    }
}

fn is_rendered_field(f: &str) -> (r: bool)
    ensures
        r == rendered_fields().contains(f@),
{
    let known: [&str; 45] = [
        "name",
        "author",
        "category",
        "description",
        "type",
        "value",
        "extra",
        "extra.initial",
        "extra.decay",
        "extra.minimum",
        "instance",
        "instance.backend",
        "instance.internal_port",
        "instance.connection",
        "instance.image",
        "instance.flag_mode",
        "instance.flag_delivery",
        "instance.flag_file_path",
        "instance.flag_service",
        "instance.flag_prefix",
        "instance.flag_suffix",
        "instance.random_flag_length",
        "instance.compose_file",
        "instance.compose_service",
        "instance.lxc_image",
        "instance.vagrantfile",
        "instance.timeout_minutes",
        "instance.max_per_team",
        "instance.max_renewals",
        "instance.command",
        "flags",
        "tags",
        "topics",
        "files",
        "hints",
        "requirements",
        "next",
        "state",
        "connection_info",
        "attempts",
        "image",
        "protocol",
        "host",
        "healthcheck",
        "version",
    ];
    let ghost spec_known = rendered_fields();
    assert(known@.map_values(|s: &str| s@) =~= spec_known);
    let mut i: usize = 0;
    while i < 45
        invariant
            i <= 45,
            known@.map_values(|s: &str| s@) == spec_known,
            spec_known == rendered_fields(),
            forall|j: int| 0 <= j < i ==> spec_known[j] != f@,
        decreases 45 - i,
    {
        if eq_str(known[i], f) {
            assert(spec_known[i as int] == f@);
            return true;
        }
        i = i + 1;
    }
    assert(!spec_known.contains(f@)) by {
        if spec_known.contains(f@) {
            let j = choose|j: int| 0 <= j < spec_known.len() && spec_known[j] == f@;
            assert(spec_known[j] != f@);
        }
    }
    false
}

fn field_names(issues: &Vec<Issue>) -> (r: Vec<String>)
    ensures
        strs(r@) == distinct_fields(views(issues@)),
{
    let mut out: Vec<String> = Vec::new();
    let mut i: usize = 0;
    while i < issues.len()
        invariant
            i <= issues@.len(),
            strs(out@) == distinct_fields(views(issues@).take(i as int)),
        decreases issues@.len() - i,
    {
        proof {
            assert(views(issues@).take(i + 1).drop_last() =~= views(issues@).take(i as int));
            assert(views(issues@).take(i + 1).last() == issues@[i as int]@);
        }
        match &issues[i].field {
            Some(f) => {
                if !crate::models::listed(&out, f.as_str()) {
                    let ghost before = out@;
                    out.push(f.clone());
                    assert(strs(out@) =~= strs(before).push(f@));
                }
            },
            None => {},
        }
        i = i + 1;
    }
    assert(views(issues@).take(issues@.len() as int) =~= views(issues@));
    out
}

fn push_leftover_rows(out: &mut Vec<String>, unknown: &Vec<String>, issues: &Vec<Issue>)
    ensures
        strs(final(out)@) == strs(old(out)@) + leftover_rows(distinct_fields(views(issues@)), strs(unknown@), views(issues@)),
{
    let fields = field_names(issues);
    let ghost start = strs(out@);
    let mut i: usize = 0;
    while i < fields.len()
        invariant
            i <= fields@.len(),
            strs(fields@) == distinct_fields(views(issues@)),
            strs(out@) == start + leftover_rows(strs(fields@).take(i as int), strs(unknown@), views(issues@)),
        decreases fields@.len() - i,
    {
        let f = fields[i].as_str();
        proof {
            assert(strs(fields@).take(i + 1).drop_last() =~= strs(fields@).take(i as int));
            assert(strs(fields@).take(i + 1).last() == f@);
        }
        let skip = is_rendered_field(f) || crate::text::starts_with_str(f, "flags[")
            || crate::text::starts_with_str(f, "files[") || crate::models::listed(unknown, f);
        if !skip {
            let ghost before = strs(out@);
            push_row(out, f, None, issues);
        }
        i = i + 1;
    }
    assert(strs(fields@).take(fields@.len() as int) =~= strs(fields@));
}

fn count_of(issues: &Vec<Issue>, sev: Severity) -> (r: usize)
    ensures
        r == count_severity(views(issues@), sev),
{
    let mut n: usize = 0;
    let mut i: usize = 0;
    while i < issues.len()
        invariant
            i <= issues@.len(),
            n == count_severity(views(issues@).take(i as int), sev),
            n <= i,
        decreases issues@.len() - i,
    {
        proof {
            assert(views(issues@).take(i + 1).drop_last() =~= views(issues@).take(i as int));
            assert(views(issues@).take(i + 1).last() == issues@[i as int]@);
        }
        let same = match (issues[i].severity, sev) {
            (Severity::Error, Severity::Error) => true,
            (Severity::Warning, Severity::Warning) => true,
            _ => false,
        };
        if same {
            n = n + 1;
        }
        i = i + 1;
    }
    assert(views(issues@).take(issues@.len() as int) =~= views(issues@));
    n
}

/// The closing lines of a challenge's detailed view: a rule, the counts of
/// errors and warnings, and a blank line.
pub open spec fn footer_lines(issues: Seq<IssueView>) -> Seq<Seq<char>> {
    let e = count_severity(issues, Severity::Error);
    let w = count_severity(issues, Severity::Warning);
    let summary = if e > 0 && w > 0 {
        "  [x] "@ + dec(e) + " error(s), "@ + dec(w) + " warning(s)"@
    } else if e > 0 {
        "  [x] "@ + dec(e) + " error(s)"@
    } else {
        "  [!] "@ + dec(w) + " warning(s)"@
    };
    seq!["  "@ + Seq::new(28, |i: int| '-'), summary, Seq::<char>::empty()]
}

fn push_footer(out: &mut Vec<String>, issues: &Vec<Issue>)
    ensures
        strs(final(out)@) == strs(old(out)@) + footer_lines(views(issues@)),
{
    let e = count_of(issues, Severity::Error);
    let w = count_of(issues, Severity::Warning);
    let mut rule = String::from_str("  ");
    let mut k: usize = 0;
    proof {
        reveal_strlit("  ");
        reveal_strlit("-");
    }
    while k < 28
        invariant
            k <= 28,
            rule@ == "  "@ + Seq::new(k as nat, |i: int| '-'),
        decreases 28 - k,
    {
        rule.append("-");
        proof {
            reveal_strlit("-");
        }
        assert(rule@ =~= "  "@ + Seq::new((k + 1) as nat, |i: int| '-'));
        k = k + 1;
    }
    let mut summary = String::new();
    if e > 0 && w > 0 {
        summary.append("  [x] ");
        push_decimal(&mut summary, e as u64);
        summary.append(" error(s), ");
        push_decimal(&mut summary, w as u64);
        summary.append(" warning(s)");
    } else if e > 0 {
        summary.append("  [x] ");
        push_decimal(&mut summary, e as u64);
        summary.append(" error(s)");
    } else {
        summary.append("  [!] ");
        push_decimal(&mut summary, w as u64);
        summary.append(" warning(s)");
    }
    let ghost start = out@;
    out.push(rule);
    out.push(summary);
    out.push(String::new());
    assert(strs(out@) =~= strs(start) + footer_lines(views(issues@)));
}

/// The detailed view of one challenge: a header, and, when it has issues,
/// a row per field with its status, value and issue messages, a row per
/// flag with issues of its own, rows for unknown keys and for any other
/// field with issues, and a footer with the counts.
pub open spec fn dict_lines(c: Challenge, issues: Seq<IssueView>) -> Seq<Seq<char>> {
    let hdr = dict_header(c.name@, c.category@, issues);
    if issues.len() == 0 {
        seq![hdr, Seq::<char>::empty()]
    } else {
        seq![hdr] + core_rows(c, issues) + scoring_rows(c, issues) + flag_section(c, issues) + list_rows(
            c,
            issues,
        ) + tail_rows(c, issues) + unknown_rows(strs(c.unknown_yaml_keys@), issues) + leftover_rows(
            distinct_fields(issues),
            strs(c.unknown_yaml_keys@),
            issues,
        ) + footer_lines(issues)
    }
}

/// The detailed, field-by-field view of one challenge and its issues.
pub fn challenge_dict_lines(c: &Challenge, issues: &Vec<Issue>) -> (r: Vec<String>)
    ensures
        strs(r@) == dict_lines(*c, views(issues@)),
{
    let ghost v = views(issues@);
    let has_e = has_severity_exec(issues, Severity::Error);
    let has_w = has_severity_exec(issues, Severity::Warning);
    let mut hdr = String::from_str(if has_e { "[x]" } else if has_w { "[!]" } else { "✅" });
    hdr.append(" \"");
    hdr.append(c.name.as_str());
    hdr.append("\"  [");
    hdr.append(c.category.as_str());
    hdr.append("]");
    let mut out: Vec<String> = Vec::new();
    out.push(hdr);
    if issues.len() == 0 {
        out.push(String::new());
        assert(strs(out@) =~= dict_lines(*c, v));
        return out;
    }
    let ghost s0 = strs(out@);
    push_core_rows(&mut out, c, issues);
    push_scoring_rows(&mut out, c, issues);
    push_flag_section(&mut out, c, issues);
    push_list_rows(&mut out, c, issues);
    push_tail_rows(&mut out, c, issues);
    push_unknown_rows(&mut out, &c.unknown_yaml_keys, issues);
    push_leftover_rows(&mut out, &c.unknown_yaml_keys, issues);
    push_footer(&mut out, issues);
    assert(strs(out@) =~= dict_lines(*c, v));
    out
}

/// The issues of the challenge named `name`, in order.
pub open spec fn issues_of(issues: Seq<IssueView>, name: Seq<char>) -> Seq<IssueView>
    decreases issues.len(),
{
    if issues.len() == 0 {
        seq![]
    } else {
        let p = issues_of(issues.drop_last(), name);
        if issues.last().challenge == name {
            p.push(issues.last())
        } else {
            p
        }
    }
}

/// The issues about no particular challenge, in order.
pub open spec fn global_issues(issues: Seq<IssueView>) -> Seq<IssueView> {
    issues_of(issues, Seq::<char>::empty())
}

/// The challenges that issues are about, each once.
pub open spec fn distinct_challenges(issues: Seq<IssueView>) -> Seq<Seq<char>>
    decreases issues.len(),
{
    if issues.len() == 0 {
        seq![]
    } else {
        let p = distinct_challenges(issues.drop_last());
        let n = issues.last().challenge;
        if n.len() == 0 || p.contains(n) {
            p
        } else {
            p.push(n)
        }
    }
}

/// The lines about files that could not be loaded: the path, then each
/// line of the error, indented.
pub open spec fn failure_lines(path: Seq<char>, error: Seq<char>) -> Seq<Seq<char>> {
    seq!["  [x]  "@ + path] + lines(error).map_values(|l: Seq<char>| "      "@ + l)
}

/// The parse-failure section, for the first `n` failures.
pub open spec fn failures_block(failures: Seq<ScanFailure>, n: int) -> Seq<Seq<char>>
    decreases n,
{
    if n <= 0 {
        seq![]
    } else {
        failures_block(failures, n - 1) + failure_lines(failures[n - 1].path@, failures[n - 1].error@)
    }
}

/// The parse-failure section: empty when every file loaded.
pub open spec fn failures_section(failures: Seq<ScanFailure>) -> Seq<Seq<char>> {
    if failures.len() == 0 {
        seq![]
    } else {
        seq!["PARSE FAILURES  ("@ + dec(failures.len()) + " file(s) could not be loaded)"@]
            + failures_block(failures, failures.len() as int) + seq![Seq::<char>::empty()]
    }
}

/// The section of issues about no particular challenge.
pub open spec fn global_section(issues: Seq<IssueView>) -> Seq<Seq<char>> {
    let g = global_issues(issues);
    if g.len() == 0 {
        seq![]
    } else {
        seq!["GLOBAL ISSUES"@] + g.map_values(|i: IssueView| "  "@ + issue_tag(i.severity) + "  "@ + i.message)
            + seq![Seq::<char>::empty()]
    }
}

/// The views of the first `n` challenges, detailed or compact.
pub open spec fn challenge_views(challenges: Seq<Challenge>, issues: Seq<IssueView>, verbose: bool, n: int) -> Seq<Seq<char>>
    decreases n,
{
    if n <= 0 {
        seq![]
    } else {
        let c = challenges[n - 1];
        let mine = issues_of(issues, c.name@);
        challenge_views(challenges, issues, verbose, n - 1) + if verbose {
            dict_lines(c, mine)
        } else {
            compact_lines(c.name@, c.category@, mine)
        }
    }
}

/// The closing summary of a report.
pub open spec fn summary_lines(
    valid: nat,
    failed: nat,
    problems: nat,
    errors: nat,
    warnings: nat,
    clean_report: bool,
    verbose: bool,
) -> Seq<Seq<char>> {
    let total = valid + failed;
    let clean = if valid >= problems { (valid - problems) as nat } else { 0 };
    if failed == 0 && clean_report {
        seq!["all "@ + dec(total) + " challenge(s) valid -- no issues found."@]
    } else {
        let parts = (if clean > 0 { seq![dec(clean) + " clean"@] } else { seq![] })
            + (if problems > 0 {
                seq![dec(problems) + " with issues ("@ + dec(errors) + " error(s), "@ + dec(warnings) + " warning(s))"@]
            } else {
                seq![]
            })
            + (if failed > 0 { seq![dec(failed) + " failed to parse"@] } else { seq![] });
        seq![
            "Validated "@ + dec(total) + " challenge(s): "@ + join_with(parts, ", "@),
            Seq::<char>::empty(),
            if verbose {
                "Run `nervctf validate` (without --debug) for a compact summary."@
            } else {
                "Run `nervctf validate --debug` for the full field-by-field view."@
            },
        ]
    }
}

/// The whole report as printed: parse failures, global issues, each
/// challenge's view, and the summary.
pub open spec fn report_text(
    issues: Seq<IssueView>,
    challenges: Seq<Challenge>,
    failures: Seq<ScanFailure>,
    verbose: bool,
) -> Seq<Seq<char>> {
    failures_section(failures) + global_section(issues) + challenge_views(
        challenges,
        issues,
        verbose,
        challenges.len() as int,
    ) + summary_lines(
        challenges.len(),
        failures.len(),
        distinct_challenges(issues).len(),
        count_severity(issues, Severity::Error),
        count_severity(issues, Severity::Warning),
        issues.len() == 0,
        verbose,
    )
}

fn issues_of_exec(issues: &Vec<Issue>, name: &str) -> (r: Vec<Issue>)
    ensures
        views(r@) == issues_of(views(issues@), name@),
{
    let mut out: Vec<Issue> = Vec::new();
    let mut i: usize = 0;
    while i < issues.len()
        invariant
            i <= issues@.len(),
            views(out@) == issues_of(views(issues@).take(i as int), name@),
        decreases issues@.len() - i,
    {
        proof {
            assert(views(issues@).take(i + 1).drop_last() =~= views(issues@).take(i as int));
            assert(views(issues@).take(i + 1).last() == issues@[i as int]@);
        }
        if eq_str(issues[i].challenge.as_str(), name) {
            let ghost before = views(out@);
            out.push(copy_issue(&issues[i]));
            assert(views(out@) =~= before.push(issues@[i as int]@));
        }
        i = i + 1;
    }
    assert(views(issues@).take(issues@.len() as int) =~= views(issues@));
    out
}

fn challenge_names(issues: &Vec<Issue>) -> (r: Vec<String>)
    ensures
        strs(r@) == distinct_challenges(views(issues@)),
{
    let mut out: Vec<String> = Vec::new();
    let mut i: usize = 0;
    while i < issues.len()
        invariant
            i <= issues@.len(),
            strs(out@) == distinct_challenges(views(issues@).take(i as int)),
        decreases issues@.len() - i,
    {
        proof {
            assert(views(issues@).take(i + 1).drop_last() =~= views(issues@).take(i as int));
            assert(views(issues@).take(i + 1).last() == issues@[i as int]@);
        }
        let n = issues[i].challenge.as_str();
        if n.unicode_len() > 0 && !crate::models::listed(&out, n) {
            let ghost before = out@;
            out.push(issues[i].challenge.clone());
            assert(strs(out@) =~= strs(before).push(n@));
        }
        i = i + 1;
    }
    assert(views(issues@).take(issues@.len() as int) =~= views(issues@));
    out
}

fn push_lines(out: &mut Vec<String>, more: Vec<String>)
    ensures
        strs(final(out)@) == strs(old(out)@) + strs(more@),
{
    let mut m = more;
    let ghost a = out@;
    let ghost b = m@;
    out.append(&mut m);
    assert(strs(out@) =~= strs(a) + strs(b));
}

fn push_failures(out: &mut Vec<String>, failures: &Vec<ScanFailure>)
    ensures
        strs(final(out)@) == strs(old(out)@) + failures_section(failures@),
{
    let n = failures.len();
    if n == 0 {
        assert(strs(out@) =~= strs(old(out)@) + failures_section(failures@));
        return;
    }
    let ghost base = strs(out@);
    let mut head = String::from_str("PARSE FAILURES  (");
    push_decimal(&mut head, n as u64);
    head.append(" file(s) could not be loaded)");
    out.push(head);
    let ghost start = strs(out@);
    assert(start =~= base.push(head@));
    let mut i: usize = 0;
    while i < n
        invariant
            n == failures@.len(),
            i <= n,
            strs(out@) == start + failures_block(failures@, i as int),
        decreases n - i,
    {
        let f = &failures[i];
        let mut first = String::from_str("  [x]  ");
        first.append(f.path.as_str());
        let ghost before = strs(out@);
        out.push(first);
        let ls = split_lines(f.error.as_str());
        let mut j: usize = 0;
        while j < ls.len()
            invariant
                j <= ls@.len(),
                strs(ls@) == lines(f.error@),
                strs(out@) == before.push("  [x]  "@ + f.path@) + strs(ls@).take(j as int).map_values(
                    |l: Seq<char>| "      "@ + l,
                ),
            decreases ls@.len() - j,
        {
            let mut line = String::from_str("      ");
            line.append(ls[j].as_str());
            let ghost mid = strs(out@);
            out.push(line);
            proof {
                assert(strs(out@) =~= mid.push(line@));
                assert(strs(ls@).take(j + 1) =~= strs(ls@).take(j as int).push(ls@[j as int]@));
                assert(strs(out@) =~= before.push("  [x]  "@ + f.path@) + strs(ls@).take(j + 1).map_values(
                    |l: Seq<char>| "      "@ + l,
                ));
            }
            j = j + 1;
        }
        proof {
            assert(strs(ls@).take(ls@.len() as int) =~= strs(ls@));
            assert(strs(out@) =~= start + failures_block(failures@, i + 1));
        }
        i = i + 1;
    }
    let ghost before = strs(out@);
    out.push(String::new());
    assert(strs(out@) =~= before.push(Seq::<char>::empty()));
    assert(strs(out@) =~= strs(old(out)@) + failures_section(failures@));
}

fn push_global(out: &mut Vec<String>, issues: &Vec<Issue>)
    ensures
        strs(final(out)@) == strs(old(out)@) + global_section(views(issues@)),
{
    let g = issues_of_exec(issues, "");
    proof {
        reveal_strlit("");
    }
    assert(""@ =~= Seq::<char>::empty());
    if g.len() == 0 {
        assert(strs(out@) =~= strs(old(out)@) + global_section(views(issues@)));
        return;
    }
    let ghost base = strs(out@);
    out.push(String::from_str("GLOBAL ISSUES"));
    let ghost start = strs(out@);
    assert(start =~= base.push("GLOBAL ISSUES"@));
    let mut i: usize = 0;
    while i < g.len()
        invariant
            i <= g@.len(),
            strs(out@) == start + views(g@).take(i as int).map_values(
                |v: IssueView| "  "@ + issue_tag(v.severity) + "  "@ + v.message,
            ),
        decreases g@.len() - i,
    {
        let mut line = String::from_str("  ");
        match g[i].severity {
            Severity::Error => line.append("[E]"),
            Severity::Warning => line.append("[W]"),
        }
        line.append("  ");
        line.append(g[i].message.as_str());
        let ghost mid = strs(out@);
        out.push(line);
        proof {
            assert(strs(out@) =~= mid.push(line@));
            assert(views(g@).take(i + 1) =~= views(g@).take(i as int).push(g@[i as int]@));
            assert(strs(out@) =~= start + views(g@).take(i + 1).map_values(
                |v: IssueView| "  "@ + issue_tag(v.severity) + "  "@ + v.message,
            ));
        }
        i = i + 1;
    }
    assert(views(g@).take(g@.len() as int) =~= views(g@));
    let ghost before = strs(out@);
    out.push(String::new());
    assert(strs(out@) =~= before.push(Seq::<char>::empty()));
    assert(strs(out@) =~= strs(old(out)@) + global_section(views(issues@)));
}

fn summary_text(
    valid: usize,
    failed: usize,
    problems: usize,
    errors: usize,
    warnings: usize,
    clean_report: bool,
    verbose: bool,
) -> (r: Vec<String>)
    requires
        valid + failed <= u64::MAX,
    ensures
        strs(r@) == summary_lines(valid as nat, failed as nat, problems as nat, errors as nat, warnings as nat, clean_report, verbose),
{
    let total = valid as u64 + failed as u64;
    let clean = if valid >= problems { valid - problems } else { 0 };
    let mut out: Vec<String> = Vec::new();
    if failed == 0 && clean_report {
        let mut l = String::from_str("all ");
        push_decimal(&mut l, total);
        l.append(" challenge(s) valid -- no issues found.");
        out.push(l);
        assert(strs(out@) =~= summary_lines(valid as nat, failed as nat, problems as nat, errors as nat, warnings as nat, clean_report, verbose));
        return out;
    }
    let ghost cl = if valid as nat >= problems as nat { (valid - problems) as nat } else { 0nat };
    assert(clean == cl);
    let mut parts: Vec<String> = Vec::new();
    if clean > 0 {
        let mut p = decimal(clean as u64);
        p.append(" clean");
        parts.push(p);
    }
    let ghost p1 = strs(parts@);
    assert(p1 =~= (if cl > 0 { seq![dec(cl) + " clean"@] } else { seq![] }));
    if problems > 0 {
        let mut p = decimal(problems as u64);
        p.append(" with issues (");
        push_decimal(&mut p, errors as u64);
        p.append(" error(s), ");
        push_decimal(&mut p, warnings as u64);
        p.append(" warning(s))");
        parts.push(p);
        assert(strs(parts@) =~= p1.push(p@));
    }
    let ghost p2 = strs(parts@);
    if failed > 0 {
        let mut p = decimal(failed as u64);
        p.append(" failed to parse");
        parts.push(p);
        assert(strs(parts@) =~= p2.push(p@));
    }
    let ghost expected_parts = (if cl > 0 { seq![dec(cl) + " clean"@] } else { seq![] })
        + (if problems > 0 {
            seq![dec(problems as nat) + " with issues ("@ + dec(errors as nat) + " error(s), "@ + dec(warnings as nat) + " warning(s))"@]
        } else {
            seq![]
        })
        + (if failed > 0 { seq![dec(failed as nat) + " failed to parse"@] } else { seq![] });
    assert(strs(parts@) =~= expected_parts);
    let mut l = String::from_str("Validated ");
    push_decimal(&mut l, total);
    l.append(" challenge(s): ");
    push_joined(&mut l, &parts, ", ");
    assert(l@ =~= "Validated "@ + dec((valid + failed) as nat) + " challenge(s): "@ + join_with(expected_parts, ", "@));
    out.push(l);
    out.push(String::new());
    if verbose {
        out.push(String::from_str("Run `nervctf validate` (without --debug) for a compact summary."));
    } else {
        out.push(String::from_str("Run `nervctf validate --debug` for the full field-by-field view."));
    }
    assert(strs(out@) =~= summary_lines(valid as nat, failed as nat, problems as nat, errors as nat, warnings as nat, clean_report, verbose));
    out
}

impl ValidationReport {
    /// The report as lines of text. Normally only parse failures and the
    /// challenges with issues are shown, one line per issue; `verbose`
    /// shows the field-by-field view of every challenge.
    pub fn print_lines(&self, challenges: &Vec<Challenge>, failures: &Vec<ScanFailure>, verbose: bool) -> (r: Vec<String>)
        requires
            challenges@.len() + failures@.len() <= u64::MAX,
        ensures
            strs(r@) == report_text(views(self.issues@), challenges@, failures@, verbose),
    {
        let ghost v = views(self.issues@);
        let mut out: Vec<String> = Vec::new();
        push_failures(&mut out, failures);
        push_global(&mut out, &self.issues);
        let ghost start = strs(out@);
        let mut i: usize = 0;
        while i < challenges.len()
            invariant
                i <= challenges@.len(),
                v == views(self.issues@),
                strs(out@) == start + challenge_views(challenges@, v, verbose, i as int),
            decreases challenges@.len() - i,
        {
            let c = &challenges[i];
            let mine = issues_of_exec(&self.issues, c.name.as_str());
            let block = if verbose {
                challenge_dict_lines(c, &mine)
            } else {
                challenge_compact_lines(c.name.as_str(), c.category.as_str(), &mine)
            };
            push_lines(&mut out, block);
            i = i + 1;
        }
        let names = challenge_names(&self.issues);
        let errors = count_of(&self.issues, Severity::Error);
        let warnings = count_of(&self.issues, Severity::Warning);
        let summary = summary_text(
            challenges.len(),
            failures.len(),
            names.len(),
            errors,
            warnings,
            self.issues.len() == 0,
            verbose,
        );
        push_lines(&mut out, summary);
        assert(strs(out@) =~= report_text(v, challenges@, failures@, verbose));
        out
    }
}

} // verus!
