//! Text-level repair of challenge files: splitting into lines as
//! `str::lines` does, finding a top-level YAML key, and inserting a
//! `key: value` line after an anchor key (or before a fallback key, or at
//! the end), plus the answers `nervctf fix` turns into edits.
use vstd::prelude::*;
use crate::models::strs;
use crate::text::{is_blank, is_blank_str, leading_ws_len, starts_with, starts_with_str, trim_start};

verus! {

/// Position of the first `\n` in `s`, or `s.len()` when there is none.
pub open spec fn first_newline(s: Seq<char>) -> nat
    decreases s.len(),
{
    if s.len() == 0 {
        0
    } else if s[0] == '\n' {
        0
    } else {
        1 + first_newline(s.drop_first())
    }
}

/// The lines of `s` as `str::lines` yields them: split at `\n`, a `\r`
/// before the `\n` dropped, and no empty line after a final `\n`.
pub open spec fn lines(s: Seq<char>) -> Seq<Seq<char>>
    decreases s.len(),
{
    if s.len() == 0 {
        seq![]
    } else {
        let e = first_newline(s);
        if e >= s.len() {
            seq![s]
        } else {
            let raw = s.subrange(0, e as int);
            let line = if raw.len() > 0 && raw.last() == '\r' {
                raw.drop_last()
            } else {
                raw
            };
            seq![line] + lines(s.skip(e + 1int))
        }
    }
}

/// The lines joined with `\n` between them.
pub open spec fn join_lines(ls: Seq<Seq<char>>) -> Seq<char>
    decreases ls.len(),
{
    if ls.len() == 0 {
        seq![]
    } else if ls.len() == 1 {
        ls[0]
    } else {
        join_lines(ls.drop_last()) + seq!['\n'] + ls.last()
    }
}

/// A line that sets the top-level key `key`: it starts at column 0, is not
/// a comment, and begins with `key:`.
pub open spec fn sets_top_level_key(l: Seq<char>, key: Seq<char>) -> bool {
    &&& !(l.len() > 0 && l[0] == ' ')
    &&& !(l.len() > 0 && l[0] == '\t')
    &&& !(trim_start(l).len() > 0 && trim_start(l)[0] == '#')
    &&& starts_with(l, key.push(':'))
}

/// The YAML text has a top-level `key:` line.
pub open spec fn has_field_spec(contents: Seq<char>, key: Seq<char>) -> bool {
    exists|i: int| 0 <= i < lines(contents).len() && sets_top_level_key(#[trigger] lines(contents)[i], key)
}

/// A line that, ignoring its indentation, starts with `prefix` and is not a
/// comment.
pub open spec fn anchors(l: Seq<char>, prefix: Seq<char>) -> bool {
    starts_with(trim_start(l), prefix) && !(trim_start(l).len() > 0 && trim_start(l)[0] == '#')
}

/// Index of the first line anchored by `prefix`, or `ls.len()`.
pub open spec fn first_anchor(ls: Seq<Seq<char>>, prefix: Seq<char>) -> nat
    decreases ls.len(),
{
    if ls.len() == 0 {
        0
    } else if anchors(ls[0], prefix) {
        0
    } else {
        1 + first_anchor(ls.drop_first(), prefix)
    }
}

/// The lines with `new_line` inserted after the first line anchored by
/// `after`, else before the first anchored by `fallback`, else at the end.
pub open spec fn with_inserted(
    ls: Seq<Seq<char>>,
    new_line: Seq<char>,
    after: Seq<char>,
    fallback: Seq<char>,
) -> Seq<Seq<char>> {
    let a = first_anchor(ls, after);
    if a < ls.len() {
        ls.take(a + 1int) + seq![new_line] + ls.skip(a + 1int)
    } else {
        let b = first_anchor(ls, fallback);
        if b < ls.len() {
            ls.take(b as int) + seq![new_line] + ls.skip(b as int)
        } else {
            ls.push(new_line)
        }
    }
}

/// `s`, with a `\n` appended unless it already ends in one.
pub open spec fn with_final_newline(s: Seq<char>) -> Seq<char> {
    if s.len() > 0 && s.last() == '\n' {
        s
    } else {
        s.push('\n')
    }
}

/// The text `inject_field` produces.
pub open spec fn injected(
    contents: Seq<char>,
    key: Seq<char>,
    value: Seq<char>,
    after_key: Seq<char>,
    fallback_key: Seq<char>,
) -> Seq<char> {
    let new_line = key + ": "@ + value;
    with_final_newline(
        join_lines(with_inserted(lines(contents), new_line, after_key.push(':'), fallback_key.push(':'))),
    )
}

proof fn lemma_first_newline(t: Seq<char>, k: int)
    requires
        0 <= k <= t.len(),
        forall|j: int| 0 <= j < k ==> t[j] != '\n',
        k == t.len() || t[k] == '\n',
    ensures
        first_newline(t) == k,
    decreases k,
{
    if k > 0 {
        lemma_first_newline(t.drop_first(), k - 1);
    }
}

proof fn lemma_first_anchor(ls: Seq<Seq<char>>, prefix: Seq<char>, k: int)
    requires
        0 <= k <= ls.len(),
        forall|j: int| 0 <= j < k ==> !anchors(#[trigger] ls[j], prefix),
        k == ls.len() || anchors(ls[k], prefix),
    ensures
        first_anchor(ls, prefix) == k,
    decreases k,
{
    if k > 0 {
        assert forall|j: int| 0 <= j < k - 1 implies !anchors(#[trigger] ls.drop_first()[j], prefix) by {
            assert(ls.drop_first()[j] == ls[j + 1]);
        }
        lemma_first_anchor(ls.drop_first(), prefix, k - 1);
    }
}

/// Position of the first `\n` at or after `start`, or the length of `s`.
fn find_newline(s: &str, start: usize) -> (r: usize)
    requires
        start <= s@.len(),
    ensures
        start <= r <= s@.len(),
        r - start == first_newline(s@.skip(start as int)),
{
    let n = s.unicode_len();
    let mut k = start;
    while k < n && s.get_char(k) != '\n'
        invariant
            n == s@.len(),
            start <= k <= n,
            forall|j: int| start <= j < k ==> s@[j] != '\n',
        decreases n - k,
    {
        k = k + 1;
    }
    proof {
        let t = s@.skip(start as int);
        assert forall|j: int| 0 <= j < k - start implies t[j] != '\n' by {
            assert(t[j] == s@[start + j]);
        }
        if k < n {
            assert(t[k - start] == s@[k as int]);
        }
        lemma_first_newline(t, k - start);
    }
    k
}

/// The lines of `s`, as `str::lines` yields them.
pub fn split_lines(s: &str) -> (r: Vec<String>)
    ensures
        strs(r@) == lines(s@),
{
    let n = s.unicode_len();
    let mut out: Vec<String> = Vec::new();
    let mut start: usize = 0;
    assert(s@.skip(0) =~= s@);
    while start < n
        invariant
            n == s@.len(),
            start <= n,
            strs(out@) + lines(s@.skip(start as int)) == lines(s@),
        decreases n - start,
    {
        let ghost t = s@.skip(start as int);
        let e = find_newline(s, start);
        let mut end = e;
        if e < n && e > start && s.get_char(e - 1) == '\r' {
            end = e - 1;
        }
        let piece = s.substring_char(start, end);
        let ghost before = out@;
        out.push(String::from_str(piece));
        proof {
            assert(t.len() > 0);
            let raw = t.subrange(0, (e - start) as int);
            assert(raw =~= s@.subrange(start as int, e as int));
            if e < n {
                assert(t.skip(e - start + 1) =~= s@.skip(e + 1));
                if e > start {
                    assert(raw.last() == s@[e - 1]);
                }
                if end < e {
                    assert(raw.drop_last() =~= piece@);
                } else {
                    assert(raw =~= piece@);
                }
                assert(lines(t) == seq![piece@] + lines(s@.skip(e + 1)));
            } else {
                assert(t =~= piece@);
                assert(lines(t) == seq![piece@]);
                assert(s@.skip(n as int) =~= Seq::<char>::empty());
            }
            assert(strs(out@) =~= strs(before).push(piece@));
        }
        if e < n {
            start = e + 1;
        } else {
            start = n;
        }
        proof {
            assert(strs(out@) + lines(s@.skip(start as int)) =~= strs(before) + lines(t));
        }
    }
    assert(s@.skip(start as int) =~= Seq::<char>::empty());
    assert(strs(out@) + lines(s@.skip(start as int)) =~= strs(out@));
    out
}

/// `key` followed by `:`.
fn key_prefix(key: &str) -> (r: String)
    ensures
        r@ == key@.push(':'),
{
    let mut p = String::from_str(key);
    p.append(":");
    proof {
        reveal_strlit(":");
    }
    assert(p@ =~= key@.push(':'));
    p
}

/// Whether the line, ignoring indentation, starts with `prefix` and is not a
/// comment.
fn anchors_line(l: &str, prefix: &str) -> (r: bool)
    ensures
        r == anchors(l@, prefix@),
{
    let k = leading_ws_len(l);
    let n = l.unicode_len();
    let t = l.substring_char(k, n);
    assert(t@ =~= trim_start(l@));
    let hash = t.unicode_len() > 0 && t.get_char(0) == '#';
    starts_with_str(t, prefix) && !hash
}

fn sets_key_line(l: &str, prefix: &str, key: Ghost<Seq<char>>) -> (r: bool)
    requires
        prefix@ == key@.push(':'),
    ensures
        r == sets_top_level_key(l@, key@),
{
    let n = l.unicode_len();
    if n > 0 {
        let c = l.get_char(0);
        if c == ' ' || c == '\t' {
            return false;
        }
    }
    let k = leading_ws_len(l);
    let t = l.substring_char(k, n);
    assert(t@ =~= trim_start(l@));
    if t.unicode_len() > 0 && t.get_char(0) == '#' {
        return false;
    }
    starts_with_str(l, prefix)
}

/// Whether the YAML text has a non-commented, non-indented top-level key
/// `key:`.
pub fn has_field(contents: &str, key: &str) -> (r: bool)
    ensures
        r == has_field_spec(contents@, key@),
{
    let prefix = key_prefix(key);
    let ls = split_lines(contents);
    let ghost spec_ls = lines(contents@);
    let mut i: usize = 0;
    while i < ls.len()
        invariant
            strs(ls@) == spec_ls,
            spec_ls == lines(contents@),
            prefix@ == key@.push(':'),
            i <= ls@.len(),
            forall|j: int| 0 <= j < i ==> !sets_top_level_key(#[trigger] spec_ls[j], key@),
        decreases ls@.len() - i,
    {
        if sets_key_line(ls[i].as_str(), prefix.as_str(), Ghost(key@)) {
            assert(spec_ls[i as int] == ls@[i as int]@);
            return true;
        }
        assert(spec_ls[i as int] == ls@[i as int]@);
        i = i + 1;
    }
    false
}

/// Index of the first line anchored by `prefix`, or the number of lines.
fn first_anchor_index(ls: &Vec<String>, prefix: &str) -> (r: usize)
    ensures
        r == first_anchor(strs(ls@), prefix@),
        r <= ls@.len(),
{
    let ghost sl = strs(ls@);
    let mut i: usize = 0;
    while i < ls.len()
        invariant
            sl == strs(ls@),
            i <= ls@.len(),
            forall|j: int| 0 <= j < i ==> !anchors(#[trigger] sl[j], prefix@),
        decreases ls@.len() - i,
    {
        if anchors_line(ls[i].as_str(), prefix) {
            assert(sl[i as int] == ls@[i as int]@);
            proof {
                lemma_first_anchor(sl, prefix@, i as int);
            }
            return i;
        }
        assert(sl[i as int] == ls@[i as int]@);
        i = i + 1;
    }
    proof {
        lemma_first_anchor(sl, prefix@, i as int);
    }
    i
}

/// The lines joined with `\n`.
fn join_with_newlines(ls: &Vec<String>) -> (r: String)
    ensures
        r@ == join_lines(strs(ls@)),
{
    let mut out = String::new();
    let mut i: usize = 0;
    while i < ls.len()
        invariant
            i <= ls@.len(),
            out@ == join_lines(strs(ls@).take(i as int)),
        decreases ls@.len() - i,
    {
        let ghost before = out@;
        if i > 0 {
            out.append("\n");
        }
        out.append(ls[i].as_str());
        proof {
            reveal_strlit("\n");
            let pre = strs(ls@).take(i as int);
            let next = strs(ls@).take(i + 1);
            assert(next.drop_last() =~= pre);
            assert(next.last() == ls@[i as int]@);
            if i > 0 {
                assert(out@ =~= before + seq!['\n'] + ls@[i as int]@);
            } else {
                assert(out@ =~= ls@[i as int]@);
            }
        }
        i = i + 1;
    }
    assert(strs(ls@).take(ls@.len() as int) =~= strs(ls@));
    out
}

/// Inserts `key: value` after the first line starting (after indentation)
/// with `after_key:`; failing that, before the first line starting with
/// `fallback_key:`; failing that, at the end. Comment lines never anchor.
/// The result always ends in a newline.
pub fn inject_field(contents: &str, key: &str, value: &str, after_key: &str, fallback_key: &str) -> (r: String)
    ensures
        r@ == injected(contents@, key@, value@, after_key@, fallback_key@),
{
    let after_prefix = key_prefix(after_key);
    let fallback_prefix = key_prefix(fallback_key);
    let mut new_line = String::from_str(key);
    new_line.append(": ");
    new_line.append(value);
    let ls = split_lines(contents);
    let ghost sl = strs(ls@);
    let ghost nl = new_line@;
    let a = first_anchor_index(&ls, after_prefix.as_str());
    let mut result: Vec<String> = Vec::new();
    let ghost target: Seq<Seq<char>>;
    if a < ls.len() {
        let mut i: usize = 0;
        while i < ls.len()
            invariant
                sl == strs(ls@),
                a < ls@.len(),
                i <= ls@.len(),
                nl == new_line@,
                strs(result@) == if i <= a { sl.take(i as int) } else {
                    sl.take(a + 1) + seq![nl] + sl.subrange(a + 1, i as int)
                },
            decreases ls@.len() - i,
        {
            let ghost before = strs(result@);
            result.push(ls[i].clone());
            proof {
                assert(strs(result@) =~= before.push(sl[i as int]));
            }
            if i == a {
                let ghost mid = strs(result@);
                result.push(new_line.clone());
                assert(strs(result@) =~= mid.push(nl));
            }
            proof {
                if i < a {
                    assert(strs(result@) =~= sl.take(i + 1));
                } else if i == a {
                    assert(strs(result@) =~= sl.take(a + 1) + seq![nl] + sl.subrange(a + 1, i + 1));
                } else {
                    assert(strs(result@) =~= sl.take(a + 1) + seq![nl] + sl.subrange(a + 1, i + 1));
                }
            }
            i = i + 1;
        }
        proof {
            target = sl.take(a + 1) + seq![nl] + sl.skip(a + 1);
            assert(strs(result@) =~= target);
        }
    } else {
        let b = first_anchor_index(&ls, fallback_prefix.as_str());
        let mut i: usize = 0;
        while i < ls.len()
            invariant
                sl == strs(ls@),
                b <= ls@.len(),
                i <= ls@.len(),
                nl == new_line@,
                strs(result@) == if i <= b { sl.take(i as int) } else {
                    sl.take(b as int) + seq![nl] + sl.subrange(b as int, i as int)
                },
            decreases ls@.len() - i,
        {
            let ghost before = strs(result@);
            if i == b {
                result.push(new_line.clone());
                assert(strs(result@) =~= before.push(nl));
            }
            let ghost mid = strs(result@);
            result.push(ls[i].clone());
            proof {
                assert(strs(result@) =~= mid.push(sl[i as int]));
                if i < b {
                    assert(strs(result@) =~= sl.take(i + 1));
                } else {
                    assert(strs(result@) =~= sl.take(b as int) + seq![nl] + sl.subrange(b as int, i + 1));
                }
            }
            i = i + 1;
        }
        if b == ls.len() {
            let ghost before = strs(result@);
            result.push(new_line.clone());
            assert(strs(result@) =~= before.push(nl));
        }
        proof {
            if b < sl.len() {
                target = sl.take(b as int) + seq![nl] + sl.skip(b as int);
            } else {
                target = sl.push(nl);
                assert(sl.take(sl.len() as int) =~= sl);
            }
            assert(strs(result@) =~= target);
        }
    }
    proof {
        reveal_strlit(": ");
        assert(nl =~= key@ + ": "@ + value@);
        assert(target == with_inserted(sl, nl, after_key@.push(':'), fallback_key@.push(':')));
    }
    let mut out = join_with_newlines(&result);
    let len = out.as_str().unicode_len();
    if len == 0 || out.as_str().get_char(len - 1) != '\n' {
        out.append("\n");
        proof {
            reveal_strlit("\n");
        }
    }
    out
}

/// Challenge files that lack one of the fields `nervctf fix` can add.
pub struct Issues {
    pub missing_state: Vec<String>,
    pub missing_author: Vec<String>,
    pub missing_version: Vec<String>,
}

impl Issues {
    pub fn new() -> (r: Self)
        ensures
            r.missing_state@.len() == 0,
            r.missing_author@.len() == 0,
            r.missing_version@.len() == 0,
    {
        Issues { missing_state: Vec::new(), missing_author: Vec::new(), missing_version: Vec::new() }
    }

    /// No file lacks any of the fields.
    pub fn is_empty(&self) -> (r: bool)
        ensures
            r == (self.missing_state@.len() == 0 && self.missing_author@.len() == 0
                && self.missing_version@.len() == 0),
    {
        self.missing_state.len() == 0 && self.missing_author.len() == 0 && self.missing_version.len() == 0
    }

    /// Records `path` under every field its `contents` lack.
    pub fn record(&mut self, path: &str, contents: &str)
        ensures
            strs(final(self).missing_state@) == if has_field_spec(contents@, "state"@) {
                strs(old(self).missing_state@)
            } else {
                strs(old(self).missing_state@).push(path@)
            },
            strs(final(self).missing_author@) == if has_field_spec(contents@, "author"@) {
                strs(old(self).missing_author@)
            } else {
                strs(old(self).missing_author@).push(path@)
            },
            strs(final(self).missing_version@) == if has_field_spec(contents@, "version"@) {
                strs(old(self).missing_version@)
            } else {
                strs(old(self).missing_version@).push(path@)
            },
    {
        if !has_field(contents, "state") {
            self.missing_state.push(String::from_str(path));
            assert(strs(self.missing_state@) =~= strs(old(self).missing_state@).push(path@));
        }
        if !has_field(contents, "author") {
            self.missing_author.push(String::from_str(path));
            assert(strs(self.missing_author@) =~= strs(old(self).missing_author@).push(path@));
        }
        if !has_field(contents, "version") {
            self.missing_version.push(String::from_str(path));
            assert(strs(self.missing_version@) =~= strs(old(self).missing_version@).push(path@));
        }
    }
}

/// One edit `nervctf fix` applies to every file that lacks a field: insert
/// `key: value` after `after_key`, else before `fallback_key`.
pub struct FieldFix {
    pub key: String,
    pub value: String,
    pub after_key: String,
    pub fallback_key: String,
}

pub open spec fn is_fix(f: FieldFix, key: Seq<char>, value: Seq<char>, after: Seq<char>, fallback: Seq<char>) -> bool {
    f.key@ == key && f.value@ == value && f.after_key@ == after && f.fallback_key@ == fallback
}

fn make_fix(key: &str, value: &str, after: &str, fallback: &str) -> (r: FieldFix)
    ensures
        is_fix(r, key@, value@, after@, fallback@),
{
    FieldFix {
        key: String::from_str(key),
        value: String::from_str(value),
        after_key: String::from_str(after),
        fallback_key: String::from_str(fallback),
    }
}

/// The `state` edit for the menu choice: `0` makes challenges visible, `1`
/// hidden, anything else skips.
pub fn state_fix(choice: usize) -> (r: Option<FieldFix>)
    ensures
        choice == 0 ==> r is Some && is_fix(r->0, "state"@, "visible"@, "type"@, "version"@),
        choice == 1 ==> r is Some && is_fix(r->0, "state"@, "hidden"@, "type"@, "version"@),
        choice >= 2 ==> r is None,
{
    if choice == 0 {
        Some(make_fix("state", "visible", "type", "version"))
    } else if choice == 1 {
        Some(make_fix("state", "hidden", "type", "version"))
    } else {
        None
    }
}

/// The `author` edit for the name typed in; a blank answer skips.
pub fn author_fix(answer: &str) -> (r: Option<FieldFix>)
    ensures
        is_blank(answer@) ==> r is None,
        !is_blank(answer@) ==> r is Some && is_fix(r->0, "author"@, answer@, "name"@, "category"@),
{
    if is_blank_str(answer) {
        None
    } else {
        Some(make_fix("author", answer, "name", "category"))
    }
}

/// The `version` edit, when the user agreed to add it.
pub fn version_fix(proceed: bool) -> (r: Option<FieldFix>)
    ensures
        !proceed ==> r is None,
        proceed ==> r is Some && is_fix(r->0, "version"@, "'0.3'"@, "files"@, "flags"@),
{
    if proceed {
        Some(make_fix("version", "'0.3'", "files", "flags"))
    } else {
        None
    }
}


/// `s` holds no `\n`.
pub open spec fn no_newline(s: Seq<char>) -> bool {
    forall|i: int| 0 <= i < s.len() ==> #[trigger] s[i] != '\n'
}

/// `s` without one trailing `\r`.
pub open spec fn strip_cr(s: Seq<char>) -> Seq<char> {
    if s.len() > 0 && s.last() == '\r' {
        s.drop_last()
    } else {
        s
    }
}

proof fn lemma_first_newline_facts(s: Seq<char>)
    ensures
        first_newline(s) <= s.len(),
        forall|j: int| 0 <= j < first_newline(s) ==> s[j] != '\n',
        first_newline(s) < s.len() ==> s[first_newline(s) as int] == '\n',
    decreases s.len(),
{
    if s.len() > 0 && s[0] != '\n' {
        lemma_first_newline_facts(s.drop_first());
        assert forall|j: int| 0 <= j < first_newline(s) implies s[j] != '\n' by {
            if j > 0 {
                assert(s[j] == s.drop_first()[j - 1]);
            }
        }
        if first_newline(s) < s.len() {
            assert(s[first_newline(s) as int] == s.drop_first()[first_newline(s.drop_first()) as int]);
        }
    }
}

/// The lines of any text hold no `\n`.
proof fn lemma_lines_no_newline(s: Seq<char>)
    ensures
        forall|i: int| 0 <= i < lines(s).len() ==> no_newline(#[trigger] lines(s)[i]),
    decreases s.len(),
{
    if s.len() > 0 {
        lemma_first_newline_facts(s);
        let e = first_newline(s);
        if e < s.len() {
            lemma_lines_no_newline(s.skip(e + 1int));
            let raw = s.subrange(0, e as int);
            let line = if raw.len() > 0 && raw.last() == '\r' { raw.drop_last() } else { raw };
            assert(no_newline(line)) by {
                assert forall|j: int| 0 <= j < line.len() implies #[trigger] line[j] != '\n' by {
                    assert(line[j] == s[j]);
                }
            }
            let rest = lines(s.skip(e + 1int));
            assert forall|i: int| 0 <= i < lines(s).len() implies no_newline(#[trigger] lines(s)[i]) by {
                if i > 0 {
                    assert(lines(s)[i] == rest[i - 1]);
                }
            }
        } else {
            assert forall|j: int| 0 <= j < s.len() implies #[trigger] s[j] != '\n' by {}
        }
    }
}

/// A line ended by `\n` comes off the front of the text.
proof fn lemma_lines_cons(x: Seq<char>, rest: Seq<char>)
    requires
        no_newline(x),
    ensures
        lines(x + seq!['\n'] + rest) == seq![strip_cr(x)] + lines(rest),
{
    let s = x + seq!['\n'] + rest;
    assert forall|j: int| 0 <= j < x.len() implies s[j] != '\n' by {
        assert(s[j] == x[j]);
    }
    assert(s[x.len() as int] == '\n');
    lemma_first_newline(s, x.len() as int);
    assert(s.subrange(0, x.len() as int) =~= x);
    assert(s.skip(x.len() + 1int) =~= rest);
}

/// Joining splits off the first line.
proof fn lemma_join_front(ls: Seq<Seq<char>>)
    requires
        ls.len() >= 2,
    ensures
        join_lines(ls) == ls[0] + seq!['\n'] + join_lines(ls.drop_first()),
    decreases ls.len(),
{
    if ls.len() > 2 {
        lemma_join_front(ls.drop_last());
        assert(ls.drop_last().drop_first() =~= ls.drop_first().drop_last());
        assert(ls.drop_first().last() == ls.last());
        assert(join_lines(ls.drop_first()) == join_lines(ls.drop_first().drop_last()) + seq!['\n']
            + ls.drop_first().last());
    } else {
        assert(ls.drop_first().len() == 1);
        assert(ls.drop_last() =~= seq![ls[0]]);
        assert(join_lines(ls.drop_last()) == ls[0]);
        assert(join_lines(ls.drop_first()) == ls.drop_first()[0]);
    }
}

/// Splitting joined lines ended by a newline gives the lines back, each
/// without a trailing `\r`.
proof fn lemma_lines_of_join(ls: Seq<Seq<char>>)
    requires
        ls.len() > 0,
        forall|i: int| 0 <= i < ls.len() ==> no_newline(#[trigger] ls[i]),
    ensures
        lines(join_lines(ls) + seq!['\n']) == ls.map_values(|l: Seq<char>| strip_cr(l)),
    decreases ls.len(),
{
    if ls.len() == 1 {
        assert(join_lines(ls) == ls[0]);
        lemma_lines_cons(ls[0], Seq::<char>::empty());
        assert(ls[0] + seq!['\n'] + Seq::<char>::empty() =~= ls[0] + seq!['\n']);
        assert(lines(Seq::<char>::empty()) =~= Seq::<Seq<char>>::empty());
        assert(ls.map_values(|l: Seq<char>| strip_cr(l)) =~= seq![strip_cr(ls[0])]);
    } else {
        lemma_join_front(ls);
        let t = ls.drop_first();
        assert forall|i: int| 0 <= i < t.len() implies no_newline(#[trigger] t[i]) by {
            assert(t[i] == ls[i + 1]);
        }
        lemma_lines_of_join(t);
        lemma_lines_cons(ls[0], join_lines(t) + seq!['\n']);
        assert(join_lines(ls) + seq!['\n'] =~= ls[0] + seq!['\n'] + (join_lines(t) + seq!['\n']));
        assert(ls.map_values(|l: Seq<char>| strip_cr(l)) =~= seq![strip_cr(ls[0])] + t.map_values(
            |l: Seq<char>| strip_cr(l),
        ));
    }
}

/// A non-empty line of joined lines survives the final newline and the
/// re-split, at its own position.
proof fn lemma_line_survives(ls: Seq<Seq<char>>, p: int)
    requires
        0 <= p < ls.len(),
        ls[p].len() > 0,
        forall|i: int| 0 <= i < ls.len() ==> no_newline(#[trigger] ls[i]),
    ensures
        p < lines(with_final_newline(join_lines(ls))).len(),
        lines(with_final_newline(join_lines(ls)))[p] == strip_cr(ls[p]),
{
    if ls.last().len() > 0 {
        if ls.len() >= 2 {
            assert(join_lines(ls) == join_lines(ls.drop_last()) + seq!['\n'] + ls.last());
            assert(join_lines(ls).last() == ls.last().last());
        } else {
            assert(join_lines(ls) == ls[0]);
        }
        assert(ls.last()[ls.last().len() - 1] != '\n');
        assert(join_lines(ls).len() > 0);
        assert(with_final_newline(join_lines(ls)) =~= join_lines(ls) + seq!['\n']);
        lemma_lines_of_join(ls);
        assert(ls.map_values(|l: Seq<char>| strip_cr(l))[p] == strip_cr(ls[p]));
    } else {
        assert(p < ls.len() - 1);
        let d = ls.drop_last();
        assert(join_lines(ls) == join_lines(d) + seq!['\n'] + ls.last());
        assert(join_lines(ls) =~= join_lines(d) + seq!['\n']);
        assert forall|i: int| 0 <= i < d.len() implies no_newline(#[trigger] d[i]) by {
            assert(d[i] == ls[i]);
        }
        lemma_lines_of_join(d);
        assert(join_lines(ls).len() > 0);
        assert(join_lines(ls).last() == '\n');
        assert(with_final_newline(join_lines(ls)) == join_lines(ls));
        assert(d[p] == ls[p]);
        assert(d.map_values(|l: Seq<char>| strip_cr(l))[p] == strip_cr(d[p]));
    }
}

proof fn lemma_first_anchor_bound(ls: Seq<Seq<char>>, prefix: Seq<char>)
    ensures
        first_anchor(ls, prefix) <= ls.len(),
    decreases ls.len(),
{
    if ls.len() > 0 && !anchors(ls[0], prefix) {
        lemma_first_anchor_bound(ls.drop_first(), prefix);
    }
}

/// The inserted line is at some position of the new lines, and every line
/// is the new one or one of the old.
proof fn lemma_inserted(ls: Seq<Seq<char>>, nl: Seq<char>, after: Seq<char>, fallback: Seq<char>) -> (p: int)
    ensures
        0 <= p < with_inserted(ls, nl, after, fallback).len(),
        with_inserted(ls, nl, after, fallback)[p] == nl,
        forall|i: int| 0 <= i < with_inserted(ls, nl, after, fallback).len() ==> #[trigger] with_inserted(
            ls,
            nl,
            after,
            fallback,
        )[i] == nl || ls.contains(with_inserted(ls, nl, after, fallback)[i]),
{
    lemma_first_anchor_bound(ls, after);
    lemma_first_anchor_bound(ls, fallback);
    let w = with_inserted(ls, nl, after, fallback);
    let a = first_anchor(ls, after);
    let b = first_anchor(ls, fallback);
    let p: int = if a < ls.len() { a + 1int } else if b < ls.len() { b as int } else { ls.len() as int };
    assert forall|i: int| 0 <= i < w.len() implies #[trigger] w[i] == nl || ls.contains(w[i]) by {
        if a < ls.len() {
            if i < a + 1 {
                assert(w[i] == ls[i]);
            } else if i > a + 1 {
                assert(w[i] == ls[i - 1]);
            }
        } else if b < ls.len() {
            if i < b {
                assert(w[i] == ls[i]);
            } else if i > b {
                assert(w[i] == ls[i - 1]);
            }
        } else if i < ls.len() {
            assert(w[i] == ls[i]);
        }
    }
    p
}

/// After `inject_field` adds `key: value`, the file has a top-level `key:`
/// line, provided the key starts with neither whitespace nor `#` and
/// neither key nor value holds a line break (or ends the line with `\r`).
pub proof fn law_inject_adds_field(
    contents: Seq<char>,
    key: Seq<char>,
    value: Seq<char>,
    after_key: Seq<char>,
    fallback_key: Seq<char>,
)
    requires
        key.len() > 0,
        !crate::text::is_ws(key[0]),
        key[0] != '#',
        no_newline(key),
        no_newline(value),
        !(value.len() > 0 && value.last() == '\r'),
    ensures
        has_field_spec(injected(contents, key, value, after_key, fallback_key), key),
{
    reveal_strlit(": ");
    let nl = key + ": "@ + value;
    let ls = lines(contents);
    lemma_lines_no_newline(contents);
    let w = with_inserted(ls, nl, after_key.push(':'), fallback_key.push(':'));
    let p = lemma_inserted(ls, nl, after_key.push(':'), fallback_key.push(':'));
    assert(no_newline(nl)) by {
        assert forall|j: int| 0 <= j < nl.len() implies #[trigger] nl[j] != '\n' by {
            if j < key.len() {
                assert(nl[j] == key[j]);
            } else if j >= key.len() + 2 {
                assert(nl[j] == value[j - key.len() - 2]);
            }
        }
    }
    assert forall|i: int| 0 <= i < w.len() implies no_newline(#[trigger] w[i]) by {
        if w[i] != nl {
            let k = choose|k: int| 0 <= k < ls.len() && ls[k] == w[i];
            assert(no_newline(ls[k]));
        }
    }
    lemma_line_survives(w, p);
    assert(nl.last() != '\r') by {
        if value.len() > 0 {
            assert(nl.last() == value.last());
        } else {
            assert(nl.last() == ' ');
        }
    }
    assert(strip_cr(nl) == nl);
    let r = injected(contents, key, value, after_key, fallback_key);
    assert(lines(r)[p] == nl);
    assert(nl[0] == key[0]);
    crate::text::lemma_leading_ws(nl, 0);
    assert(crate::text::trim_start(nl) =~= nl);
    assert(nl.subrange(0, key.len() + 1int) =~= key.push(':'));
    assert(sets_top_level_key(lines(r)[p], key));
}

proof fn lemma_old_line_kept(ls: Seq<Seq<char>>, nl: Seq<char>, after: Seq<char>, fallback: Seq<char>, i: int) -> (q: int)
    requires
        0 <= i < ls.len(),
    ensures
        0 <= q < with_inserted(ls, nl, after, fallback).len(),
        with_inserted(ls, nl, after, fallback)[q] == ls[i],
{
    lemma_first_anchor_bound(ls, after);
    lemma_first_anchor_bound(ls, fallback);
    let w = with_inserted(ls, nl, after, fallback);
    let a = first_anchor(ls, after);
    let b = first_anchor(ls, fallback);
    if a < ls.len() {
        if i <= a { i } else { i + 1 }
    } else if b < ls.len() {
        if i < b { i } else { i + 1 }
    } else {
        i
    }
}

/// A key that can start a top-level line: it starts with neither
/// whitespace nor `#`.
pub open spec fn plain_key(key: Seq<char>) -> bool {
    key.len() > 0 && !crate::text::is_ws(key[0]) && key[0] != '#'
}

/// Adding one field with `inject_field` keeps every top-level field the
/// file already had.
pub proof fn law_inject_keeps_fields(
    contents: Seq<char>,
    key: Seq<char>,
    value: Seq<char>,
    after_key: Seq<char>,
    fallback_key: Seq<char>,
    other: Seq<char>,
)
    requires
        no_newline(key),
        no_newline(value),
        plain_key(other),
        has_field_spec(contents, other),
    ensures
        has_field_spec(injected(contents, key, value, after_key, fallback_key), other),
{
    reveal_strlit(": ");
    let nl = key + ": "@ + value;
    let ls = lines(contents);
    lemma_lines_no_newline(contents);
    let w = with_inserted(ls, nl, after_key.push(':'), fallback_key.push(':'));
    lemma_inserted(ls, nl, after_key.push(':'), fallback_key.push(':'));
    assert(no_newline(nl)) by {
        assert forall|j: int| 0 <= j < nl.len() implies #[trigger] nl[j] != '\n' by {
            if j < key.len() {
                assert(nl[j] == key[j]);
            } else if j >= key.len() + 2 {
                assert(nl[j] == value[j - key.len() - 2]);
            }
        }
    }
    assert forall|i: int| 0 <= i < w.len() implies no_newline(#[trigger] w[i]) by {
        if w[i] != nl {
            let k = choose|k: int| 0 <= k < ls.len() && ls[k] == w[i];
            assert(no_newline(ls[k]));
        }
    }
    let i = choose|i: int| 0 <= i < ls.len() && sets_top_level_key(#[trigger] ls[i], other);
    let q = lemma_old_line_kept(ls, nl, after_key.push(':'), fallback_key.push(':'), i);
    let l = ls[i];
    let pre = l.subrange(0, other.len() + 1int);
    assert(pre == other.push(':'));
    assert(pre[0] == l[0] && other.push(':')[0] == other[0]);
    assert(pre[other.len() as int] == l[other.len() as int] && other.push(':')[other.len() as int] == ':');
    lemma_line_survives(w, q);
    let r = injected(contents, key, value, after_key, fallback_key);
    let m = strip_cr(l);
    assert(lines(r)[q] == m);
    assert(l[other.len() as int] == ':');
    assert(m.len() >= other.len() + 1);
    assert(m.subrange(0, other.len() + 1int) =~= other.push(':'));
    assert(m[0] == other[0]);
    crate::text::lemma_leading_ws(m, 0);
    assert(crate::text::trim_start(m) =~= m);
    assert(sets_top_level_key(lines(r)[q], other));
}


/// The new lines are the old ones with `nl` at one position.
proof fn lemma_inserted_at(ls: Seq<Seq<char>>, nl: Seq<char>, after: Seq<char>, fallback: Seq<char>) -> (p: int)
    ensures
        0 <= p <= ls.len(),
        with_inserted(ls, nl, after, fallback) == ls.take(p) + seq![nl] + ls.skip(p),
{
    lemma_first_anchor_bound(ls, after);
    lemma_first_anchor_bound(ls, fallback);
    let a = first_anchor(ls, after);
    let b = first_anchor(ls, fallback);
    if a < ls.len() {
        (a + 1) as int
    } else if b < ls.len() {
        b as int
    } else {
        assert(ls.push(nl) =~= ls.take(ls.len() as int) + seq![nl] + ls.skip(ls.len() as int));
        ls.len() as int
    }
}

/// `inject_field` adds exactly one line, `key: value`, and changes no other
/// line, and the text ends in a newline. This holds when neither key nor
/// value holds a line break (nor does the value end in `\r`), no line of the
/// file still ends in `\r` once split, and the file does not end in a blank
/// line (which re-joining would drop).
pub proof fn law_inject_adds_one_line(
    contents: Seq<char>,
    key: Seq<char>,
    value: Seq<char>,
    after_key: Seq<char>,
    fallback_key: Seq<char>,
)
    requires
        no_newline(key),
        no_newline(value),
        !(value.len() > 0 && value.last() == '\r'),
        forall|i: int| 0 <= i < lines(contents).len() ==> strip_cr(#[trigger] lines(contents)[i]) == lines(contents)[i],
        lines(contents).len() == 0 || lines(contents).last().len() > 0,
    ensures
        injected(contents, key, value, after_key, fallback_key).len() > 0,
        injected(contents, key, value, after_key, fallback_key).last() == '\n',
        exists|p: int| 0 <= p <= lines(contents).len()
            && lines(injected(contents, key, value, after_key, fallback_key))
                == #[trigger] lines(contents).take(p) + seq![key + ": "@ + value] + lines(contents).skip(p),
{
    reveal_strlit(": ");
    let nl = key + ": "@ + value;
    let ls = lines(contents);
    lemma_lines_no_newline(contents);
    let w = with_inserted(ls, nl, after_key.push(':'), fallback_key.push(':'));
    let p = lemma_inserted_at(ls, nl, after_key.push(':'), fallback_key.push(':'));
    assert(w.len() == ls.len() + 1);
    assert(no_newline(nl)) by {
        assert forall|j: int| 0 <= j < nl.len() implies #[trigger] nl[j] != '\n' by {
            if j < key.len() {
                assert(nl[j] == key[j]);
            } else if j >= key.len() + 2 {
                assert(nl[j] == value[j - key.len() - 2]);
            }
        }
    }
    assert(nl.last() != '\r') by {
        if value.len() > 0 {
            assert(nl.last() == value.last());
        } else {
            assert(nl.last() == ' ');
        }
    }
    assert forall|i: int| 0 <= i < w.len() implies no_newline(#[trigger] w[i]) && strip_cr(w[i]) == w[i] by {
        if i < p {
            assert(w[i] == ls[i]);
        } else if i > p {
            assert(w[i] == ls[i - 1]);
        } else {
            assert(w[i] == nl);
        }
    }
    assert(w.last().len() > 0) by {
        if p == ls.len() {
            assert(w.last() == nl);
        } else {
            assert(w.last() == ls.last());
        }
    }
    if w.len() >= 2 {
        assert(join_lines(w) == join_lines(w.drop_last()) + seq!['\n'] + w.last());
        assert(join_lines(w).last() == w.last().last());
    } else {
        assert(join_lines(w) == w[0]);
    }
    assert(w.last()[w.last().len() - 1] != '\n');
    assert(join_lines(w).len() > 0);
    let r = injected(contents, key, value, after_key, fallback_key);
    assert(r =~= join_lines(w) + seq!['\n']);
    lemma_lines_of_join(w);
    assert(w.map_values(|l: Seq<char>| strip_cr(l)) =~= w);
    assert(lines(r) == ls.take(p) + seq![nl] + ls.skip(p));
}

} // verus!
