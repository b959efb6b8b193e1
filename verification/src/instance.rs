//! Instance naming, per-instance flags, port choice, shell quoting and the
//! small decisions of the remote monitor's instance lifecycle.
use vstd::prelude::*;
use std::collections::HashSet;
use rand::Rng;
use vstd::string::StringSliceAdditionalSpecFns;
use crate::text::{is_ascii_seq, push_char_of, spec_to_lowercase, starts_with, starts_with_str, to_lowercase};

verus! {

broadcast use vstd::std_specs::hash::group_hash_axioms;

/// What `char::is_alphanumeric` answers for `c` (the Unicode `Alphabetic`
/// or `Numeric` properties).
pub uninterp spec fn spec_is_alphanumeric(c: char) -> bool;

/// Calls `char::is_alphanumeric`; the answer is the named function of `c`.
/// Of the ASCII characters, exactly the letters and digits are alphabetic
/// or numeric.
#[verifier::external_body]
fn is_alphanumeric(c: char) -> (r: bool)
    ensures
        r == spec_is_alphanumeric(c),
        (c as int) < 128 ==> (r <==> is_ascii_alnum(c)),
{
    c.is_alphanumeric()
}

/// The character a name keeps in a Docker name: alphanumerics and `-`
/// stay, anything else becomes `-`.
pub open spec fn docker_char(c: char) -> char {
    if spec_is_alphanumeric(c) || c == '-' {
        c
    } else {
        '-'
    }
}

/// Number of `-` at the start of `s`.
pub open spec fn leading_dashes(s: Seq<char>) -> nat
    decreases s.len(),
{
    if s.len() > 0 && s[0] == '-' {
        1 + leading_dashes(s.drop_first())
    } else {
        0
    }
}

/// Number of `-` at the end of `s`.
pub open spec fn trailing_dashes(s: Seq<char>) -> nat
    decreases s.len(),
{
    if s.len() > 0 && s.last() == '-' {
        1 + trailing_dashes(s.drop_last())
    } else {
        0
    }
}

/// `s.trim_matches('-')`.
pub open spec fn trim_dashes(s: Seq<char>) -> Seq<char> {
    let a = leading_dashes(s);
    if a >= s.len() {
        seq![]
    } else {
        s.subrange(a as int, s.len() - trailing_dashes(s))
    }
}

/// A challenge name as a Docker name component: lowercased, every other
/// character than an alphanumeric or `-` turned into `-`, and `-` trimmed
/// from both ends.
pub open spec fn sanitized(name: Seq<char>) -> Seq<char> {
    trim_dashes(spec_to_lowercase(name).map_values(|c: char| docker_char(c)))
}

proof fn lemma_leading_dashes(s: Seq<char>, k: int)
    requires
        0 <= k <= s.len(),
        forall|j: int| 0 <= j < k ==> s[j] == '-',
        k == s.len() || s[k] != '-',
    ensures
        leading_dashes(s) == k,
    decreases k,
{
    if k > 0 {
        lemma_leading_dashes(s.drop_first(), k - 1);
    }
}

/// The `j`-th character counted from the end of `s`.
spec fn back(s: Seq<char>, j: int) -> char {
    s[s.len() - 1 - j]
}

proof fn lemma_trailing_dashes(s: Seq<char>, k: int)
    requires
        0 <= k <= s.len(),
        forall|j: int| 0 <= j < k ==> #[trigger] back(s, j) == '-',
        k == s.len() || back(s, k) != '-',
    ensures
        trailing_dashes(s) == k,
    decreases k,
{
    if k > 0 {
        let t = s.drop_last();
        assert(back(s, 0) == '-');
        assert forall|j: int| 0 <= j < k - 1 implies #[trigger] back(t, j) == '-' by {
            assert(back(t, j) == back(s, j + 1));
        }
        if k - 1 < t.len() {
            assert(back(t, k - 1) == back(s, k));
        }
        lemma_trailing_dashes(t, k - 1);
    }
}

/// `s` with `-` trimmed from both ends.
fn trim_dash_str(s: &str) -> (r: String)
    ensures
        r@ == trim_dashes(s@),
{
    let n = s.unicode_len();
    let mut a: usize = 0;
    while a < n && s.get_char(a) == '-'
        invariant
            n == s@.len(),
            a <= n,
            forall|j: int| 0 <= j < a ==> s@[j] == '-',
        decreases n - a,
    {
        a = a + 1;
    }
    proof {
        lemma_leading_dashes(s@, a as int);
    }
    if a >= n {
        return String::new();
    }
    let mut t: usize = 0;
    while t < n - a && s.get_char(n - 1 - t) == '-'
        invariant
            n == s@.len(),
            a < n,
            s@[a as int] != '-',
            t <= n - a,
            forall|j: int| 0 <= j < t ==> #[trigger] back(s@, j) == '-',
        decreases n - a - t,
    {
        t = t + 1;
    }
    proof {
        if t == n - a {
            assert(back(s@, t - 1) == '-');
        }
        if t < n {
            assert(back(s@, t as int) == s@[n - 1 - t]);
        }
        lemma_trailing_dashes(s@, t as int);
    }
    let piece = s.substring_char(a, n - t);
    String::from_str(piece)
}

/// Sanitizes a challenge name into a valid Docker name component.
pub fn sanitize_name(name: &str) -> (r: String)
    ensures
        r@ == sanitized(name@),
        is_ascii_seq(name@) ==> r@ == ascii_sanitized(name@),
{
    let lower = to_lowercase(name);
    let l = lower.as_str();
    let n = l.unicode_len();
    let mut mapped = String::new();
    let mut i: usize = 0;
    while i < n
        invariant
            n == l@.len(),
            l@ == spec_to_lowercase(name@),
            i <= n,
            mapped@ == l@.take(i as int).map_values(|c: char| docker_char(c)),
            is_ascii_seq(name@) ==> l@ == name@.map_values(|c: char| ascii_lower(c)),
            is_ascii_seq(name@) ==> mapped@ == name@.take(i as int).map_values(|c: char| ascii_docker_char(ascii_lower(c))),
        decreases n - i,
    {
        let c = l.get_char(i);
        let ghost before = mapped@;
        proof {
            if is_ascii_seq(name@) {
                assert((name@[i as int] as int) < 128);
                lemma_ascii_lower(name@[i as int]);
            }
        }
        if is_alphanumeric(c) || c == '-' {
            push_char_of(&mut mapped, l, i);
        } else {
            mapped.append("-");
            proof {
                reveal_strlit("-");
            }
        }
        assert(mapped@ =~= l@.take(i + 1).map_values(|c: char| docker_char(c)));
        proof {
            if is_ascii_seq(name@) {
                assert(mapped@ =~= name@.take(i + 1).map_values(|c: char| ascii_docker_char(ascii_lower(c))));
            }
        }
        i = i + 1;
    }
    assert(l@.take(n as int) =~= l@);
    proof {
        if is_ascii_seq(name@) {
            assert(name@.take(n as int) =~= name@);
        }
    }
    trim_dash_str(mapped.as_str())
}

/// ASCII letters and digits.
pub open spec fn is_ascii_alnum(c: char) -> bool {
    ('a' <= c && c <= 'z') || ('A' <= c && c <= 'Z') || ('0' <= c && c <= '9')
}

/// Lowercase ASCII letters and digits.
pub open spec fn is_lower_alnum(c: char) -> bool {
    ('a' <= c && c <= 'z') || ('0' <= c && c <= '9')
}

/// `c.to_ascii_lowercase()`.
pub open spec fn ascii_lower(c: char) -> char {
    if 'A' <= c && c <= 'Z' {
        "abcdefghijklmnopqrstuvwxyz"@[c as int - 65]
    } else {
        c
    }
}

/// Calls `rand`'s `Alphanumeric` distribution `len` times. Its documentation
/// promises ASCII letters and digits; which ones is left to chance.
#[verifier::external_body]
pub(crate) fn random_alphanumeric(len: usize) -> (r: String)
    ensures
        r@.len() == len,
        forall|i: int| 0 <= i < len ==> is_ascii_alnum(#[trigger] r@[i]),
{
    rand::thread_rng().sample_iter(rand::distributions::Alphanumeric).take(len).map(char::from).collect()
}

/// `s` with ASCII uppercase letters lowered.
fn ascii_lowercase(s: &str) -> (r: String)
    ensures
        r@ == s@.map_values(|c: char| ascii_lower(c)),
{
    let alphabet = "abcdefghijklmnopqrstuvwxyz";
    proof {
        reveal_strlit("abcdefghijklmnopqrstuvwxyz");
    }
    let n = s.unicode_len();
    let mut out = String::new();
    let mut i: usize = 0;
    while i < n
        invariant
            n == s@.len(),
            alphabet@ == "abcdefghijklmnopqrstuvwxyz"@,
            alphabet@.len() == 26,
            i <= n,
            out@ == s@.take(i as int).map_values(|c: char| ascii_lower(c)),
        decreases n - i,
    {
        let c = s.get_char(i);
        if 'A' <= c && c <= 'Z' {
            let k = (c as u32 - 65) as usize;
            push_char_of(&mut out, alphabet, k);
        } else {
            push_char_of(&mut out, s, i);
        }
        assert(out@ =~= s@.take(i + 1).map_values(|c: char| ascii_lower(c)));
        i = i + 1;
    }
    assert(s@.take(n as int) =~= s@);
    out
}

/// The container or project name for an instance of `challenge_name` with
/// the given suffix: `ctf-<sanitized name>-<suffix>`.
pub open spec fn container_name_of(challenge_name: Seq<char>, suffix: Seq<char>) -> Seq<char> {
    "ctf-"@ + sanitized(challenge_name) + "-"@ + suffix
}

/// `ctf-<sanitized name>-<suffix>`.
pub fn container_name_with(challenge_name: &str, suffix: &str) -> (r: String)
    ensures
        r@ == container_name_of(challenge_name@, suffix@),
{
    let mut out = String::from_str("ctf-");
    let s = sanitize_name(challenge_name);
    out.append(s.as_str());
    out.append("-");
    out.append(suffix);
    out
}

/// A unique container/project name for an instance: six random lowercase
/// letters or digits after the sanitized challenge name, so that a quick
/// re-provision never collides with a container still being torn down.
pub fn container_name(challenge_name: &str) -> (r: String)
    ensures
        r@.len() == 4 + sanitized(challenge_name@).len() + 1 + 6,
        r@.subrange(0, r@.len() - 6) == "ctf-"@ + sanitized(challenge_name@) + "-"@,
        forall|i: int| r@.len() - 6 <= i < r@.len() ==> is_lower_alnum(#[trigger] r@[i]),
{
    let raw = random_alphanumeric(6);
    let suffix = ascii_lowercase(raw.as_str());
    proof {
        reveal_strlit("abcdefghijklmnopqrstuvwxyz");
        reveal_strlit("ctf-");
        reveal_strlit("-");
        assert forall|i: int| 0 <= i < 6 implies is_lower_alnum(#[trigger] suffix@[i]) by {
            assert(is_ascii_alnum(raw@[i]));
            if 'A' <= raw@[i] && raw@[i] <= 'Z' {
                let k = raw@[i] as int - 65;
                assert(0 <= k < 26);
                assert("abcdefghijklmnopqrstuvwxyz"@[k] == (97 + k) as char);
            }
        }
    }
    let r = container_name_with(challenge_name, suffix.as_str());
    proof {
        let pre = "ctf-"@ + sanitized(challenge_name@) + "-"@;
        assert(r@ =~= pre + suffix@);
        assert(r@.subrange(0, r@.len() - 6) =~= pre);
        assert forall|i: int| r@.len() - 6 <= i < r@.len() implies is_lower_alnum(#[trigger] r@[i]) by {
            assert(r@[i] == suffix@[i - pre.len()]);
        }
    }
    r
}

/// What the instance configuration says about per-instance flags.
pub struct FlagSettings {
    pub flag_mode: Option<String>,
    pub flag_prefix: Option<String>,
    pub flag_suffix: Option<String>,
    pub random_flag_length: Option<u64>,
}

impl FlagSettings {
    /// The mode is `random` (the default is `static`).
    pub open spec fn is_random(&self) -> bool {
        match self.flag_mode {
            Some(m) => m@ == "random"@,
            None => false,
        }
    }

    /// The flag prefix, `CTF{` by default.
    pub open spec fn prefix(&self) -> Seq<char> {
        match self.flag_prefix {
            Some(p) => p@,
            None => "CTF{"@,
        }
    }

    /// The flag suffix, `}` by default.
    pub open spec fn suffix(&self) -> Seq<char> {
        match self.flag_suffix {
            Some(p) => p@,
            None => "}"@,
        }
    }

    /// The number of random characters, 16 by default.
    pub open spec fn length(&self) -> nat {
        match self.random_flag_length {
            Some(n) => (n as usize) as nat,
            None => 16,
        }
    }

    fn random_mode(&self) -> (r: bool)
        ensures
            r == self.is_random(),
    {
        match &self.flag_mode {
            Some(m) => crate::text::eq_str(m.as_str(), "random"),
            None => false,
        }
    }
}

/// The flag for the given random part: `prefix + random + suffix` in random
/// mode, none otherwise.
pub fn flag_with(settings: &FlagSettings, random: &str) -> (r: Option<String>)
    ensures
        !settings.is_random() ==> r is None,
        settings.is_random() ==> r is Some && r->0@ == settings.prefix() + random@ + settings.suffix(),
{
    if !settings.random_mode() {
        return None;
    }
    let mut out = match &settings.flag_prefix {
        Some(p) => p.clone(),
        None => String::from_str("CTF{"),
    };
    out.append(random);
    match &settings.flag_suffix {
        Some(s) => out.append(s.as_str()),
        None => out.append("}"),
    }
    Some(out)
}

/// Generates a flag for `flag_mode = "random"`: the prefix, that many random
/// ASCII letters and digits, and the suffix. Other modes get none.
pub fn generate_flag(settings: &FlagSettings) -> (r: Option<String>)
    ensures
        !settings.is_random() ==> r is None,
        settings.is_random() ==> r is Some && ({
            let f = r->0@;
            let p = settings.prefix().len();
            &&& f.len() == p + settings.length() + settings.suffix().len()
            &&& f.subrange(0, p as int) == settings.prefix()
            &&& f.subrange(f.len() - settings.suffix().len(), f.len() as int) == settings.suffix()
            &&& forall|i: int| p <= i < p + settings.length() ==> is_ascii_alnum(#[trigger] f[i])
        }),
{
    if !settings.random_mode() {
        return None;
    }
    let length: usize = match settings.random_flag_length {
        Some(n) => n as usize,
        None => 16,
    };
    let random = random_alphanumeric(length);
    let r = flag_with(settings, random.as_str());
    proof {
        let f = r->0@;
        let p = settings.prefix().len();
        assert(f.subrange(0, p as int) =~= settings.prefix());
        assert(f.subrange(f.len() - settings.suffix().len(), f.len() as int) =~= settings.suffix());
        assert forall|i: int| p <= i < p + settings.length() implies is_ascii_alnum(#[trigger] f[i]) by {
            assert(f[i] == random@[i - p]);
        }
    }
    r
}

/// Calls `rand::Rng::gen_range(40000..60000)`; the port is drawn at random
/// from that range.
#[verifier::external_body]
fn random_port() -> (r: u16)
    ensures
        40000 <= r < 60000,
{
    rand::thread_rng().gen_range(40000u16..60000u16)
}

/// The message when every port of the range is taken.
pub open spec fn no_free_port_message() -> Seq<char> {
    "No free ports available in range 40000-60000"@
}

/// Picks a host port in 40000..60000 that no running instance uses: up to
/// 200 random draws, then the first free port in order. Fails only when
/// every port of the range is taken.
pub fn pick_free_port(used_ports: &HashSet<u16>) -> (r: Result<u16, String>)
    ensures
        match r {
            Ok(p) => 40000 <= p < 60000 && !used_ports@.contains(p),
            Err(e) => e@ == no_free_port_message()
                && forall|p: u16| 40000 <= p < 60000 ==> used_ports@.contains(p),
        },
{
    let mut tries: u32 = 0;
    while tries < 200
        invariant
            tries <= 200,
        decreases 200 - tries,
    {
        let port = random_port();
        if !used_ports.contains(&port) {
            return Ok(port);
        }
        tries = tries + 1;
    }
    let mut port: u16 = 40000;
    while port < 60000
        invariant
            40000 <= port <= 60000,
            forall|p: u16| 40000 <= p < port ==> used_ports@.contains(p),
        decreases 60000 - port,
    {
        if !used_ports.contains(&port) {
            return Ok(port);
        }
        port = port + 1;
    }
    Err(String::from_str("No free ports available in range 40000-60000"))
}

fn vec_has_port(v: &Vec<u16>, x: u16) -> (r: bool)
    ensures
        r == v@.contains(x),
{
    let mut i: usize = 0;
    while i < v.len()
        invariant
            i <= v@.len(),
            forall|j: int| 0 <= j < i ==> v@[j] != x,
        decreases v@.len() - i,
    {
        if v[i] == x {
            assert(v@[i as int] == x);
            return true;
        }
        i = i + 1;
    }
    false
}

/// Picks a host port in 40000..60000 that neither a running instance nor
/// `picked` uses, as `pick_free_port` does.
fn pick_port_avoiding(used_ports: &HashSet<u16>, picked: &Vec<u16>) -> (r: Option<u16>)
    ensures
        match r {
            Some(p) => 40000 <= p < 60000 && !used_ports@.contains(p) && !picked@.contains(p),
            None => forall|p: u16| 40000 <= p < 60000 ==> used_ports@.contains(p) || picked@.contains(p),
        },
{
    let mut tries: u32 = 0;
    while tries < 200
        invariant
            tries <= 200,
        decreases 200 - tries,
    {
        let port = random_port();
        if !used_ports.contains(&port) && !vec_has_port(picked, port) {
            return Some(port);
        }
        tries = tries + 1;
    }
    let mut port: u16 = 40000;
    while port < 60000
        invariant
            40000 <= port <= 60000,
            forall|p: u16| 40000 <= p < port ==> used_ports@.contains(p) || picked@.contains(p),
        decreases 60000 - port,
    {
        if !used_ports.contains(&port) && !vec_has_port(picked, port) {
            return Some(port);
        }
        port = port + 1;
    }
    None
}

/// Picks `count` distinct host ports in 40000..60000 that no running
/// instance uses. Fails only when fewer than `count` such ports are free.
pub fn pick_free_ports(used_ports: &HashSet<u16>, count: usize) -> (r: Result<Vec<u16>, String>)
    ensures
        match r {
            Ok(v) => {
                &&& v@.len() == count
                &&& forall|i: int| 0 <= i < v@.len() ==> 40000 <= #[trigger] v@[i] < 60000 && !used_ports@.contains(v@[i])
                &&& forall|i: int, j: int| 0 <= i < j < v@.len() ==> v@[i] != v@[j]
            },
            Err(e) => e@ == no_free_port_message() && exists|s: Seq<u16>| s.len() < count
                && forall|p: u16| 40000 <= p < 60000 ==> #[trigger] used_ports@.contains(p) || s.contains(p),
        },
{
    let mut picked: Vec<u16> = Vec::new();
    while picked.len() < count
        invariant
            picked@.len() <= count,
            forall|i: int| 0 <= i < picked@.len() ==> 40000 <= #[trigger] picked@[i] < 60000 && !used_ports@.contains(picked@[i]),
            forall|i: int, j: int| 0 <= i < j < picked@.len() ==> picked@[i] != picked@[j],
        decreases count - picked@.len(),
    {
        match pick_port_avoiding(used_ports, &picked) {
            Some(p) => {
                let ghost before = picked@;
                picked.push(p);
                assert forall|i: int, j: int| 0 <= i < j < picked@.len() implies picked@[i] != picked@[j] by {
                    if j == picked@.len() - 1 {
                        assert(picked@[j] == p);
                        assert(picked@[i] == before[i]);
                        assert(before.contains(before[i]));
                    }
                }
            },
            None => {
                proof {
                    assert(picked@.len() < count);
                    assert(forall|p: u16| 40000 <= p < 60000 ==> #[trigger] used_ports@.contains(p) || picked@.contains(p));
                }
                return Err(String::from_str("No free ports available in range 40000-60000"));
            },
        }
    }
    Ok(picked)
}

/// A container id that names a compose project or LXC container of this
/// monitor: it starts with `ctf-` and is shorter than 80 bytes.
pub open spec fn is_instance_name(id: &str) -> bool {
    starts_with(id@, "ctf-"@) && (id.spec_bytes().len() as usize) < 80
}

/// Whether cleaning up `container_id` also tears down a compose project
/// and an LXC container of that name (a Docker removal is always tried).
pub fn is_instance_project(container_id: &str) -> (r: bool)
    ensures
        r == is_instance_name(container_id),
{
    starts_with_str(container_id, "ctf-") && container_id.len() < 80
}

/// Declares `shlex::QuoteError`, the error `shlex::try_quote` returns.
#[verifier::external_type_specification]
#[verifier::external_body]
pub struct ExQuoteError(shlex::QuoteError);

/// What `shlex::try_quote` returns for a word it can quote.
pub uninterp spec fn spec_shlex_quote(s: Seq<char>) -> Seq<char>;

/// Calls `shlex::try_quote`. Its source returns `''` for the empty word,
/// fails exactly when the word holds a nul character, and otherwise
/// returns the quoted word, named here.
#[verifier::external_body]
fn shlex_try_quote(s: &str) -> (r: Result<String, shlex::QuoteError>)
    ensures
        r is Err <==> (s@.len() > 0 && s@.contains('\0')),
        r is Ok ==> r->Ok_0@ == spec_shlex_quote(s@),
        s@.len() == 0 ==> (r is Ok && r->Ok_0@ == "''"@),
{
    shlex::try_quote(s).map(|q| q.into_owned())
}

/// The replacement of one character in POSIX single-quoting: `'` becomes
/// `'\''`.
pub open spec fn quote_piece(c: char) -> Seq<char> {
    if c == '\'' {
        "'\\''"@
    } else {
        seq![c]
    }
}

/// `s` with every `'` replaced by `'\''`.
pub open spec fn escape_single_quotes(s: Seq<char>) -> Seq<char>
    decreases s.len(),
{
    if s.len() == 0 {
        seq![]
    } else {
        escape_single_quotes(s.drop_last()) + quote_piece(s.last())
    }
}

/// A word quoted for a POSIX shell: `shlex`'s quoting, or, for a word with
/// a nul character, the word in single quotes with each `'` escaped.
pub open spec fn shell_quoted(s: Seq<char>) -> Seq<char> {
    if s.len() > 0 && s.contains('\0') {
        "'"@ + escape_single_quotes(s) + "'"@
    } else {
        spec_shlex_quote(s)
    }
}

/// Quotes `s` so that it can be embedded in a shell command run over SSH.
pub fn shell_quote(s: &str) -> (r: String)
    ensures
        r@ == shell_quoted(s@),
{
    match shlex_try_quote(s) {
        Ok(q) => q,
        Err(_) => {
            let mut out = String::from_str("'");
            let ghost start = out@;
            let n = s.unicode_len();
            let mut i: usize = 0;
            while i < n
                invariant
                    n == s@.len(),
                    i <= n,
                    start == "'"@,
                    out@ == start + escape_single_quotes(s@.take(i as int)),
                decreases n - i,
            {
                let c = s.get_char(i);
                let ghost before = out@;
                if c == '\'' {
                    out.append("'\\''");
                } else {
                    push_char_of(&mut out, s, i);
                }
                proof {
                    assert(s@.take(i + 1).drop_last() =~= s@.take(i as int));
                    assert(out@ =~= start + escape_single_quotes(s@.take(i + 1)));
                }
                i = i + 1;
            }
            assert(s@.take(n as int) =~= s@);
            out.append("'");
            out
        },
    }
}

/// What `serde_json` writes for the object mapping each internal port (as
/// a string) to its host port, later pairs overriding earlier ones.
pub uninterp spec fn spec_ports_json(pairs: Seq<(u16, u32)>) -> Seq<char>;

/// Builds a `serde_json::Map` from internal port (as text) to host port and
/// serialises it with `serde_json::to_string`, which cannot fail for string
/// keys and number values. The text is named.
#[verifier::external_body]
fn ports_json(pairs: &[(u16, u32)]) -> (r: String)
    ensures
        r@ == spec_ports_json(pairs@),
{
    let map: serde_json::Map<String, serde_json::Value> =
        pairs.iter().map(|(h, i)| (i.to_string(), serde_json::Value::from(*h))).collect();
    serde_json::to_string(&map).unwrap_or_default()
}

/// The JSON object `{"<internal>": <host>}` recorded for a multi-port
/// instance; single-port instances need none.
pub fn build_extra_ports_json(port_mappings: &[(u16, u32)]) -> (r: Option<String>)
    ensures
        port_mappings@.len() <= 1 ==> r is None,
        port_mappings@.len() > 1 ==> r is Some && r->0@ == spec_ports_json(port_mappings@),
{
    if port_mappings.len() <= 1 {
        None
    } else {
        let t = ports_json(port_mappings);
        Some(t)
    }
}


/// A sanitized name holds only alphanumerics and `-`, and neither starts nor
/// ends with `-`.
pub proof fn law_sanitized_shape(name: Seq<char>)
    ensures
        forall|i: int| 0 <= i < sanitized(name).len() ==> spec_is_alphanumeric(#[trigger] sanitized(name)[i])
            || sanitized(name)[i] == '-',
        sanitized(name).len() > 0 ==> sanitized(name)[0] != '-' && sanitized(name).last() != '-',
{
    let m = spec_to_lowercase(name).map_values(|c: char| docker_char(c));
    assert forall|i: int| 0 <= i < m.len() implies spec_is_alphanumeric(#[trigger] m[i]) || m[i] == '-' by {
    }
    lemma_leading_dashes_bound(m);
    lemma_trailing_dashes_bound(m);
    let a = leading_dashes(m);
    if a < m.len() {
        lemma_leading_stops(m);
        lemma_trailing_stops(m, a as int);
        let t = m.subrange(a as int, m.len() - trailing_dashes(m));
        assert forall|i: int| 0 <= i < t.len() implies spec_is_alphanumeric(#[trigger] t[i]) || t[i] == '-' by {
            assert(t[i] == m[a + i]);
        }
    }
}

proof fn lemma_leading_dashes_bound(s: Seq<char>)
    ensures
        leading_dashes(s) <= s.len(),
    decreases s.len(),
{
    if s.len() > 0 && s[0] == '-' {
        lemma_leading_dashes_bound(s.drop_first());
    }
}

proof fn lemma_trailing_dashes_bound(s: Seq<char>)
    ensures
        trailing_dashes(s) <= s.len(),
    decreases s.len(),
{
    if s.len() > 0 && s.last() == '-' {
        lemma_trailing_dashes_bound(s.drop_last());
    }
}

proof fn lemma_leading_stops(s: Seq<char>)
    requires
        leading_dashes(s) < s.len(),
    ensures
        s[leading_dashes(s) as int] != '-',
    decreases s.len(),
{
    if s.len() > 0 && s[0] == '-' {
        lemma_leading_stops(s.drop_first());
        assert(s.drop_first()[leading_dashes(s.drop_first()) as int] == s[leading_dashes(s) as int]);
    }
}

proof fn lemma_trailing_stops(s: Seq<char>, a: int)
    requires
        0 <= a < s.len(),
        s[a] != '-',
    ensures
        trailing_dashes(s) < s.len() - a,
        s[s.len() - 1 - trailing_dashes(s)] != '-',
    decreases s.len(),
{
    if s.len() > 0 && s.last() == '-' {
        assert(a < s.len() - 1);
        lemma_trailing_stops(s.drop_last(), a);
        assert(s.drop_last()[s.drop_last().len() - 1 - trailing_dashes(s.drop_last())] == s[s.len() - 1
            - trailing_dashes(s)]);
    }
}


/// A team's instance as the monitor stores it.
pub struct InstanceRow {
    pub id: i64,
    pub challenge_name: String,
    pub team_id: i64,
    pub user_id: Option<i64>,
    pub container_id: Option<String>,
    pub host: String,
    pub port: i64,
    pub connection_type: String,
    pub status: String,
    pub renewals_used: i64,
    pub expires_at: String,
    pub flag: Option<String>,
    /// JSON object `{"<internal>": <host>}` for each port mapping when more
    /// than one port is exposed.
    pub extra_ports: Option<String>,
}

/// What a request for an instance does when the team already has one.
pub enum ExistingInstance {
    /// Hand back the running instance.
    Running,
    /// Refuse: one is being provisioned.
    Provisioning,
    /// Provision a new one.
    Absent,
}

/// Decides on an instance request from the status of the team's existing
/// instance, if any.
pub fn existing_instance(status: Option<&str>) -> (r: ExistingInstance)
    ensures
        r is Running <==> (status is Some && status->0@ == "running"@),
        r is Provisioning <==> (status is Some && status->0@ == "provisioning"@),
{
    proof {
        reveal_strlit("running");
        reveal_strlit("provisioning");
    }
    assert("running"@.len() == 7 && "provisioning"@.len() == 12);
    assert("running"@ != "provisioning"@);
    match status {
        Some(s) => {
            if crate::text::eq_str(s, "running") {
                ExistingInstance::Running
            } else if crate::text::eq_str(s, "provisioning") {
                ExistingInstance::Provisioning
            } else {
                ExistingInstance::Absent
            }
        },
        None => ExistingInstance::Absent,
    }
}

/// An instance may be renewed while it has used fewer renewals than the
/// configured maximum (3 by default).
pub fn may_renew(renewals_used: i64, max_renewals: Option<u64>) -> (r: bool)
    ensures
        r == (renewals_used < (match max_renewals {
            Some(m) => m,
            None => 3,
        }) as i64),
{
    let m: u64 = match max_renewals {
        Some(m) => m,
        None => 3,
    };
    renewals_used < m as i64
}

/// One way to reach a service of an instance.
pub struct Connection {
    pub label: String,
    pub connection_type: String,
    pub host: String,
    pub port: u16,
}

/// The host port recorded for a container port in the instance's extra
/// ports (`(internal port as text, host port)` entries), if any.
pub open spec fn extra_port_of(extra: Seq<(Seq<char>, Option<u64>)>, internal: u32) -> Option<u64>
    decreases extra.len(),
{
    if extra.len() == 0 {
        None
    } else if extra[0].0 == crate::text::dec(internal as nat) {
        extra[0].1
    } else {
        extra_port_of(extra.drop_first(), internal)
    }
}

/// The connection entries of a multi-service instance, as
/// `(label, host port)`: one per container port of each service, in order,
/// the host port taken from the extra ports and else the instance's port.
pub open spec fn connection_entries(
    services: Seq<(String, Vec<u32>)>,
    extra: Seq<(Seq<char>, Option<u64>)>,
    port: u16,
) -> Seq<(Seq<char>, u16)>
    decreases services.len(),
{
    if services.len() == 0 {
        seq![]
    } else {
        let prev = connection_entries(services.drop_last(), extra, port);
        let s = services.last();
        prev + s.1@.map_values(|ip: u32| (s.0@, match extra_port_of(extra, ip) {
            Some(p) => p as u16,
            None => port,
        }))
    }
}

/// The views of the extra-port entries.
pub open spec fn extra_views(extra: Seq<(String, Option<u64>)>) -> Seq<(Seq<char>, Option<u64>)> {
    extra.map_values(|e: (String, Option<u64>)| (e.0@, e.1))
}

fn extra_port_lookup(extra: &Vec<(String, Option<u64>)>, internal: u32) -> (r: Option<u64>)
    ensures
        r == extra_port_of(extra_views(extra@), internal),
{
    let key = crate::text::decimal(internal as u64);
    let mut i: usize = 0;
    assert(extra_views(extra@).skip(0) =~= extra_views(extra@));
    while i < extra.len()
        invariant
            i <= extra@.len(),
            key@ == crate::text::dec(internal as nat),
            extra_port_of(extra_views(extra@), internal) == extra_port_of(extra_views(extra@).skip(i as int), internal),
        decreases extra@.len() - i,
    {
        let ghost rest = extra_views(extra@).skip(i as int);
        assert(rest[0] == (extra@[i as int].0@, extra@[i as int].1));
        assert(rest.drop_first() =~= extra_views(extra@).skip(i + 1));
        if crate::text::eq_str(extra[i].0.as_str(), key.as_str()) {
            return extra[i].1;
        }
        i = i + 1;
    }
    None
}

/// The connections shown for a multi-service instance: one per container
/// port of each configured service; none when there are none.
pub fn build_connections(
    services: &Vec<(String, Vec<u32>)>,
    host: &str,
    port: u16,
    connection_type: &str,
    extra: &Vec<(String, Option<u64>)>,
) -> (r: Option<Vec<Connection>>)
    ensures
        connection_entries(services@, extra_views(extra@), port).len() == 0 ==> r is None,
        connection_entries(services@, extra_views(extra@), port).len() > 0 ==> r is Some && ({
            let cs = r->0@;
            let es = connection_entries(services@, extra_views(extra@), port);
            &&& cs.len() == es.len()
            &&& forall|k: int| 0 <= k < cs.len() ==> (#[trigger] cs[k]).label@ == es[k].0 && cs[k].port
                == es[k].1 && cs[k].host@ == host@ && cs[k].connection_type@ == connection_type@
        }),
{
    let mut out: Vec<Connection> = Vec::new();
    let mut i: usize = 0;
    while i < services.len()
        invariant
            i <= services@.len(),
            out@.len() == connection_entries(services@.take(i as int), extra_views(extra@), port).len(),
            forall|k: int| 0 <= k < out@.len() ==> (#[trigger] out@[k]).label@ == connection_entries(
                services@.take(i as int),
                extra_views(extra@),
                port,
            )[k].0 && out@[k].port == connection_entries(services@.take(i as int), extra_views(extra@), port)[k].1
                && out@[k].host@ == host@ && out@[k].connection_type@ == connection_type@,
        decreases services@.len() - i,
    {
        let ghost pre = connection_entries(services@.take(i as int), extra_views(extra@), port);
        let ghost s = services@[i as int];
        let ghost added = s.1@.map_values(|ip: u32| (s.0@, match extra_port_of(extra_views(extra@), ip) {
            Some(p) => p as u16,
            None => port,
        }));
        proof {
            assert(services@.take(i + 1).drop_last() =~= services@.take(i as int));
            assert(services@.take(i + 1).last() == s);
        }
        let ports = &services[i].1;
        let mut j: usize = 0;
        let ghost base = out@;
        assert(forall|k: int| 0 <= k < base.len() ==> (#[trigger] base[k]).label@ == pre[k].0 && base[k].port
            == pre[k].1 && base[k].host@ == host@ && base[k].connection_type@ == connection_type@);
        while j < ports.len()
            invariant
                j <= ports@.len(),
                i < services@.len(),
                ports@ == s.1@,
                services@[i as int] == s,
                added == s.1@.map_values(|ip: u32| (s.0@, match extra_port_of(extra_views(extra@), ip) {
                    Some(p) => p as u16,
                    None => port,
                })),
                base.len() == pre.len(),
                out@.len() == base.len() + j,
                forall|k: int| 0 <= k < base.len() ==> out@[k] == base[k],
                forall|k: int| 0 <= k < j ==> (#[trigger] out@[base.len() + k]).label@ == added[k].0
                    && out@[base.len() + k].port == added[k].1 && out@[base.len() + k].host@ == host@
                    && out@[base.len() + k].connection_type@ == connection_type@,
            decreases ports@.len() - j,
        {
            let ip = ports[j];
            let hp: u16 = match extra_port_lookup(extra, ip) {
                Some(p) => p as u16,
                None => port,
            };
            let ghost before = out@;
            let conn = Connection {
                label: services[i].0.clone(),
                connection_type: String::from_str(connection_type),
                host: String::from_str(host),
                port: hp,
            };
            out.push(conn);
            proof {
                assert(out@ == before.push(conn));
                assert(added[j as int] == (s.0@, hp));
                assert forall|k: int| 0 <= k < j + 1 implies (#[trigger] out@[base.len() + k]).label@ == added[k].0
                    && out@[base.len() + k].port == added[k].1 && out@[base.len() + k].host@ == host@
                    && out@[base.len() + k].connection_type@ == connection_type@ by {
                    if k < j {
                        assert(out@[base.len() + k] == before[base.len() + k]);
                    }
                }
            }
            j = j + 1;
        }
        proof {
            let next = connection_entries(services@.take(i + 1), extra_views(extra@), port);
            assert(next =~= pre + added);
            assert forall|k: int| 0 <= k < out@.len() implies (#[trigger] out@[k]).label@ == next[k].0
                && out@[k].port == next[k].1 && out@[k].host@ == host@ && out@[k].connection_type@
                == connection_type@ by {
                if k >= base.len() {
                    let t = k - base.len();
                    assert(out@[base.len() + t] == out@[k]);
                    assert(next[k] == added[t]);
                } else {
                    assert(out@[k] == base[k]);
                    assert(next[k] == pre[k]);
                }
            }
        }
        i = i + 1;
    }
    assert(services@.take(services@.len() as int) =~= services@);
    if out.len() == 0 {
        None
    } else {
        Some(out)
    }
}


/// The character an ASCII name keeps in a Docker name: letters, digits and
/// `-` stay, anything else becomes `-`.
pub open spec fn ascii_docker_char(c: char) -> char {
    if is_ascii_alnum(c) || c == '-' {
        c
    } else {
        '-'
    }
}

/// What sanitizing gives for an ASCII name: ASCII-lowered, every character
/// but a letter, digit or `-` turned into `-`, and `-` trimmed from both
/// ends.
pub open spec fn ascii_sanitized(name: Seq<char>) -> Seq<char> {
    trim_dashes(name.map_values(|c: char| ascii_docker_char(ascii_lower(c))))
}

/// Lowering an ASCII character keeps it ASCII and makes it no uppercase
/// letter, and keeps lowercase letters, digits and `-` as they are.
proof fn lemma_ascii_lower(c: char)
    requires
        (c as int) < 128,
    ensures
        (ascii_lower(c) as int) < 128,
        !('A' <= ascii_lower(c) && ascii_lower(c) <= 'Z'),
        (is_lower_alnum(c) || c == '-') ==> ascii_lower(c) == c,
        is_ascii_alnum(c) <==> is_lower_alnum(ascii_lower(c)),
{
    reveal_strlit("abcdefghijklmnopqrstuvwxyz");
    if 'A' <= c && c <= 'Z' {
        let k = c as int - 65;
        assert(0 <= k < 26);
        assert("abcdefghijklmnopqrstuvwxyz"@[k] == (97 + k) as char);
    }
}

/// Trimming keeps a run of `s` that, when not empty, neither starts nor ends
/// with `-`.
proof fn lemma_trim_piece(s: Seq<char>)
    ensures
        trim_dashes(s).len() <= s.len(),
        forall|i: int| 0 <= i < trim_dashes(s).len() ==> exists|j: int| 0 <= j < s.len() && #[trigger] trim_dashes(s)[i] == s[j],
        trim_dashes(s).len() > 0 ==> trim_dashes(s)[0] != '-' && trim_dashes(s).last() != '-',
{
    lemma_leading_dashes_bound(s);
    lemma_trailing_dashes_bound(s);
    let a = leading_dashes(s);
    if a < s.len() {
        lemma_leading_stops(s);
        lemma_trailing_stops(s, a as int);
        let t = s.subrange(a as int, s.len() - trailing_dashes(s));
        assert forall|i: int| 0 <= i < t.len() implies exists|j: int| 0 <= j < s.len() && #[trigger] t[i] == s[j] by {
            assert(t[i] == s[a + i]);
        }
    }
}

/// Sanitizing an ASCII name gives lowercase letters, digits and `-`, with
/// no `-` at either end, no longer than the name; the result is ASCII and
/// sanitizing it again leaves it unchanged.
pub proof fn law_sanitized_ascii(name: Seq<char>)
    requires
        is_ascii_seq(name),
    ensures
        forall|i: int| 0 <= i < ascii_sanitized(name).len() ==> is_lower_alnum(#[trigger] ascii_sanitized(name)[i])
            || ascii_sanitized(name)[i] == '-',
        ascii_sanitized(name).len() > 0 ==> ascii_sanitized(name)[0] != '-' && ascii_sanitized(name).last() != '-',
        ascii_sanitized(name).len() <= name.len(),
        is_ascii_seq(ascii_sanitized(name)),
        ascii_sanitized(ascii_sanitized(name)) == ascii_sanitized(name),
{
    let m = name.map_values(|c: char| ascii_docker_char(ascii_lower(c)));
    assert forall|j: int| 0 <= j < m.len() implies is_lower_alnum(#[trigger] m[j]) || m[j] == '-' by {
        assert((name[j] as int) < 128);
        lemma_ascii_lower(name[j]);
    }
    let t = trim_dashes(m);
    lemma_trim_piece(m);
    assert forall|i: int| 0 <= i < t.len() implies is_lower_alnum(#[trigger] t[i]) || t[i] == '-' by {
        let j = choose|j: int| 0 <= j < m.len() && t[i] == m[j];
    }
    assert forall|i: int| 0 <= i < t.len() implies (#[trigger] t[i] as int) < 128 by {
        assert(is_lower_alnum(t[i]) || t[i] == '-');
    }
    let m2 = t.map_values(|c: char| ascii_docker_char(ascii_lower(c)));
    assert forall|i: int| 0 <= i < t.len() implies #[trigger] m2[i] == t[i] by {
        assert(is_lower_alnum(t[i]) || t[i] == '-');
        lemma_ascii_lower(t[i]);
    }
    assert(m2 =~= t);
    if t.len() > 0 {
        assert(leading_dashes(t) == 0);
        assert(trailing_dashes(t) == 0);
        assert(t.subrange(0, t.len() as int) =~= t);
    } else {
        assert(trim_dashes(t) =~= t);
    }
}

} // verus!
