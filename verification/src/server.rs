//! The request-level helpers of the monitor's web server: token hashing,
//! reading the `Authorization` header and the session cookie, and escaping
//! text for HTML.
use vstd::prelude::*;
use sha2::Digest;
use vstd::string::StringSliceAdditionalSpecFns;
use crate::text::{is_ws, push_char_of, starts_with, starts_with_str, trim_start, char_is_ws};

verus! {

/// The SHA-256 digest of `bytes`.
pub uninterp spec fn spec_sha256(bytes: Seq<u8>) -> Seq<u8>;

/// Calls `sha2::Sha256::digest`; the digest is named, and is 32 bytes long.
#[verifier::external_body]
fn sha256(bytes: &[u8]) -> (r: Vec<u8>)
    ensures
        r@ == spec_sha256(bytes@),
        r@.len() == 32,
{
    sha2::Sha256::digest(bytes).to_vec()
}

/// The lowercase hexadecimal digit for `n < 16`.
pub open spec fn hex_digit(n: int) -> char {
    "0123456789abcdef"@[n]
}

/// Each byte as two lowercase hexadecimal digits (`{:02x}`).
pub open spec fn hex_of(bytes: Seq<u8>) -> Seq<char>
    decreases bytes.len(),
{
    if bytes.len() == 0 {
        seq![]
    } else {
        hex_of(bytes.drop_last()) + seq![hex_digit(bytes.last() as int / 16), hex_digit(bytes.last() as int % 16)]
    }
}

proof fn lemma_hex_len(bytes: Seq<u8>)
    ensures
        hex_of(bytes).len() == 2 * bytes.len(),
    decreases bytes.len(),
{
    if bytes.len() > 0 {
        lemma_hex_len(bytes.drop_last());
    }
}

/// The bytes as lowercase hexadecimal, two digits each (`{:02x}`).
pub fn hex_string(bytes: &Vec<u8>) -> (r: String)
    ensures
        r@ == hex_of(bytes@),
        r@.len() == 2 * bytes@.len(),
{
    let hex = "0123456789abcdef";
    proof {
        reveal_strlit("0123456789abcdef");
    }
    let mut out = String::new();
    let mut i: usize = 0;
    while i < bytes.len()
        invariant
            hex@ == "0123456789abcdef"@,
            hex@.len() == 16,
            i <= bytes@.len(),
            out@ == hex_of(bytes@.take(i as int)),
        decreases bytes@.len() - i,
    {
        let b = bytes[i];
        push_char_of(&mut out, hex, (b / 16) as usize);
        push_char_of(&mut out, hex, (b % 16) as usize);
        proof {
            assert(bytes@.take(i + 1).drop_last() =~= bytes@.take(i as int));
            assert(out@ =~= hex_of(bytes@.take(i + 1)));
        }
        i = i + 1;
    }
    assert(bytes@.take(bytes@.len() as int) =~= bytes@);
    proof {
        lemma_hex_len(bytes@);
    }
    out
}

/// The stored form of an operator token: the lowercase hex SHA-256 digest
/// of its UTF-8 bytes.
pub fn hash_token(token: &str) -> (r: String)
    ensures
        r@ == hex_of(spec_sha256(token.spec_bytes())),
        r@.len() == 64,
{
    let digest = sha256(token.as_bytes());
    hex_string(&digest)
}

/// The token of an `Authorization: Token <token>` header.
pub open spec fn bearer_of(authorization: Option<Seq<char>>) -> Option<Seq<char>> {
    match authorization {
        Some(v) => if starts_with(v, "Token "@) {
            Some(v.skip(6))
        } else {
            None
        },
        None => None,
    }
}

/// The token of an `Authorization: Token <token>` header, given the
/// header's value as text.
pub fn extract_bearer<'a>(authorization: Option<&'a str>) -> (r: Option<&'a str>)
    ensures
        match r {
            Some(t) => bearer_of(match authorization { Some(v) => Some(v@), None => None }) == Some(t@),
            None => bearer_of(match authorization { Some(v) => Some(v@), None => None }) is None,
        },
{
    match authorization {
        Some(v) => {
            proof {
                reveal_strlit("Token ");
            }
            if starts_with_str(v, "Token ") {
                let n = v.unicode_len();
                let t = v.substring_char(6, n);
                assert(t@ =~= v@.skip(6));
                Some(t)
            } else {
                None
            }
        },
        None => None,
    }
}

/// Number of trailing whitespace characters of `s`.
pub open spec fn trailing_ws(s: Seq<char>) -> nat
    decreases s.len(),
{
    if s.len() > 0 && is_ws(s.last()) {
        1 + trailing_ws(s.drop_last())
    } else {
        0
    }
}

/// `s.trim()`: whitespace removed from both ends.
pub open spec fn trim(s: Seq<char>) -> Seq<char> {
    let t = trim_start(s);
    t.subrange(0, t.len() - trailing_ws(t))
}

/// Position of the first `;` in `s`, or `s.len()`.
pub open spec fn first_semicolon(s: Seq<char>) -> nat
    decreases s.len(),
{
    if s.len() == 0 {
        0
    } else if s[0] == ';' {
        0
    } else {
        1 + first_semicolon(s.drop_first())
    }
}

/// The pieces of `s.split(';')`.
pub open spec fn split_semicolons(s: Seq<char>) -> Seq<Seq<char>>
    decreases s.len(),
{
    let e = first_semicolon(s);
    if e >= s.len() {
        seq![s]
    } else {
        seq![s.subrange(0, e as int)] + split_semicolons(s.skip(e + 1int))
    }
}

/// The value of the first cookie piece that, trimmed, starts with
/// `nervctf_session=`.
pub open spec fn session_in(pieces: Seq<Seq<char>>) -> Option<Seq<char>>
    decreases pieces.len(),
{
    if pieces.len() == 0 {
        None
    } else if starts_with(trim(pieces[0]), "nervctf_session="@) {
        Some(trim(pieces[0]).skip(16))
    } else {
        session_in(pieces.drop_first())
    }
}

/// The session id of a `Cookie` header value.
pub open spec fn session_cookie_of(cookie: Option<Seq<char>>) -> Option<Seq<char>> {
    match cookie {
        Some(c) => session_in(split_semicolons(c)),
        None => None,
    }
}

proof fn lemma_trailing_ws(s: Seq<char>, k: int)
    requires
        0 <= k <= s.len(),
        forall|j: int| s.len() - k <= j < s.len() ==> is_ws(#[trigger] s[j]),
        k == s.len() || !is_ws(s[s.len() - 1 - k]),
    ensures
        trailing_ws(s) == k,
    decreases k,
{
    if k > 0 {
        lemma_trailing_ws(s.drop_last(), k - 1);
    }
}

proof fn lemma_first_semicolon(t: Seq<char>, k: int)
    requires
        0 <= k <= t.len(),
        forall|j: int| 0 <= j < k ==> t[j] != ';',
        k == t.len() || t[k] == ';',
    ensures
        first_semicolon(t) == k,
    decreases k,
{
    if k > 0 {
        lemma_first_semicolon(t.drop_first(), k - 1);
    }
}

/// The trimmed text between positions `a` and `b` of `s`.
pub fn trimmed_piece<'a>(s: &'a str, a: usize, b: usize) -> (r: &'a str)
    requires
        a <= b <= s@.len(),
    ensures
        r@ == trim(s@.subrange(a as int, b as int)),
{
    let piece = s.substring_char(a, b);
    let n = piece.unicode_len();
    let mut i: usize = 0;
    while i < n && char_is_ws(piece.get_char(i))
        invariant
            n == piece@.len(),
            i <= n,
            forall|j: int| 0 <= j < i ==> is_ws(#[trigger] piece@[j]),
        decreases n - i,
    {
        i = i + 1;
    }
    proof {
        crate::text::lemma_leading_ws(piece@, i as int);
    }
    let t = piece.substring_char(i, n);
    assert(t@ =~= trim_start(piece@));
    let m = t.unicode_len();
    let mut k: usize = 0;
    while k < m && char_is_ws(t.get_char(m - 1 - k))
        invariant
            m == t@.len(),
            k <= m,
            forall|j: int| m - k <= j < m ==> is_ws(#[trigger] t@[j]),
        decreases m - k,
    {
        k = k + 1;
    }
    proof {
        lemma_trailing_ws(t@, k as int);
    }
    t.substring_char(0, m - k)
}

/// `s.trim()`.
pub fn trim_str<'a>(s: &'a str) -> (r: &'a str)
    ensures
        r@ == trim(s@),
{
    let n = s.unicode_len();
    let r = trimmed_piece(s, 0, n);
    assert(s@.subrange(0, n as int) =~= s@);
    r
}

/// The session id carried by the `nervctf_session` cookie, given the
/// `Cookie` header's value as text.
pub fn extract_session_cookie(cookie: Option<&str>) -> (r: Option<String>)
    ensures
        match r {
            Some(v) => session_cookie_of(match cookie { Some(c) => Some(c@), None => None }) == Some(v@),
            None => session_cookie_of(match cookie { Some(c) => Some(c@), None => None }) is None,
        },
{
    let s = match cookie {
        Some(c) => c,
        None => return None,
    };
    proof {
        reveal_strlit("nervctf_session=");
    }
    let n = s.unicode_len();
    let mut start: usize = 0;
    assert(s@.skip(0) =~= s@);
    loop
        invariant
            n == s@.len(),
            start <= n,
            session_in(split_semicolons(s@)) == session_in(split_semicolons(s@.skip(start as int))),
            session_cookie_of(match cookie { Some(c) => Some(c@), None => None }) == session_in(split_semicolons(s@)),
        decreases n - start,
    {
        let ghost rest = s@.skip(start as int);
        let mut e = start;
        while e < n && s.get_char(e) != ';'
            invariant
                n == s@.len(),
                start <= e <= n,
                forall|j: int| start <= j < e ==> s@[j] != ';',
            decreases n - e,
        {
            e = e + 1;
        }
        proof {
            assert forall|j: int| 0 <= j < e - start implies rest[j] != ';' by {
                assert(rest[j] == s@[start + j]);
            }
            if e < n {
                assert(rest[e - start] == s@[e as int]);
            }
            lemma_first_semicolon(rest, e - start);
            if e < n {
                assert(rest.subrange(0, e - start) =~= s@.subrange(start as int, e as int));
                assert(rest.skip(e - start + 1) =~= s@.skip(e + 1));
            } else {
                assert(rest =~= s@.subrange(start as int, e as int));
            }
        }
        let t = trimmed_piece(s, start, e);
        let ghost pieces = split_semicolons(rest);
        proof {
            reveal_strlit("nervctf_session=");
            assert(pieces[0] == s@.subrange(start as int, e as int));
            if e < n {
                assert(pieces.drop_first() =~= split_semicolons(s@.skip(e + 1)));
            } else {
                assert(pieces.len() == 1);
                assert(pieces.drop_first() =~= Seq::<Seq<char>>::empty());
            }
        }
        if starts_with_str(t, "nervctf_session=") {
            let m = t.unicode_len();
            let v = t.substring_char(16, m);
            assert(v@ =~= t@.skip(16));
            assert(session_in(pieces) == Some(v@));
            return Some(String::from_str(v));
        }
        assert(session_in(pieces) == session_in(pieces.drop_first()));
        if e >= n {
            return None;
        }
        start = e + 1;
    }
}

/// The HTML escape of one character.
pub open spec fn html_piece(c: char) -> Seq<char> {
    if c == '&' {
        "&amp;"@
    } else if c == '<' {
        "&lt;"@
    } else if c == '>' {
        "&gt;"@
    } else if c == '"' {
        "&quot;"@
    } else {
        seq![c]
    }
}

/// `s` with `&`, `<`, `>` and `"` replaced by their HTML entities.
pub open spec fn html_escaped(s: Seq<char>) -> Seq<char>
    decreases s.len(),
{
    if s.len() == 0 {
        seq![]
    } else {
        html_escaped(s.drop_last()) + html_piece(s.last())
    }
}

/// Escapes text for an HTML page.
pub fn html_escape(s: &str) -> (r: String)
    ensures
        r@ == html_escaped(s@),
{
    let n = s.unicode_len();
    let mut out = String::new();
    let mut i: usize = 0;
    while i < n
        invariant
            n == s@.len(),
            i <= n,
            out@ == html_escaped(s@.take(i as int)),
        decreases n - i,
    {
        let c = s.get_char(i);
        if c == '&' {
            out.append("&amp;");
        } else if c == '<' {
            out.append("&lt;");
        } else if c == '>' {
            out.append("&gt;");
        } else if c == '"' {
            out.append("&quot;");
        } else {
            push_char_of(&mut out, s, i);
        }
        proof {
            assert(s@.take(i + 1).drop_last() =~= s@.take(i as int));
            assert(out@ =~= html_escaped(s@.take(i + 1)));
        }
        i = i + 1;
    }
    assert(s@.take(n as int) =~= s@);
    out
}


/// Escaped text holds no `<`, `>` or `"`.
pub proof fn law_escaped_has_no_markup(s: Seq<char>)
    ensures
        forall|i: int| 0 <= i < html_escaped(s).len() ==> #[trigger] html_escaped(s)[i] != '<'
            && html_escaped(s)[i] != '>' && html_escaped(s)[i] != '"',
    decreases s.len(),
{
    reveal_strlit("&amp;");
    reveal_strlit("&lt;");
    reveal_strlit("&gt;");
    reveal_strlit("&quot;");
    if s.len() > 0 {
        law_escaped_has_no_markup(s.drop_last());
        let a = html_escaped(s.drop_last());
        let b = html_piece(s.last());
        assert forall|i: int| 0 <= i < (a + b).len() implies #[trigger] (a + b)[i] != '<' && (a + b)[i] != '>'
            && (a + b)[i] != '"' by {
            if i < a.len() {
                assert((a + b)[i] == a[i]);
            } else {
                assert((a + b)[i] == b[i - a.len()]);
            }
        }
    }
}

/// The token a `Token <t>` header carries is `t`.
pub proof fn law_bearer_roundtrip(t: Seq<char>)
    ensures
        bearer_of(Some("Token "@ + t)) == Some(t),
{
    reveal_strlit("Token ");
    let v = "Token "@ + t;
    assert(v.subrange(0, 6) =~= "Token "@);
    assert(v.skip(6) =~= t);
}

/// The `Set-Cookie` value that opens a session: the session id under
/// `nervctf_session`, HTTP-only, for the whole site, same-site only, for a
/// day.
pub open spec fn session_set_cookie_of(session_id: Seq<char>) -> Seq<char> {
    "nervctf_session="@ + session_id + "; HttpOnly; Path=/; SameSite=Strict; Max-Age=86400"@
}

pub fn session_set_cookie(session_id: &str) -> (r: String)
    ensures
        r@ == session_set_cookie_of(session_id@),
{
    let mut out = String::from_str("nervctf_session=");
    out.append(session_id);
    out.append("; HttpOnly; Path=/; SameSite=Strict; Max-Age=86400");
    out
}

/// The `Set-Cookie` value that ends a session: an empty, expired cookie.
pub open spec fn logout_set_cookie_of() -> Seq<char> {
    "nervctf_session=; HttpOnly; Path=/; SameSite=Strict; Max-Age=0"@
}

pub fn logout_set_cookie() -> (r: String)
    ensures
        r@ == logout_set_cookie_of(),
{
    String::from_str("nervctf_session=; HttpOnly; Path=/; SameSite=Strict; Max-Age=0")
}

/// A token as the monitor issues them (session ids, operator tokens):
/// ASCII letters and digits only.
pub open spec fn issued_token(t: Seq<char>) -> bool {
    forall|i: int| 0 <= i < t.len() ==> crate::instance::is_ascii_alnum(#[trigger] t[i])
}

/// A fresh random token of 32 ASCII letters and digits.
pub fn new_token() -> (r: String)
    ensures
        r@.len() == 32,
        issued_token(r@),
{
    crate::instance::random_alphanumeric(32)
}

proof fn lemma_no_semicolon(t: Seq<char>)
    requires
        forall|j: int| 0 <= j < t.len() ==> t[j] != ';',
    ensures
        first_semicolon(t) == t.len(),
        split_semicolons(t) == seq![t],
{
    lemma_first_semicolon(t, t.len() as int);
}

/// The session id the monitor puts in its cookie comes back from the
/// browser's `Cookie` header unchanged.
pub proof fn law_session_cookie_roundtrip(session_id: Seq<char>)
    requires
        issued_token(session_id),
    ensures
        session_cookie_of(Some("nervctf_session="@ + session_id)) == Some(session_id),
{
    reveal_strlit("nervctf_session=");
    let c = "nervctf_session="@ + session_id;
    assert forall|j: int| 0 <= j < c.len() implies c[j] != ';' && !is_ws(#[trigger] c[j]) by {
        if j >= 16 {
            assert(c[j] == session_id[j - 16]);
            assert(crate::instance::is_ascii_alnum(session_id[j - 16]));
        }
    }
    lemma_no_semicolon(c);
    assert(!is_ws(c[0]));
    assert(crate::text::leading_ws(c) == 0);
    assert(trim_start(c) =~= c);
    lemma_trailing_ws(c, 0);
    assert(trim(c) =~= c);
    assert(c.subrange(0, 16) =~= "nervctf_session="@);
    assert(c.skip(16) =~= session_id);
}

/// The token an `Authorization: Token <token>` header presents, when it
/// presents a non-empty one.
pub fn presented_token<'a>(authorization: Option<&'a str>) -> (r: Option<&'a str>)
    ensures
        match r {
            Some(t) => bearer_of(match authorization { Some(v) => Some(v@), None => None }) == Some(t@)
                && t@.len() > 0,
            None => match bearer_of(match authorization { Some(v) => Some(v@), None => None }) {
                Some(t) => t.len() == 0,
                None => true,
            },
        },
{
    match extract_bearer(authorization) {
        Some(t) => if t.unicode_len() > 0 { Some(t) } else { None },
        None => None,
    }
}

/// The session a `Cookie` header presents, when it presents a non-empty
/// one.
pub fn presented_session(cookie: Option<&str>) -> (r: Option<String>)
    ensures
        match r {
            Some(s) => session_cookie_of(match cookie { Some(c) => Some(c@), None => None }) == Some(s@)
                && s@.len() > 0,
            None => match session_cookie_of(match cookie { Some(c) => Some(c@), None => None }) {
                Some(s) => s.len() == 0,
                None => true,
            },
        },
{
    match extract_session_cookie(cookie) {
        Some(s) => if s.unicode_len() > 0 { Some(s) } else { None },
        None => None,
    }
}

/// The label of a new operator token: the given label trimmed, none when
/// that leaves nothing.
pub fn token_label(label: &str) -> (r: Option<String>)
    ensures
        match r {
            Some(l) => l@ == trim(label@) && l@.len() > 0,
            None => trim(label@).len() == 0,
        },
{
    let t = trim_str(label);
    if t.unicode_len() == 0 {
        None
    } else {
        Some(t.to_string())
    }
}

} // verus!
