//! How `nervctf` addresses the monitor's CTFd-compatible API: the base URL,
//! the authorization header, the endpoints, and when to stop paging
//! through the challenge list.
use vstd::prelude::*;
use crate::provision::{strip_end_slashes, trim_end_slashes};
use crate::server::bearer_of;
use crate::text::{dec, push_decimal};

verus! {

/// The monitor URL without trailing slashes.
pub fn api_base_url(monitor_url: &str) -> (r: String)
    ensures
        r@ == trim_end_slashes(monitor_url@),
{
    strip_end_slashes(monitor_url).to_string()
}

/// `<base>/api/v1<endpoint>`.
pub open spec fn api_url_of(base_url: Seq<char>, endpoint: Seq<char>) -> Seq<char> {
    base_url + "/api/v1"@ + endpoint
}

pub fn api_url(base_url: &str, endpoint: &str) -> (r: String)
    ensures
        r@ == api_url_of(base_url@, endpoint@),
{
    let mut out = String::from_str(base_url);
    out.append("/api/v1");
    out.append(endpoint);
    out
}

/// The `Authorization` header value the client sends.
pub open spec fn authorization_of(token: Seq<char>) -> Seq<char> {
    "Token "@ + token
}

pub fn authorization_value(token: &str) -> (r: String)
    ensures
        r@ == authorization_of(token@),
{
    let mut out = String::from_str("Token ");
    out.append(token);
    out
}

/// The monitor reads back from the header exactly the token the client
/// put in it.
pub proof fn law_authorization_roundtrip(token: Seq<char>)
    ensures
        bearer_of(Some(authorization_of(token))) == Some(token),
{
    crate::server::law_bearer_roundtrip(token);
}

/// A sub-resource listing of a challenge.
#[derive(Debug, Clone, Copy, PartialEq, Eq, Structural)]
pub enum SubResource {
    Files,
    Flags,
    Tags,
    Hints,
}

pub open spec fn sub_name(r: SubResource) -> Seq<char> {
    match r {
        SubResource::Files => "files"@,
        SubResource::Flags => "flags"@,
        SubResource::Tags => "tags"@,
        SubResource::Hints => "hints"@,
    }
}

/// `/challenges/<id>`, followed by `/<sub-resource>` when one is asked for.
pub open spec fn challenge_endpoint_of(id: u32, sub: Option<SubResource>) -> Seq<char> {
    "/challenges/"@ + dec(id as nat) + match sub {
        Some(r) => "/"@ + sub_name(r),
        None => seq![],
    }
}

pub fn challenge_endpoint(id: u32, sub: Option<SubResource>) -> (r: String)
    ensures
        r@ == challenge_endpoint_of(id, sub),
{
    proof {
        reveal_strlit("");
    }
    let mut out = String::from_str("/challenges/");
    push_decimal(&mut out, id as u64);
    match sub {
        Some(r) => {
            out.append("/");
            out.append(match r {
                SubResource::Files => "files",
                SubResource::Flags => "flags",
                SubResource::Tags => "tags",
                SubResource::Hints => "hints",
            });
        },
        None => {
            assert(out@ =~= out@ + Seq::<char>::empty());
        },
    }
    out
}

/// `/<kind>/<id>`: one flag, tag, hint or file.
pub open spec fn item_endpoint_of(kind: SubResource, id: u32) -> Seq<char> {
    "/"@ + sub_name(kind) + "/"@ + dec(id as nat)
}

pub fn item_endpoint(kind: SubResource, id: u32) -> (r: String)
    ensures
        r@ == item_endpoint_of(kind, id),
{
    let mut out = String::from_str("/");
    out.append(match kind {
        SubResource::Files => "files",
        SubResource::Flags => "flags",
        SubResource::Tags => "tags",
        SubResource::Hints => "hints",
    });
    out.append("/");
    push_decimal(&mut out, id as u64);
    out
}

/// `/challenges?page=<page>`.
pub open spec fn page_endpoint_of(page: u64) -> Seq<char> {
    "/challenges?page="@ + dec(page as nat)
}

pub fn challenges_page_endpoint(page: u64) -> (r: String)
    ensures
        r@ == page_endpoint_of(page),
{
    let mut out = String::from_str("/challenges?page=");
    push_decimal(&mut out, page);
    out
}

/// The page to fetch after `page`: none when the page had no challenge
/// list or an empty one, or when CTFd names no next page or names this one
/// again.
pub open spec fn next_page_of(page: u64, listed: Option<nat>, next: Option<u64>) -> Option<u64> {
    match listed {
        None => None,
        Some(n) => if n == 0 {
            None
        } else {
            match next {
                Some(p) => if p != page { Some(p) } else { None },
                None => None,
            }
        },
    }
}

/// Decides whether to fetch another page of challenges, given how many
/// the current page listed (none when it had no list) and the next page
/// CTFd named.
pub fn next_page(page: u64, listed: Option<usize>, next: Option<u64>) -> (r: Option<u64>)
    ensures
        r == next_page_of(page, match listed { Some(n) => Some(n as nat), None => None }, next),
{
    match listed {
        None => None,
        Some(n) => {
            if n == 0 {
                None
            } else {
                match next {
                    Some(p) => if p != page { Some(p) } else { None },
                    None => None,
                }
            }
        },
    }
}

/// Paging never asks for the page it just read, and stops at a page
/// without challenges.
pub proof fn law_paging_moves_on(page: u64, listed: Option<nat>, next: Option<u64>)
    ensures
        next_page_of(page, listed, next) != Some(page),
        (listed is None || listed == Some(0nat)) ==> next_page_of(page, listed, next) is None,
{
}

} // verus!
