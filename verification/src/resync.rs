//! How `nervctf deploy` brings an existing challenge's flags, tags, hints
//! and files in line with the local definition: what it compares, when it
//! leaves the remote side alone, and what it deletes and posts otherwise.
use vstd::prelude::*;
use crate::models::{FlagContent, HintContent, Tag, flag_text, hint_text, strs, tag_text};
use crate::paths::{path_file_name, spec_file_name};
use crate::text::{contains, contains_str, eq_str};

verus! {

/// One item of a sub-resource listing: the text compared (a flag's
/// content, a tag's value, a hint's content, a file's location) and the id,
/// each when the item has one.
pub struct ListedItem {
    pub text: Option<String>,
    pub id: Option<u64>,
}

/// What listing a challenge's flags, tags, hints or files gave.
pub enum Listing {
    /// The items listed.
    Found(Vec<ListedItem>),
    /// The endpoint answered without a body.
    Empty,
    /// The request failed with this message.
    Failed(String),
}

/// What to do with one kind of sub-resource.
#[derive(Debug, PartialEq, Eq)]
pub enum ReplaceStep {
    /// The remote items already match: leave them.
    Keep,
    /// Delete the listed items with these ids, then post the local ones.
    Replace(Vec<u64>),
    /// Post the local items.
    Post,
    /// The endpoint is not available (CTFd in private mode, a login
    /// redirect): warn and leave the items as they are.
    Unavailable,
    /// Fail with the listing's error.
    Fail,
}

/// An error message that shows an HTML page or a redirect came back in
/// place of JSON.
pub open spec fn html_or_redirect(msg: Seq<char>) -> bool {
    contains(msg, "<!DOCTYPE"@) || contains(msg, "/login"@) || contains(msg, "Redirecting"@)
        || contains(msg, "JSON parse error"@)
}

/// Whether the error `msg` shows that the endpoint answered with HTML or
/// a redirect.
pub fn is_html_or_redirect(msg: &str) -> (r: bool)
    ensures
        r == html_or_redirect(msg@),
{
    contains_str(msg, "<!DOCTYPE") || contains_str(msg, "/login") || contains_str(msg, "Redirecting")
        || contains_str(msg, "JSON parse error")
}

/// The texts of the listed items that have one, in order.
pub open spec fn listed_texts(items: Seq<ListedItem>, k: int) -> Seq<Seq<char>>
    decreases k,
{
    if k <= 0 {
        seq![]
    } else {
        let rest = listed_texts(items, k - 1);
        match items[k - 1].text {
            Some(t) => rest.push(t@),
            None => rest,
        }
    }
}

/// The ids of the listed items that have one, in order.
pub open spec fn listed_ids(items: Seq<ListedItem>, k: int) -> Seq<u64>
    decreases k,
{
    if k <= 0 {
        seq![]
    } else {
        let rest = listed_ids(items, k - 1);
        match items[k - 1].id {
            Some(i) => rest.push(i),
            None => rest,
        }
    }
}

/// `r` is what to do given `listing` and the local texts `local`: keep
/// when the listed texts are the local ones in some order, otherwise
/// delete every listed item that has an id and post; post when nothing was
/// listed; on an error, leave things alone if the endpoint answered HTML
/// or a redirect, and fail otherwise.
pub open spec fn replace_step_is(listing: Listing, local: Seq<Seq<char>>, r: ReplaceStep) -> bool {
    match listing {
        Listing::Found(items) => {
            let remote = listed_texts(items@, items@.len() as int);
            if remote.to_multiset() == local.to_multiset() {
                r is Keep
            } else {
                r matches ReplaceStep::Replace(ids) && ids@ == listed_ids(items@, items@.len() as int)
            }
        },
        Listing::Empty => r is Post,
        Listing::Failed(msg) => if html_or_redirect(msg@) { r is Unavailable } else { r is Fail },
    }
}

fn texts_of(items: &Vec<ListedItem>) -> (r: Vec<String>)
    ensures
        strs(r@) == listed_texts(items@, items@.len() as int),
{
    let mut out: Vec<String> = Vec::new();
    let mut i: usize = 0;
    while i < items.len()
        invariant
            i <= items@.len(),
            strs(out@) == listed_texts(items@, i as int),
        decreases items@.len() - i,
    {
        match &items[i].text {
            Some(t) => {
                out.push(t.clone());
            },
            None => {},
        }
        assert(strs(out@) =~= listed_texts(items@, i + 1));
        i = i + 1;
    }
    out
}

fn ids_of(items: &Vec<ListedItem>) -> (r: Vec<u64>)
    ensures
        r@ == listed_ids(items@, items@.len() as int),
{
    let mut out: Vec<u64> = Vec::new();
    let mut i: usize = 0;
    while i < items.len()
        invariant
            i <= items@.len(),
            out@ == listed_ids(items@, i as int),
        decreases items@.len() - i,
    {
        match items[i].id {
            Some(id) => {
                out.push(id);
            },
            None => {},
        }
        assert(out@ =~= listed_ids(items@, i + 1));
        i = i + 1;
    }
    out
}

fn find_equal(pool: &Vec<String>, x: &str) -> (r: Option<usize>)
    ensures
        match r {
            Some(k) => k < pool@.len() && pool@[k as int]@ == x@,
            None => !strs(pool@).contains(x@),
        },
{
    let mut k: usize = 0;
    while k < pool.len()
        invariant
            k <= pool@.len(),
            forall|j: int| 0 <= j < k ==> pool@[j]@ != x@,
        decreases pool@.len() - k,
    {
        if eq_str(pool[k].as_str(), x) {
            return Some(k);
        }
        k = k + 1;
    }
    proof {
        if strs(pool@).contains(x@) {
            let j = choose|j: int| 0 <= j < strs(pool@).len() && strs(pool@)[j] == x@;
            assert(pool@[j]@ == x@);
        }
    }
    None
}

/// Whether `a` and `b` hold the same strings, each as often (so that
/// sorting both gives the same list).
pub fn same_strings(a: &Vec<String>, b: &Vec<String>) -> (r: bool)
    ensures
        r == (strs(a@).to_multiset() == strs(b@).to_multiset()),
{
    broadcast use vstd::seq_lib::group_to_multiset_ensures, vstd::multiset::group_multiset_axioms;
    let ghost sa = strs(a@);
    let ghost sb = strs(b@);
    let mut pool: Vec<String> = Vec::new();
    let mut j: usize = 0;
    while j < b.len()
        invariant
            j <= b@.len(),
            sb == strs(b@),
            strs(pool@) == sb.take(j as int),
        decreases b@.len() - j,
    {
        pool.push(b[j].clone());
        assert(sb.take(j + 1) =~= sb.take(j as int).push(sb[j as int]));
        assert(strs(pool@) =~= sb.take(j + 1));
        j = j + 1;
    }
    assert(sb.take(b@.len() as int) =~= sb);
    let mut i: usize = 0;
    while i < a.len()
        invariant
            i <= a@.len(),
            sa == strs(a@),
            sb == strs(b@),
            sa.take(i as int).to_multiset().add(strs(pool@).to_multiset()) == sb.to_multiset(),
        decreases a@.len() - i,
    {
        let ghost before = strs(pool@);
        assert(sa.take(i + 1) =~= sa.take(i as int).push(sa[i as int]));
        assert(sa[i as int] == a@[i as int]@);
        match find_equal(&pool, a[i].as_str()) {
            None => {
                proof {
                    let x = sa[i as int];
                    assert(x == a@[i as int]@);
                    assert(!before.contains(x));
                    vstd::seq_lib::to_multiset_contains(before, x);
                    assert(before.to_multiset().count(x) == 0);
                    vstd::seq_lib::to_multiset_build(sa.take(i as int), x);
                    assert(sa.take(i + 1).to_multiset() =~= sa.take(i as int).to_multiset().insert(x));
                    vstd::seq_lib::lemma_multiset_commutative(sa.take(i + 1), sa.skip(i + 1));
                    assert(sa.take(i + 1) + sa.skip(i + 1) =~= sa);
                    assert(sa.to_multiset().count(x) >= sa.take(i + 1).to_multiset().count(x));
                    assert(sa.to_multiset().count(x) != sb.to_multiset().count(x));
                }
                return false;
            },
            Some(k) => {
                pool.remove(k);
                proof {
                    broadcast use vstd::multiset::group_multiset_axioms;
                    let x = sa[i as int];
                    assert(before[k as int] == x);
                    assert(strs(pool@) =~= before.remove(k as int));
                    vstd::seq_lib::to_multiset_remove(before, k as int);
                    vstd::seq_lib::to_multiset_contains(before, x);
                    vstd::seq_lib::to_multiset_build(sa.take(i as int), x);
                    assert(sa.take(i + 1).to_multiset().add(strs(pool@).to_multiset())
                        =~= sa.take(i as int).to_multiset().add(before.to_multiset()));
                }
            },
        }
        i = i + 1;
    }
    assert(sa.take(a@.len() as int) =~= sa);
    if pool.len() == 0 {
        assert(strs(pool@) =~= Seq::<Seq<char>>::empty());
        assert(sa.to_multiset().add(Seq::<Seq<char>>::empty().to_multiset()) =~= sa.to_multiset());
        true
    } else {
        proof {
            assert(strs(pool@).len() > 0);
            assert(sa.to_multiset().len() + strs(pool@).to_multiset().len() == sb.to_multiset().len());
        }
        false
    }
}

/// Decides how to bring one kind of sub-resource in line with the local
/// texts `local`.
pub fn replace_step(listing: &Listing, local: &Vec<String>) -> (r: ReplaceStep)
    ensures
        replace_step_is(*listing, strs(local@), r),
{
    match listing {
        Listing::Found(items) => {
            let remote = texts_of(items);
            if same_strings(&remote, local) {
                ReplaceStep::Keep
            } else {
                ReplaceStep::Replace(ids_of(items))
            }
        },
        Listing::Empty => ReplaceStep::Post,
        Listing::Failed(msg) => {
            if is_html_or_redirect(msg.as_str()) {
                ReplaceStep::Unavailable
            } else {
                ReplaceStep::Fail
            }
        },
    }
}

/// The contents of the flags, in order (none when there are no flags).
pub open spec fn flag_texts(flags: Option<Vec<FlagContent>>) -> Seq<Seq<char>> {
    match flags {
        Some(f) => f@.map_values(|x: FlagContent| flag_text(x)),
        None => seq![],
    }
}

pub open spec fn tag_texts(tags: Option<Vec<Tag>>) -> Seq<Seq<char>> {
    match tags {
        Some(t) => t@.map_values(|x: Tag| tag_text(x)),
        None => seq![],
    }
}

pub open spec fn hint_texts(hints: Option<Vec<HintContent>>) -> Seq<Seq<char>> {
    match hints {
        Some(h) => h@.map_values(|x: HintContent| hint_text(x)),
        None => seq![],
    }
}

/// The local flag contents compared with the remote ones.
pub fn flag_contents(flags: &Option<Vec<FlagContent>>) -> (r: Vec<String>)
    ensures
        strs(r@) == flag_texts(*flags),
{
    let mut out: Vec<String> = Vec::new();
    match flags {
        Some(f) => {
            let mut i: usize = 0;
            while i < f.len()
                invariant
                    i <= f@.len(),
                    strs(out@) == f@.take(i as int).map_values(|x: FlagContent| flag_text(x)),
                decreases f@.len() - i,
            {
                let ghost before = strs(out@);
                out.push(String::from_str(f[i].content_str()));
                assert(strs(out@) =~= before.push(flag_text(f@[i as int])));
                assert(f@.take(i + 1).map_values(|x: FlagContent| flag_text(x)) =~= f@.take(i as int).map_values(|x: FlagContent| flag_text(x)).push(flag_text(f@[i as int])));
                i = i + 1;
            }
            assert(f@.take(f@.len() as int) =~= f@);
        },
        None => {},
    }
    assert(strs(out@) =~= flag_texts(*flags));
    out
}

/// The local tag values compared with the remote ones.
pub fn tag_values(tags: &Option<Vec<Tag>>) -> (r: Vec<String>)
    ensures
        strs(r@) == tag_texts(*tags),
{
    let mut out: Vec<String> = Vec::new();
    match tags {
        Some(t) => {
            let mut i: usize = 0;
            while i < t.len()
                invariant
                    i <= t@.len(),
                    strs(out@) == t@.take(i as int).map_values(|x: Tag| tag_text(x)),
                decreases t@.len() - i,
            {
                let ghost before = strs(out@);
                out.push(String::from_str(t[i].value_str()));
                assert(strs(out@) =~= before.push(tag_text(t@[i as int])));
                assert(t@.take(i + 1).map_values(|x: Tag| tag_text(x)) =~= t@.take(i as int).map_values(|x: Tag| tag_text(x)).push(tag_text(t@[i as int])));
                i = i + 1;
            }
            assert(t@.take(t@.len() as int) =~= t@);
        },
        None => {},
    }
    assert(strs(out@) =~= tag_texts(*tags));
    out
}

/// The local hint contents compared with the remote ones.
pub fn hint_contents(hints: &Option<Vec<HintContent>>) -> (r: Vec<String>)
    ensures
        strs(r@) == hint_texts(*hints),
{
    let mut out: Vec<String> = Vec::new();
    match hints {
        Some(h) => {
            let mut i: usize = 0;
            while i < h.len()
                invariant
                    i <= h@.len(),
                    strs(out@) == h@.take(i as int).map_values(|x: HintContent| hint_text(x)),
                decreases h@.len() - i,
            {
                let ghost before = strs(out@);
                out.push(String::from_str(h[i].content_str()));
                assert(strs(out@) =~= before.push(hint_text(h@[i as int])));
                assert(h@.take(i + 1).map_values(|x: HintContent| hint_text(x)) =~= h@.take(i as int).map_values(|x: HintContent| hint_text(x)).push(hint_text(h@[i as int])));
                i = i + 1;
            }
            assert(h@.take(h@.len() as int) =~= h@);
        },
        None => {},
    }
    assert(strs(out@) =~= hint_texts(*hints));
    out
}

/// The content and cost a hint is posted with: a bare hint costs nothing.
pub fn hint_post_fields(h: &HintContent) -> (r: (&str, u32))
    ensures
        r.0@ == hint_text(*h),
        r.1 == match *h {
            HintContent::Simple(_) => 0u32,
            HintContent::Detailed { cost, .. } => match cost { Some(c) => c, None => 0u32 },
        },
{
    match h {
        HintContent::Simple(s) => (s.as_str(), 0),
        HintContent::Detailed { content, cost, .. } => (content.as_str(), match cost { Some(c) => *c, None => 0 }),
    }
}

/// The index of the last `/` in `s`, if any.
pub open spec fn last_slash(s: Seq<char>, k: int) -> Option<int>
    decreases k,
{
    if k <= 0 {
        None
    } else if s[k - 1] == '/' {
        Some(k - 1)
    } else {
        last_slash(s, k - 1)
    }
}

/// What follows the last `/` of `s` (all of `s` when it has none).
pub open spec fn last_segment_of(s: Seq<char>) -> Seq<char> {
    match last_slash(s, s.len() as int) {
        Some(k) => s.subrange(k + 1, s.len() as int),
        None => s,
    }
}

/// The part of `location` after its last `/`: a stored file's name.
pub fn last_segment(location: &str) -> (r: String)
    ensures
        r@ == last_segment_of(location@),
{
    let n = location.unicode_len();
    let mut k: usize = n;
    while k > 0
        invariant
            k <= n,
            n == location@.len(),
            last_slash(location@, n as int) == last_slash(location@, k as int),
        decreases k,
    {
        if location.get_char(k - 1) == '/' {
            return location.substring_char(k, n).to_string();
        }
        k = k - 1;
    }
    location.to_string()
}

/// The name a local file is uploaded under: the last component of its
/// path, or the path itself when it has none.
pub open spec fn upload_name(path: Seq<char>) -> Seq<char> {
    match spec_file_name(path) {
        Some(n) => n,
        None => path,
    }
}

/// The upload names of the local files (none when there are none).
pub open spec fn upload_names_of(files: Option<Vec<String>>) -> Seq<Seq<char>> {
    match files {
        Some(f) => f@.map_values(|p: String| upload_name(p@)),
        None => seq![],
    }
}

/// The names the local files are uploaded under.
pub fn upload_names(files: &Option<Vec<String>>) -> (r: Vec<String>)
    ensures
        strs(r@) == upload_names_of(*files),
{
    let mut out: Vec<String> = Vec::new();
    match files {
        Some(f) => {
            let mut i: usize = 0;
            while i < f.len()
                invariant
                    i <= f@.len(),
                    strs(out@) == f@.take(i as int).map_values(|p: String| upload_name(p@)),
                decreases f@.len() - i,
            {
                let name = match path_file_name(f[i].as_str()) {
                    Some(n) => n,
                    None => f[i].clone(),
                };
                let ghost before = strs(out@);
                out.push(name);
                assert(strs(out@) =~= before.push(upload_name(f@[i as int]@)));
                assert(f@.take(i + 1).map_values(|p: String| upload_name(p@)) =~= f@.take(i as int).map_values(|p: String| upload_name(p@)).push(upload_name(f@[i as int]@)));
                i = i + 1;
            }
            assert(f@.take(f@.len() as int) =~= f@);
        },
        None => {},
    }
    assert(strs(out@) =~= upload_names_of(*files));
    out
}

/// The stored names of the listed files: the last segment of each
/// location.
pub open spec fn stored_names(items: Seq<ListedItem>, k: int) -> Seq<Seq<char>>
    decreases k,
{
    if k <= 0 {
        seq![]
    } else {
        let rest = stored_names(items, k - 1);
        match items[k - 1].text {
            Some(t) => rest.push(last_segment_of(t@)),
            None => rest,
        }
    }
}

/// Whether the files need uploading, and which remote files to delete
/// first.
#[derive(Debug, PartialEq, Eq)]
pub enum FilesStep {
    /// Upload nothing.
    Skip,
    /// Delete the listed files with these ids, then upload the local ones.
    Upload(Vec<u64>),
}

/// `r` is the files decision for upload names `local` and `listing`: skip
/// when there is nothing to upload, when the stored names are the local
/// ones in some order, or when the listing failed; otherwise delete every
/// listed file with an id and upload.
pub open spec fn files_step_is(local: Seq<Seq<char>>, listing: Listing, r: FilesStep) -> bool {
    if local.len() == 0 {
        r is Skip
    } else {
        match listing {
            Listing::Found(items) => {
                if stored_names(items@, items@.len() as int).to_multiset() == local.to_multiset() {
                    r is Skip
                } else {
                    r matches FilesStep::Upload(ids) && ids@ == listed_ids(items@, items@.len() as int)
                }
            },
            Listing::Empty => r matches FilesStep::Upload(ids) && ids@.len() == 0,
            Listing::Failed(_) => r is Skip,
        }
    }
}

fn stored_names_of(items: &Vec<ListedItem>) -> (r: Vec<String>)
    ensures
        strs(r@) == stored_names(items@, items@.len() as int),
{
    let mut out: Vec<String> = Vec::new();
    let mut i: usize = 0;
    while i < items.len()
        invariant
            i <= items@.len(),
            strs(out@) == stored_names(items@, i as int),
        decreases items@.len() - i,
    {
        match &items[i].text {
            Some(t) => {
                out.push(last_segment(t.as_str()));
            },
            None => {},
        }
        assert(strs(out@) =~= stored_names(items@, i + 1));
        i = i + 1;
    }
    out
}

/// Decides whether a challenge's files are uploaded again, given the
/// upload names of the local files and the listing of the stored ones (the
/// listing is only asked for when there are local files).
pub fn files_step(local: &Vec<String>, listing: &Listing) -> (r: FilesStep)
    ensures
        files_step_is(strs(local@), *listing, r),
{
    if local.len() == 0 {
        return FilesStep::Skip;
    }
    match listing {
        Listing::Found(items) => {
            let remote = stored_names_of(items);
            if same_strings(&remote, local) {
                FilesStep::Skip
            } else {
                FilesStep::Upload(ids_of(items))
            }
        },
        Listing::Empty => FilesStep::Upload(Vec::new()),
        Listing::Failed(_) => FilesStep::Skip,
    }
}

/// The order of the local items does not matter: two local lists with the
/// same items, each as often, get the same decision, and a listing that
/// holds exactly the local items is kept.
pub proof fn law_order_irrelevant(listing: Listing, a: Seq<Seq<char>>, b: Seq<Seq<char>>, ra: ReplaceStep, rb: ReplaceStep)
    requires
        a.to_multiset() == b.to_multiset(),
        replace_step_is(listing, a, ra),
        replace_step_is(listing, b, rb),
    ensures
        ra is Keep <==> rb is Keep,
        ra is Post <==> rb is Post,
        listing matches Listing::Found(items)
            && listed_texts(items@, items@.len() as int).to_multiset() == a.to_multiset() ==> ra is Keep,
{
}

} // verus!
