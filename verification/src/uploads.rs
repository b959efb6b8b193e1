//! Where the monitor stores the files uploaded for challenges: a random
//! directory per file under CTFd's uploads directory, recorded in CTFd as
//! `<directory>/<file name>`.
use vstd::prelude::*;
use rand::Rng;
use crate::provision::{strip_end_slashes, trim_end_slashes};
use crate::server::{hex_of, hex_string};

verus! {

/// Calls `rand::Rng::gen::<u8>` `len` times; the bytes are left to chance.
#[verifier::external_body]
fn random_bytes(len: usize) -> (r: Vec<u8>)
    ensures
        r@.len() == len,
{
    let mut rng = rand::thread_rng();
    (0..len).map(|_| rng.gen::<u8>()).collect()
}

/// A fresh directory name for an upload: 16 random bytes in lowercase
/// hexadecimal.
pub fn upload_token() -> (r: String)
    ensures
        r@.len() == 32,
        exists|b: Seq<u8>| b.len() == 16 && r@ == #[trigger] hex_of(b),
{
    let bytes = random_bytes(16);
    let r = hex_string(&bytes);
    assert(r@ == hex_of(bytes@));
    r
}

/// The location CTFd records for a file: `<token>/<file name>`.
pub open spec fn location_of(token: Seq<char>, filename: Seq<char>) -> Seq<char> {
    token + "/"@ + filename
}

pub fn upload_location(token: &str, filename: &str) -> (r: String)
    ensures
        r@ == location_of(token@, filename@),
{
    let mut out = String::from_str(token);
    out.append("/");
    out.append(filename);
    out
}

/// The path on disk of what `location` names under the uploads directory.
pub open spec fn stored_path_of(uploads_dir: Seq<char>, location: Seq<char>) -> Seq<char> {
    trim_end_slashes(uploads_dir) + "/"@ + location
}

/// The path of `location` under `uploads_dir` (also the directory created
/// for a token, given the token as location).
pub fn stored_path(uploads_dir: &str, location: &str) -> (r: String)
    ensures
        r@ == stored_path_of(uploads_dir@, location@),
{
    let mut out = String::from_str(strip_end_slashes(uploads_dir));
    out.append("/");
    out.append(location);
    out
}

/// The file an upload writes, `<uploads>/<token>/<name>`, is the file that
/// deleting its record removes: the stored path of its location.
pub proof fn law_upload_delete_agree(uploads_dir: Seq<char>, token: Seq<char>, filename: Seq<char>)
    ensures
        stored_path_of(uploads_dir, token) + "/"@ + filename
            == stored_path_of(uploads_dir, location_of(token, filename)),
{
    assert(stored_path_of(uploads_dir, token) + "/"@ + filename
        =~= stored_path_of(uploads_dir, location_of(token, filename)));
}

/// Why an upload request is refused.
#[derive(Debug, PartialEq, Eq)]
pub enum UploadError {
    MissingChallengeId,
    NoFiles,
}

/// An upload needs a challenge id and at least one file.
pub fn check_upload(challenge_id: Option<i64>, file_count: usize) -> (r: Result<i64, UploadError>)
    ensures
        challenge_id is None <==> r == Err::<i64, UploadError>(UploadError::MissingChallengeId),
        (challenge_id is Some && file_count == 0) <==> r == Err::<i64, UploadError>(UploadError::NoFiles),
        r matches Ok(id) ==> challenge_id == Some(id),
{
    match challenge_id {
        None => Err(UploadError::MissingChallengeId),
        Some(id) => {
            if file_count == 0 {
                Err(UploadError::NoFiles)
            } else {
                Ok(id)
            }
        },
    }
}

} // verus!
