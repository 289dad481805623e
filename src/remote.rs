//! Decisions of the cloud copy of the data directory: whether a stored
//! access token can still be used, which remote file a local one matches,
//! and which of two copies is newer.
use vstd::prelude::*;

verus! {

/// The tokens of the cloud account; `received_at` is in seconds since the
/// Unix epoch and `expires_in` in seconds.
pub struct GoogleTokens {
    pub access_token: String,
    pub refresh_token: String,
    pub expires_in: u64,
    pub token_type: String,
    pub received_at: u64,
}

/// A file of the remote folder; `modified_time` is an RFC 3339 timestamp.
pub struct DriveFile {
    pub id: String,
    pub name: String,
    pub modified_time: String,
}

/// An access token is used while more than a minute of its lifetime is
/// left at `now` (seconds since the Unix epoch).
pub open spec fn token_fresh(t: GoogleTokens, now: int) -> bool {
    now < t.received_at + t.expires_in - 60
}

impl GoogleTokens {
    /// Whether the access token can still be used at `now`, or must be
    /// refreshed first.
    pub fn is_fresh(&self, now: u64) -> (r: bool)
        ensures
            r == token_fresh(*self, now as int),
    {
        (now as u128) + 60 < (self.received_at as u128) + (self.expires_in as u128)
    }
}

/// The first remote file named `name`.
pub fn find_remote(files: &Vec<DriveFile>, name: &String) -> (r: Option<usize>)
    ensures
        r matches Some(k) ==> k < files@.len() && files@[k as int].name@ == name@,
        r matches Some(k) ==> forall|j: int| 0 <= j < k ==> #[trigger] files@[j].name@ != name@,
        r is None ==> forall|j: int| 0 <= j < files@.len() ==> #[trigger] files@[j].name@ != name@,
{
    let mut i: usize = 0;
    while i < files.len()
        invariant
            0 <= i <= files@.len(),
            forall|j: int| 0 <= j < i ==> #[trigger] files@[j].name@ != name@,
        decreases files@.len() - i,
    {
        if files[i].name.eq(name) {
            return Some(i);
        }
        i = i + 1;
    }
    None
}

/// An instant as whole seconds since the Unix epoch and nanoseconds past
/// them.
pub open spec fn later(a: (i64, u32), b: (i64, u32)) -> bool {
    a.0 > b.0 || (a.0 == b.0 && a.1 > b.1)
}

/// The instant that an RFC 3339 timestamp names, or `None` when the text is
/// not such a timestamp.
pub uninterp spec fn rfc3339_instant(s: Seq<char>) -> Option<(i64, u32)>;

/// Relies on chrono's `DateTime::parse_from_rfc3339`, read back with
/// `timestamp` and `timestamp_subsec_nanos`; the result depends on the text
/// alone.
#[verifier::external_body]
fn parse_rfc3339(s: &str) -> (r: Option<(i64, u32)>)
    ensures
        r == rfc3339_instant(s@),
{
    match chrono::DateTime::parse_from_rfc3339(s) {
        Ok(t) => Some((t.timestamp(), t.timestamp_subsec_nanos())),
        Err(_) => None,
    }
}

/// Whether a remote copy modified at `remote` is to replace the local copy
/// modified at `local`: always when there is no local copy, else when the
/// remote one is later.
pub fn remote_newer_than(remote: (i64, u32), local: Option<(i64, u32)>) -> (r: bool)
    ensures
        r == match local {
            None => true,
            Some(l) => later(remote, l),
        },
{
    match local {
        None => true,
        Some(l) => remote.0 > l.0 || (remote.0 == l.0 && remote.1 > l.1),
    }
}

/// Whether the remote copy, whose modification time is the RFC 3339 text
/// `remote_modified_time`, is newer than the local copy modified at `local`;
/// a remote time that cannot be read counts as `now`.
pub fn is_remote_newer(local: Option<(i64, u32)>, remote_modified_time: &str, now: (i64, u32)) -> (r: bool)
    ensures
        r == match local {
            None => true,
            Some(l) => later(
                match rfc3339_instant(remote_modified_time@) {
                    Some(t) => t,
                    None => now,
                },
                l,
            ),
        },
{
    let remote = match parse_rfc3339(remote_modified_time) {
        Some(t) => t,
        None => now,
    };
    remote_newer_than(remote, local)
}

} // verus!
