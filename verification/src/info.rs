//! What the info endpoint reports about a path.
use vstd::prelude::*;

verus! {

/// Whether a path is a file or a directory.
#[derive(Debug, Clone, Copy, PartialEq, Eq, Structural)]
pub enum PathInfoKind {
    File,
    Directory,
}

/// The facts reported about one path.
#[derive(Debug)]
pub struct PathInfo {
    pub path: String,
    pub kind: PathInfoKind,
    pub size: Option<u64>,
    /// The modification time in RFC 3339 form.
    pub modified_at: Option<String>,
    pub readonly: bool,
}

/// The RFC 3339 text of the instant `nanos` nanoseconds after the Unix
/// epoch, in UTC, or none when the `time` crate cannot represent or
/// format it.
pub uninterp spec fn rfc3339_text(nanos: int) -> Option<Seq<char>>;

/// Formats an instant given in nanoseconds since the Unix epoch by calling
/// `time::OffsetDateTime::from_unix_timestamp_nanos` and then `format`
/// with the RFC 3339 description; the contract claims only that the
/// outcome is a function of `nanos`, named `rfc3339_text`.
#[verifier::external_body]
fn format_unix_nanos(nanos: i128) -> (r: Option<String>)
    ensures
        match r {
            Some(s) => rfc3339_text(nanos as int) == Some(s@),
            None => rfc3339_text(nanos as int) is None,
        },
{
    let datetime = time::OffsetDateTime::from_unix_timestamp_nanos(nanos).ok()?;
    datetime.format(&time::format_description::well_known::Rfc3339).ok()
}

/// The modification time as reported: the RFC 3339 text of the instant,
/// when there is one and it can be formatted.
pub open spec fn spec_modified_text(modified_at: Option<i128>) -> Option<Seq<char>> {
    match modified_at {
        Some(n) => rfc3339_text(n as int),
        None => None,
    }
}

impl PathInfo {
    /// The facts about `path`; `modified_at` is the modification time in
    /// nanoseconds since the Unix epoch.
    pub fn new(
        path: &str,
        kind: PathInfoKind,
        size: Option<u64>,
        modified_at: Option<i128>,
        readonly: bool,
    ) -> (r: PathInfo)
        ensures
            r.path@ == path@,
            r.kind == kind,
            r.size == size,
            match r.modified_at {
                Some(t) => spec_modified_text(modified_at) == Some(t@),
                None => spec_modified_text(modified_at) is None,
            },
            r.readonly == readonly,
    {
        let modified = match modified_at {
            Some(n) => format_unix_nanos(n),
            None => None,
        };
        PathInfo { path: String::from_str(path), kind, size, modified_at: modified, readonly }
    }
}

} // verus!
