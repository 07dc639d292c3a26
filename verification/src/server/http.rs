//! The HTTP face of the server: error statuses and messages, the mapping
//! of repository and path errors onto them, request paths and content
//! types.
use vstd::prelude::*;

use crate::path::{
    components_text, lemma_join_ends, lemma_text_reads_back, repo_dir_name, slash, spec_from_url,
    valid_component, valid_components, PathError, WorkspacePath,
};
use crate::server::repository::RepositoryError;
use crate::text::{
    chars_of, contains_chars, contains_seq, has_prefix, has_suffix, is_ws, lemma_trim_keeps,
    lemma_trimmed_ends, starts_with_chars, trim_end_char, trim_end_ws, trim_ws,
};

verus! {

/// An error answered to an HTTP request: a status code and a plain-text
/// message.
#[derive(Debug)]
pub struct HttpError {
    pub status: u16,
    pub message: String,
}

/// The error type of the workspace service; the same as [`HttpError`].
pub type WorkspaceError = HttpError;

impl HttpError {
    /// 400 with `message`.
    pub fn bad_request(message: &str) -> (r: HttpError)
        ensures
            r.status == 400 && r.message@ == message@,
    {
        HttpError { status: 400, message: String::from_str(message) }
    }

    /// 404 with `message`.
    pub fn not_found(message: &str) -> (r: HttpError)
        ensures
            r.status == 404 && r.message@ == message@,
    {
        HttpError { status: 404, message: String::from_str(message) }
    }

    /// 409 with `message`.
    pub fn conflict(message: &str) -> (r: HttpError)
        ensures
            r.status == 409 && r.message@ == message@,
    {
        HttpError { status: 409, message: String::from_str(message) }
    }

    /// 403 with `message`.
    pub fn forbidden(message: &str) -> (r: HttpError)
        ensures
            r.status == 403 && r.message@ == message@,
    {
        HttpError { status: 403, message: String::from_str(message) }
    }

    /// 500 with the error's message.
    pub fn internal(message: &str) -> (r: HttpError)
        ensures
            r.status == 500 && r.message@ == message@,
    {
        HttpError { status: 500, message: String::from_str(message) }
    }

    /// A refused request path is a bad request carrying the path error.
    pub fn from_request_path(error: &PathError) -> (r: HttpError)
        ensures
            r.status == 400 && r.message@ == error.spec_message(),
    {
        let m = error.message();
        HttpError::bad_request(m.as_str())
    }

    /// The answer to a repository error no operation treats specially:
    /// refusals of the path are bad requests, anything else is internal.
    pub fn from_repository_error(error: &RepositoryError) -> (r: HttpError)
        ensures
            r.message@ == error.spec_message(),
            r.status == default_status(*error),
    {
        let m = error.message();
        match error {
            RepositoryError::ReservedPath | RepositoryError::ResolvedPathEscapesRepositoryRoot
            | RepositoryError::SymlinkPathNotAllowed | RepositoryError::NonUtf8Path
            | RepositoryError::InvalidDirectoryEntry => HttpError::bad_request(m.as_str()),
            _ => HttpError::internal(m.as_str()),
        }
    }

    /// The answer to a failed metadata read.
    pub fn from_path_info(error: &RepositoryError) -> (r: HttpError)
        ensures
            match error {
                RepositoryError::FileNotFound | RepositoryError::DirectoryNotFound => r.status == 404
                    && r.message@ == "path not found"@,
                _ => r.status == default_status(*error) && r.message@ == error.spec_message(),
            },
    {
        match error {
            RepositoryError::FileNotFound | RepositoryError::DirectoryNotFound => HttpError::not_found(
                "path not found",
            ),
            _ => HttpError::from_repository_error(error),
        }
    }

    /// The answer to a failed directory listing.
    pub fn from_directory_listing(error: &RepositoryError) -> (r: HttpError)
        ensures
            match error {
                RepositoryError::DirectoryNotFound | RepositoryError::NotDirectory => r.status == 404
                    && r.message@ == "directory not found"@,
                _ => r.status == default_status(*error) && r.message@ == error.spec_message(),
            },
    {
        match error {
            RepositoryError::DirectoryNotFound | RepositoryError::NotDirectory => HttpError::not_found(
                "directory not found",
            ),
            _ => HttpError::from_repository_error(error),
        }
    }

    /// The answer to a failed file read.
    pub fn from_read_file(error: &RepositoryError) -> (r: HttpError)
        ensures
            match error {
                RepositoryError::FileNotFound => r.status == 404 && r.message@ == "path not found"@,
                RepositoryError::PathIsDirectory => r.status == 400 && r.message@
                    == "path is a directory"@,
                _ => r.status == default_status(*error) && r.message@ == error.spec_message(),
            },
    {
        match error {
            RepositoryError::FileNotFound => HttpError::not_found("path not found"),
            RepositoryError::PathIsDirectory => HttpError::bad_request("path is a directory"),
            _ => HttpError::from_repository_error(error),
        }
    }

    /// The answer to a failed file creation.
    pub fn from_create_file(error: &RepositoryError) -> (r: HttpError)
        ensures
            match error {
                RepositoryError::FileAlreadyExists => r.status == 409 && r.message@
                    == "file already exists"@,
                RepositoryError::ParentDirectoryNotFound => r.status == 404 && r.message@
                    == "parent directory not found"@,
                RepositoryError::ParentPathNotDirectory => r.status == 400 && r.message@
                    == "parent path is not a directory"@,
                _ => r.status == default_status(*error) && r.message@ == error.spec_message(),
            },
    {
        match error {
            RepositoryError::FileAlreadyExists => HttpError::conflict("file already exists"),
            RepositoryError::ParentDirectoryNotFound => HttpError::not_found(
                "parent directory not found",
            ),
            RepositoryError::ParentPathNotDirectory => HttpError::bad_request(
                "parent path is not a directory",
            ),
            _ => HttpError::from_repository_error(error),
        }
    }

    /// The answer to a failed directory creation.
    pub fn from_create_directory(error: &RepositoryError) -> (r: HttpError)
        ensures
            match error {
                RepositoryError::DirectoryAlreadyExists => r.status == 409 && r.message@
                    == "directory already exists"@,
                RepositoryError::ParentDirectoryNotFound => r.status == 404 && r.message@
                    == "parent directory not found"@,
                RepositoryError::ParentPathNotDirectory => r.status == 400 && r.message@
                    == "parent path is not a directory"@,
                _ => r.status == default_status(*error) && r.message@ == error.spec_message(),
            },
    {
        match error {
            RepositoryError::DirectoryAlreadyExists => HttpError::conflict("directory already exists"),
            RepositoryError::ParentDirectoryNotFound => HttpError::not_found(
                "parent directory not found",
            ),
            RepositoryError::ParentPathNotDirectory => HttpError::bad_request(
                "parent path is not a directory",
            ),
            _ => HttpError::from_repository_error(error),
        }
    }

    /// The answer to a failed file write.
    pub fn from_write_file(error: &RepositoryError) -> (r: HttpError)
        ensures
            match error {
                RepositoryError::FileNotFound => r.status == 404 && r.message@ == "file not found"@,
                RepositoryError::PathIsDirectory => r.status == 400 && r.message@
                    == "path is a directory"@,
                _ => r.status == default_status(*error) && r.message@ == error.spec_message(),
            },
    {
        match error {
            RepositoryError::FileNotFound => HttpError::not_found("file not found"),
            RepositoryError::PathIsDirectory => HttpError::bad_request("path is a directory"),
            _ => HttpError::from_repository_error(error),
        }
    }

    /// The answer to a failed file deletion.
    pub fn from_delete_file(error: &RepositoryError) -> (r: HttpError)
        ensures
            match error {
                RepositoryError::FileNotFound => r.status == 404 && r.message@ == "file not found"@,
                RepositoryError::PathIsDirectory => r.status == 400 && r.message@
                    == "path is a directory"@,
                _ => r.status == default_status(*error) && r.message@ == error.spec_message(),
            },
    {
        match error {
            RepositoryError::FileNotFound => HttpError::not_found("file not found"),
            RepositoryError::PathIsDirectory => HttpError::bad_request("path is a directory"),
            _ => HttpError::from_repository_error(error),
        }
    }

    /// The answer to a failed directory deletion.
    pub fn from_delete_directory(error: &RepositoryError) -> (r: HttpError)
        ensures
            match error {
                RepositoryError::DirectoryNotFound => r.status == 404 && r.message@
                    == "directory not found"@,
                RepositoryError::PathIsNotDirectory => r.status == 400 && r.message@
                    == "path is not a directory"@,
                RepositoryError::DirectoryNotEmpty => r.status == 409 && r.message@
                    == "directory is not empty"@,
                _ => r.status == default_status(*error) && r.message@ == error.spec_message(),
            },
    {
        match error {
            RepositoryError::DirectoryNotFound => HttpError::not_found("directory not found"),
            RepositoryError::PathIsNotDirectory => HttpError::bad_request("path is not a directory"),
            RepositoryError::DirectoryNotEmpty => HttpError::conflict("directory is not empty"),
            _ => HttpError::from_repository_error(error),
        }
    }
}

/// The status [`HttpError::from_repository_error`] answers `error` with.
pub open spec fn default_status(error: RepositoryError) -> u16 {
    match error {
        RepositoryError::ReservedPath | RepositoryError::ResolvedPathEscapesRepositoryRoot
        | RepositoryError::SymlinkPathNotAllowed | RepositoryError::NonUtf8Path
        | RepositoryError::InvalidDirectoryEntry => 400,
        _ => 500,
    }
}

/// Refusals of the requested path (reserved, escaping, through a symbolic
/// link, not UTF-8, or a bad directory entry) are bad requests; an
/// internal failure is a server error.
pub proof fn lemma_default_statuses(cause: String)
    ensures
        default_status(RepositoryError::ReservedPath) == 400,
        default_status(RepositoryError::ResolvedPathEscapesRepositoryRoot) == 400,
        default_status(RepositoryError::SymlinkPathNotAllowed) == 400,
        default_status(RepositoryError::NonUtf8Path) == 400,
        default_status(RepositoryError::InvalidDirectoryEntry) == 400,
        default_status(RepositoryError::Internal(cause)) == 500,
{
}

/// The URL path for a captured route path: `/` followed by it (`/` for
/// the empty capture).
pub open spec fn spec_request_path(path: Seq<char>) -> Seq<char> {
    seq!['/'] + path
}

/// The URL path for a captured route path.
pub fn request_path(path: &str) -> (r: String)
    ensures
        r@ == spec_request_path(path@),
{
    let mut s = String::from_str("/");
    proof {
        reveal_strlit("/");
    }
    s.append(path);
    s
}

/// The MIME type `mime_guess` associates with the extension of `path`, if
/// any.
pub uninterp spec fn guessed_mime(path: Seq<char>) -> Option<Seq<char>>;

/// Guesses a MIME type by calling `mime_guess::MimeGuess::from_path` and
/// `first_raw`; the contract claims only that the guess is a function of
/// the path text, named `guessed_mime`.
#[verifier::external_body]
fn guess_mime(path: &str) -> (r: Option<String>)
    ensures
        match r {
            Some(m) => guessed_mime(path@) == Some(m@),
            None => guessed_mime(path@) is None,
        },
{
    mime_guess::MimeGuess::from_path(path).first_raw().map(|m| m.to_string())
}

/// The content type served for a path with the given guessed MIME type:
/// `application/octet-stream` when there is none, and text types with
/// `; charset=utf-8` added.
pub open spec fn spec_content_type(guess: Option<Seq<char>>) -> Seq<char> {
    let mime = match guess {
        Some(m) => m,
        None => "application/octet-stream"@,
    };
    if has_prefix(mime, "text/"@) {
        mime + "; charset=utf-8"@
    } else {
        mime
    }
}

/// The content type served for `path`.
pub fn content_type_for_path(path: &WorkspacePath) -> (r: String)
    ensures
        r@ == spec_content_type(guessed_mime(path.text())),
{
    let mime = match guess_mime(path.as_str()) {
        Some(m) => m,
        None => String::from_str("application/octet-stream"),
    };
    let mc = chars_of(mime.as_str());
    let prefix = chars_of("text/");
    if starts_with_chars(&mc, &prefix) {
        let mut s = mime;
        s.append("; charset=utf-8");
        s
    } else {
        mime
    }
}

/// Whether `s` contains `p`.
pub fn text_contains(s: &str, p: &str) -> (r: bool)
    ensures
        r == contains_seq(s@, p@),
{
    let a = chars_of(s);
    let b = chars_of(p);
    contains_chars(&a, &b)
}

/// Whether some message of an error chain contains `needle`.
pub fn error_chain_contains(chain: &Vec<String>, needle: &str) -> (r: bool)
    ensures
        r == exists|i: int| 0 <= i < chain@.len() && contains_seq(#[trigger] chain@[i]@, needle@),
{
    let mut i: usize = 0;
    while i < chain.len()
        invariant
            i <= chain@.len(),
            forall|k: int| 0 <= k < i ==> !contains_seq(#[trigger] chain@[k]@, needle@),
        decreases chain@.len() - i,
    {
        if text_contains(chain[i].as_str(), needle) {
            return true;
        }
        i = i + 1;
    }
    false
}

/// Whether an error message tells of a refused path.
pub open spec fn names_refused_path(message: Seq<char>) -> bool {
    contains_seq(message, "path escapes repository root"@) || contains_seq(
        message,
        "absolute paths are not allowed"@,
    ) || contains_seq(message, "reserved path"@)
}

/// The answer to an error known only by its message: a bad request when
/// it tells of a refused path, otherwise an internal error; the message
/// is kept.
pub fn map_path_error(message: &str) -> (r: HttpError)
    ensures
        r.message@ == message@,
        r.status == (if names_refused_path(message@) {
            400u16
        } else {
            500u16
        }),
{
    if text_contains(message, "path escapes repository root") || text_contains(
        message,
        "absolute paths are not allowed",
    ) || text_contains(message, "reserved path") {
        HttpError::bad_request(message)
    } else {
        HttpError::internal(message)
    }
}

/// The answer to a failed creation of a file, known by its message.
pub fn map_create_error(message: &str) -> (r: HttpError)
    ensures
        if contains_seq(message@, "file already exists"@) {
            r.status == 409 && r.message@ == "file already exists"@
        } else if contains_seq(message@, "parent directory not found"@) {
            r.status == 404 && r.message@ == "parent directory not found"@
        } else if contains_seq(message@, "parent path is not a directory"@) {
            r.status == 400 && r.message@ == "parent path is not a directory"@
        } else {
            r.message@ == message@ && r.status == (if names_refused_path(message@) {
                400u16
            } else {
                500u16
            })
        },
{
    if text_contains(message, "file already exists") {
        return HttpError::conflict("file already exists");
    }
    if text_contains(message, "parent directory not found") {
        return HttpError::not_found("parent directory not found");
    }
    if text_contains(message, "parent path is not a directory") {
        return HttpError::bad_request("parent path is not a directory");
    }
    map_path_error(message)
}

/// The answer to a failed creation of a directory, known by its message.
pub fn map_create_directory_error(message: &str) -> (r: HttpError)
    ensures
        if contains_seq(message@, "directory already exists"@) {
            r.status == 409 && r.message@ == "directory already exists"@
        } else if contains_seq(message@, "parent directory not found"@) {
            r.status == 404 && r.message@ == "parent directory not found"@
        } else if contains_seq(message@, "parent path is not a directory"@) {
            r.status == 400 && r.message@ == "parent path is not a directory"@
        } else {
            r.message@ == message@ && r.status == (if names_refused_path(message@) {
                400u16
            } else {
                500u16
            })
        },
{
    if text_contains(message, "directory already exists") {
        return HttpError::conflict("directory already exists");
    }
    if text_contains(message, "parent directory not found") {
        return HttpError::not_found("parent directory not found");
    }
    if text_contains(message, "parent path is not a directory") {
        return HttpError::bad_request("parent path is not a directory");
    }
    map_path_error(message)
}

/// The answer to a failed write or deletion of a file, known by its
/// message.
pub fn map_write_error(message: &str) -> (r: HttpError)
    ensures
        if contains_seq(message@, "file not found"@) {
            r.status == 404 && r.message@ == "file not found"@
        } else if contains_seq(message@, "path is a directory"@) {
            r.status == 400 && r.message@ == "path is a directory"@
        } else {
            r.message@ == message@ && r.status == (if names_refused_path(message@) {
                400u16
            } else {
                500u16
            })
        },
{
    if text_contains(message, "file not found") {
        return HttpError::not_found("file not found");
    }
    if text_contains(message, "path is a directory") {
        return HttpError::bad_request("path is a directory");
    }
    map_path_error(message)
}

/// The answer to a failed deletion of a file, known by its message (as
/// for a write).
pub fn map_delete_error(message: &str) -> (r: HttpError)
    ensures
        if contains_seq(message@, "file not found"@) {
            r.status == 404 && r.message@ == "file not found"@
        } else if contains_seq(message@, "path is a directory"@) {
            r.status == 400 && r.message@ == "path is a directory"@
        } else {
            r.message@ == message@ && r.status == (if names_refused_path(message@) {
                400u16
            } else {
                500u16
            })
        },
{
    map_write_error(message)
}

/// The answer to a failed deletion of a directory, known by its message.
pub fn map_delete_directory_error(message: &str) -> (r: HttpError)
    ensures
        if contains_seq(message@, "directory not found"@) {
            r.status == 404 && r.message@ == "directory not found"@
        } else if contains_seq(message@, "path is not a directory"@) {
            r.status == 400 && r.message@ == "path is not a directory"@
        } else if contains_seq(message@, "directory is not empty"@) {
            r.status == 409 && r.message@ == "directory is not empty"@
        } else {
            r.message@ == message@ && r.status == (if names_refused_path(message@) {
                400u16
            } else {
                500u16
            })
        },
{
    if text_contains(message, "directory not found") {
        return HttpError::not_found("directory not found");
    }
    if text_contains(message, "path is not a directory") {
        return HttpError::bad_request("path is not a directory");
    }
    if text_contains(message, "directory is not empty") {
        return HttpError::conflict("directory is not empty");
    }
    map_path_error(message)
}

/// The answer to a failed metadata read, known by its message.
pub fn map_metadata_error(message: &str) -> (r: HttpError)
    ensures
        if contains_seq(message@, "No such file"@) || contains_seq(message@, "os error 2"@) {
            r.status == 404 && r.message@ == "path not found"@
        } else {
            r.message@ == message@ && r.status == (if names_refused_path(message@) {
                400u16
            } else {
                500u16
            })
        },
{
    if text_contains(message, "No such file") || text_contains(message, "os error 2") {
        return HttpError::not_found("path not found");
    }
    map_path_error(message)
}

/// The answer to a failed file read, known by the messages of its error
/// chain and its own message.
pub fn map_read_error(chain: &Vec<String>, message: &str) -> (r: HttpError)
    ensures
        if (exists|i: int| 0 <= i < chain@.len() && contains_seq(#[trigger] chain@[i]@, "No such file"@))
            || (exists|i: int| 0 <= i < chain@.len() && contains_seq(#[trigger] chain@[i]@, "os error 2"@)) {
            r.status == 404 && r.message@ == "path not found"@
        } else if (exists|i: int| 0 <= i < chain@.len() && contains_seq(#[trigger] chain@[i]@, "Is a directory"@))
            || (exists|i: int| 0 <= i < chain@.len() && contains_seq(#[trigger] chain@[i]@, "os error 21"@)) {
            r.status == 400 && r.message@ == "path is a directory"@
        } else {
            r.message@ == message@ && r.status == (if names_refused_path(message@) {
                400u16
            } else {
                500u16
            })
        },
{
    if error_chain_contains(chain, "No such file") || error_chain_contains(chain, "os error 2") {
        return HttpError::not_found("path not found");
    }
    if error_chain_contains(chain, "Is a directory") || error_chain_contains(chain, "os error 21") {
        return HttpError::bad_request("path is a directory");
    }
    map_path_error(message)
}

/// The URL path of a repository path leads back to it: the route path of
/// a path outside `.repo`, with a trailing `/` for a directory, is read by
/// `from_url` as that path, unless its text begins or ends with
/// whitespace, which reading trims.
pub proof fn lemma_request_path_reads_back(cs: Seq<Seq<char>>, dir: bool)
    requires
        valid_components(cs),
        cs.len() > 0,
        cs[0] != repo_dir_name(),
        trim_ws(components_text(cs)) == components_text(cs),
    ensures
        spec_from_url(
            spec_request_path(
                components_text(cs) + if dir {
                    slash()
                } else {
                    Seq::empty()
                },
            ),
        ) == Ok::<(Seq<Seq<char>>, bool), PathError>((cs, dir)),
{
    let t = components_text(cs);
    let tail = t + if dir {
        slash()
    } else {
        Seq::<char>::empty()
    };
    let u = spec_request_path(tail);
    lemma_join_ends(cs);
    lemma_trimmed_ends(t);
    lemma_text_reads_back(cs);
    assert(valid_component(cs.last()));
    assert(t.last() != '/') by {
        assert(cs.last().contains(cs.last().last()));
    }
    assert(u.drop_first() =~= tail);
    assert(u.len() >= 2);
    assert(u != slash()) by {
        assert(u.len() != slash().len());
    }
    assert(tail[0] == t[0]);
    if dir {
        assert(tail.last() == '/');
        assert(!is_ws('/'));
    } else {
        assert(tail =~= t);
    }
    lemma_trim_keeps(tail);
    lemma_trim_keeps(u);
    if dir {
        assert(has_suffix(u, slash())) by {
            assert(u.subrange(u.len() - 1, u.len() as int) =~= slash());
        }
        assert(tail.drop_last() =~= t);
        assert(trim_end_char(tail, '/') == trim_end_char(t, '/'));
    } else {
        assert(!has_suffix(u, slash())) by {
            assert(u.subrange(u.len() - 1, u.len() as int)[0] == t.last());
        }
    }
    assert(trim_end_char(t, '/') == t);
}

} // verus!
