//! The identity a request acts as, taken from its `user-identity` header.
use vstd::prelude::*;

use crate::text::{chars_of, string_of_range, trim_bounds, trim_ws};

verus! {

/// Settings for reading identities; there are none at present.
#[derive(Debug, Clone, Copy)]
pub struct IdentityConfig;

impl IdentityConfig {
    /// Loads the identity settings.
    pub fn load() -> (r: IdentityConfig) {
        IdentityConfig
    }
}

/// The identity a request acts as.
#[derive(Debug)]
pub struct UserIdentity {
    value: String,
}

/// The identity attached to an accepted request.
#[derive(Debug)]
pub struct RequestIdentity {
    pub user: UserIdentity,
}

impl View for UserIdentity {
    type V = Seq<char>;

    closed spec fn view(&self) -> Seq<char> {
        self.value@
    }
}

impl UserIdentity {
    /// An identity with the given text.
    pub fn new(value: &str) -> (r: UserIdentity)
        ensures
            r@ == value@,
    {
        UserIdentity { value: String::from_str(value) }
    }

    /// The identity's text.
    pub fn as_str(&self) -> (r: &str)
        ensures
            r@ == self@,
    {
        self.value.as_str()
    }

    /// Whether the identity is the empty text.
    pub fn is_empty(&self) -> (r: bool)
        ensures
            r == (self@.len() == 0),
    {
        self.value.as_str().unicode_len() == 0
    }

    /// The identity named by a `user-identity` header value: the value with
    /// surrounding whitespace removed, or none when no value was sent or
    /// nothing is left after trimming.
    pub fn from_header_value(value: Option<&str>) -> (r: Option<UserIdentity>)
        ensures
            match value {
                None => r is None,
                Some(v) => match r {
                    None => trim_ws(v@).len() == 0,
                    Some(id) => trim_ws(v@).len() > 0 && id@ == trim_ws(v@),
                },
            },
    {
        match value {
            None => None,
            Some(v) => {
                let chars = chars_of(v);
                let (a, b) = trim_bounds(&chars, 0, chars.len());
                assert(chars@.subrange(0, chars@.len() as int) =~= v@);
                if a == b {
                    None
                } else {
                    Some(UserIdentity { value: string_of_range(&chars, a, b) })
                }
            },
        }
    }
}

impl Clone for UserIdentity {
    fn clone(&self) -> (r: Self)
        ensures
            r@ == self@,
    {
        UserIdentity { value: self.value.clone() }
    }
}

/// What the server does with a request given its `user-identity` header:
/// accept it as the identity, or answer 400 with a message.
pub fn capture_identity(header: Option<&str>) -> (r: Result<RequestIdentity, (u16, &'static str)>)
    ensures
        match r {
            Ok(req) => header is Some && trim_ws(header->0@).len() > 0 && req.user@ == trim_ws(
                header->0@,
            ),
            Err((status, message)) => status == 400 && message@ == "missing user-identity header"@
                && (header is None || trim_ws(header->0@).len() == 0),
        },
{
    match UserIdentity::from_header_value(header) {
        Some(user) => Ok(RequestIdentity { user }),
        None => Err((400, "missing user-identity header")),
    }
}

} // verus!
