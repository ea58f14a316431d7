use vstd::prelude::*;
use crate::text::chars_of;
use crate::text::string_from;
use crate::text::has_prefix;
use crate::text::slice_chars;
use crate::text::str_eq;
use crate::text::starts_with;
use crate::cms::auth::HeaderText;

verus! {

/// The token of an `Authorization: Bearer TOKEN` header; nothing for any
/// other header, an unreadable one, or none.
pub open spec fn bearer_of(authorization: HeaderText) -> Option<Seq<char>> {
    match authorization {
        HeaderText::Text(a) => if starts_with(a@, "Bearer "@) {
            Some(a@.skip(7))
        } else {
            None
        },
        _ => None,
    }
}

/// Reads the bearer token of a request.
pub fn extract_token(authorization: &HeaderText) -> (r: Option<String>)
    ensures
        match r {
            Some(t) => bearer_of(*authorization) == Some(t@),
            None => bearer_of(*authorization) is None,
        },
{
    match authorization {
        HeaderText::Text(a) => {
            let c = chars_of(a.as_str());
            proof {
                reveal_strlit("Bearer ");
            }
            if has_prefix(&c, &chars_of("Bearer ")) {
                let t = slice_chars(&c, 7, c.len());
                assert(t@ =~= a@.skip(7));
                Some(string_from(&t))
            } else {
                None
            }
        },
        _ => None,
    }
}

/// Why the administrator check refuses a request.
#[derive(Debug, Clone, Copy, PartialEq, Eq, Structural)]
pub enum AccessError {
    /// No authenticated user (answered 401).
    Unauthorized,
    /// The user is no administrator (answered 403).
    Forbidden,
}

impl AccessError {
    /// The HTTP status of the refusal.
    pub fn status_code(&self) -> (r: u16)
        ensures
            r == (if *self == AccessError::Unauthorized { 401u16 } else { 403u16 }),
    {
        match self {
            AccessError::Unauthorized => 401,
            AccessError::Forbidden => 403,
        }
    }
}

/// Admits administrators only; `role` is that of the authenticated user.
pub fn require_admin(role: Option<&str>) -> (r: Result<(), AccessError>)
    ensures
        r == match role {
            None => Err(AccessError::Unauthorized),
            Some(x) => if x@ == "admin"@ {
                Ok(())
            } else {
                Err(AccessError::Forbidden)
            },
        },
{
    match role {
        None => Err(AccessError::Unauthorized),
        Some(x) => if str_eq(x, "admin") {
            Ok(())
        } else {
            Err(AccessError::Forbidden)
        },
    }
}

} // verus!
