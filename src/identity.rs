use vstd::prelude::*;

use crate::ids::{id_text, parse_id, uuid_parsed, uuid_text};

verus! {

/// Seconds for which a session credential stays valid: one day.
pub const SESSION_SECONDS: i64 = 86400;

/// Why a caller could not be identified.
#[derive(Clone, Copy, Debug, PartialEq, Eq, Structural)]
pub enum AuthError {
    /// No credential was supplied.
    MissingCredential,
    /// The credential holds bytes outside visible ASCII and tab.
    MalformedCredential,
    /// The credential does not use the `Bearer` scheme.
    InvalidScheme,
    /// The credential's signature or lifetime does not check out.
    InvalidCredential,
    /// The credential's subject is not a user id.
    InvalidSubject,
}

/// The bytes `Bearer ` that open a bearer credential.
pub open spec fn bearer_prefix() -> Seq<u8> {
    seq![66u8, 101u8, 97u8, 114u8, 101u8, 114u8, 32u8]
}

/// A byte that may stand in a header value read as text.
pub open spec fn is_header_text(b: u8) -> bool {
    b == 9 || (32 <= b && b <= 126)
}

/// The outcome of reading a bearer credential from an authorization header.
pub open spec fn bearer_outcome(header: Option<Seq<u8>>) -> Result<Seq<u8>, AuthError> {
    match header {
        None => Err(AuthError::MissingCredential),
        Some(h) => if !(forall|i: int| 0 <= i < h.len() ==> is_header_text(#[trigger] h[i])) {
            Err(AuthError::MalformedCredential)
        } else if h.len() < 7 || h.take(7) != bearer_prefix() {
            Err(AuthError::InvalidScheme)
        } else {
            Ok(h.skip(7))
        },
    }
}

/// The credential that follows `Bearer ` in an authorization header.
pub fn bearer_credential(header: Option<&[u8]>) -> (r: Result<Vec<u8>, AuthError>)
    ensures
        match (r, bearer_outcome(
            match header {
                Some(h) => Some(h@),
                None => None,
            },
        )) {
            (Ok(v), Ok(w)) => v@ == w,
            (Err(e), Err(f)) => e == f,
            _ => false,
        },
{
    let h = match header {
        None => {
            return Err(AuthError::MissingCredential);
        },
        Some(h) => h,
    };
    assert(header == Some(h));
    let mut i: usize = 0;
    while i < h.len()
        invariant
            i <= h@.len(),
            header == Some(h),
            forall|k: int| 0 <= k < i ==> is_header_text(#[trigger] h@[k]),
        decreases h@.len() - i,
    {
        let b = h[i];
        if !(b == 9 || (32 <= b && b <= 126)) {
            proof {
                assert(!is_header_text(h@[i as int]));
                assert(bearer_outcome(Some(h@)) == Err::<Seq<u8>, AuthError>(
                    AuthError::MalformedCredential,
                ));
            }
            return Err(AuthError::MalformedCredential);
        }
        i += 1;
    }
    let prefix: [u8; 7] = [66u8, 101u8, 97u8, 114u8, 101u8, 114u8, 32u8];
    if h.len() < 7 {
        return Err(AuthError::InvalidScheme);
    }
    let mut j: usize = 0;
    while j < 7
        invariant
            j <= 7,
            h@.len() >= 7,
            header == Some(h),
            forall|k: int| 0 <= k < h@.len() ==> is_header_text(#[trigger] h@[k]),
            prefix@ == bearer_prefix(),
            forall|k: int| 0 <= k < j ==> h@[k] == bearer_prefix()[k],
        decreases 7 - j,
    {
        if h[j] != prefix[j] {
            proof {
                assert(h@.take(7)[j as int] != bearer_prefix()[j as int]);
                assert(h@.take(7) != bearer_prefix());
                assert(bearer_outcome(Some(h@)) == Err::<Seq<u8>, AuthError>(
                    AuthError::InvalidScheme,
                ));
            }
            return Err(AuthError::InvalidScheme);
        }
        j += 1;
    }
    proof {
        assert(h@.take(7) =~= bearer_prefix());
    }
    let mut out: Vec<u8> = Vec::new();
    let mut k: usize = 7;
    while k < h.len()
        invariant
            7 <= k <= h@.len(),
            header == Some(h),
            out@ == h@.subrange(7, k as int),
        decreases h@.len() - k,
    {
        out.push(h[k]);
        proof {
            assert(out@ =~= h@.subrange(7, k + 1));
        }
        k += 1;
    }
    proof {
        assert(out@ =~= h@.skip(7));
    }
    Ok(out)
}

/// The user id that a verified credential's subject names.
pub fn subject_user_id(sub: &str) -> (r: Result<u128, AuthError>)
    ensures
        r == (match uuid_parsed(sub@) {
            Some(id) => Ok::<u128, AuthError>(id),
            None => Err(AuthError::InvalidSubject),
        }),
{
    match parse_id(sub) {
        Some(id) => Ok(id),
        None => Err(AuthError::InvalidSubject),
    }
}

/// The claims of a session credential.
#[derive(Clone, Debug)]
pub struct Claims {
    /// The user id, as text.
    pub sub: String,
    /// Expiry, in seconds since the Unix epoch.
    pub exp: usize,
    /// Moment of issue, in seconds since the Unix epoch.
    pub iat: usize,
}

/// `r` is what `Claims::for_user(user_id, now)` returns: claims issued at
/// `now` and valid for one day, where `now` is not before the epoch and the
/// expiry fits in `usize`; none otherwise.
pub open spec fn issued_at(r: Option<Claims>, user_id: u128, now: i64) -> bool {
    &&& (r is Some <==> 0 <= now && now + SESSION_SECONDS <= usize::MAX)
    &&& (r matches Some(c) ==> c.sub@ == uuid_text(user_id) && c.iat == now && c.exp == now
        + SESSION_SECONDS)
}

/// Relies on chrono::Utc::now and `DateTime::timestamp` for the current
/// time in seconds since the Unix epoch. Nothing is promised of its value.
#[verifier::external_body]
fn now_seconds() -> (r: i64) {
    chrono::Utc::now().timestamp()
}

impl Claims {
    /// The claims of a credential for `user_id` issued at `now`, valid for
    /// one day; none where `now` is before the epoch or the expiry does not
    /// fit in `usize`.
    pub fn for_user(user_id: u128, now: i64) -> (r: Option<Claims>)
        ensures
            r is Some <==> 0 <= now && now + SESSION_SECONDS <= usize::MAX,
            r matches Some(c) ==> c.sub@ == uuid_text(user_id) && c.iat == now && c.exp == now
                + SESSION_SECONDS,
    {
        if now < 0 {
            return None;
        }
        let exp: u64 = now as u64 + SESSION_SECONDS as u64;
        if exp > usize::MAX as u64 {
            return None;
        }
        Some(Claims { sub: id_text(user_id), exp: exp as usize, iat: now as usize })
    }

    /// The claims of a credential for `user_id` issued now, valid for one day.
    pub fn issued_now(user_id: u128) -> (r: Option<Claims>)
        ensures
            exists|now: i64| #[trigger] issued_at(r, user_id, now),
    {
        let now = now_seconds();
        let r = Claims::for_user(user_id, now);
        proof {
            assert(issued_at(r, user_id, now));
        }
        r
    }
}

} // verus!
