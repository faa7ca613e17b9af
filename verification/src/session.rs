//! Decisions of the admin web layer: the checks of a sign-in callback, the
//! cache headers of responses and the redirect of unauthenticated requests.
use crate::deps::string_from_chars;
use crate::errors::SiteError;
use crate::strings::{chars_of, has_prefix, push_all, starts_with, str_chars, str_eq, sub_chars};
use vstd::prelude::*;

verus! {

pub open spec fn opt_seq(o: Option<&str>) -> Option<Seq<char>> {
    match o {
        Some(s) => Some(s@),
        None => None,
    }
}

/// What a sign-in callback comes to before the code exchange: the provider's
/// error (an internal error), a missing code or state or a state other than
/// the one stored in the session, none stored counting as empty (each
/// unauthorized), or the code to exchange. An error is (internal, message).
pub open spec fn callback_outcome(
    error: Option<Seq<char>>,
    error_description: Option<Seq<char>>,
    code: Option<Seq<char>>,
    state: Option<Seq<char>>,
    stored_state: Option<Seq<char>>,
) -> Result<Seq<char>, (bool, Seq<char>)> {
    match error {
        Some(e) => Err(
            (
                true,
                "OIDC error: "@ + e + " "@ + match error_description {
                    Some(d) => d,
                    None => Seq::empty(),
                },
            ),
        ),
        None => match code {
            None => Err((false, "missing authorization code"@)),
            Some(c) => match state {
                None => Err((false, "missing state"@)),
                Some(s) => if (match stored_state {
                    Some(t) => t,
                    None => Seq::empty(),
                }) != s {
                    Err((false, "OIDC state mismatch"@))
                } else {
                    Ok(c)
                },
            },
        },
    }
}

/// Checks a sign-in callback's parameters against the state stored in the
/// session, giving the authorization code to exchange.
pub fn check_oidc_callback(
    error: Option<&str>,
    error_description: Option<&str>,
    code: Option<&str>,
    state: Option<&str>,
    stored_state: Option<&str>,
) -> (r: Result<String, SiteError>)
    ensures
        match callback_outcome(
            opt_seq(error),
            opt_seq(error_description),
            opt_seq(code),
            opt_seq(state),
            opt_seq(stored_state),
        ) {
            Ok(c) => r matches Ok(x) && x@ == c,
            Err((true, msg)) => r matches Err(e) && e == SiteError::Internal(e->Internal_0)
                && e->Internal_0@ == msg,
            Err((false, msg)) => r matches Err(e) && e == SiteError::UnAuthorized(e->UnAuthorized_0)
                && e->UnAuthorized_0@ == msg,
        },
{
    match error {
        Some(e) => {
            let mut msg = chars_of("OIDC error: ");
            push_all(&mut msg, str_chars(e).as_slice());
            msg.push(' ');
            match error_description {
                Some(d) => push_all(&mut msg, str_chars(d).as_slice()),
                None => {},
            }
            proof {
                reveal_strlit(" ");
                assert(msg@ =~= "OIDC error: "@ + e@ + " "@ + match opt_seq(error_description) {
                    Some(d) => d,
                    None => Seq::empty(),
                });
            }
            Err(SiteError::internal(string_from_chars(msg.as_slice())))
        },
        None => {
            let c = match code {
                Some(c) => c,
                None => return Err(SiteError::UnAuthorized("missing authorization code".to_string())),
            };
            let s = match state {
                Some(s) => s,
                None => return Err(SiteError::UnAuthorized("missing state".to_string())),
            };
            let stored = match stored_state {
                Some(t) => t,
                None => "",
            };
            proof {
                reveal_strlit("");
                assert(""@ =~= Seq::<char>::empty());
                assert(stored@ == (match opt_seq(stored_state) {
                    Some(t) => t,
                    None => Seq::empty(),
                }));
            }
            if !str_eq(stored, s) {
                return Err(SiteError::UnAuthorized("OIDC state mismatch".to_string()));
            }
            Ok(c.to_string())
        },
    }
}

/// A sign-in callback succeeds exactly when the provider sent no error, a
/// code and a state, and the state is the one stored in the session.
pub proof fn callback_accepts_matching_state(
    error: Option<Seq<char>>,
    error_description: Option<Seq<char>>,
    code: Option<Seq<char>>,
    state: Option<Seq<char>>,
    stored_state: Option<Seq<char>>,
)
    ensures
        callback_outcome(error, error_description, code, state, stored_state) is Ok <==> (error is None
            && code is Some && state is Some && (match stored_state {
            Some(t) => t,
            None => Seq::empty(),
        }) == state->0),
{
}

/// The cache header of a response in a release build: successful responses
/// whose path holds `/assets/` may be cached privately for five minutes.
pub open spec fn asset_cache_control_of(path: Seq<char>, success: bool) -> Option<Seq<char>> {
    if success && exists|i: int| 0 <= i <= path.len() && #[trigger] starts_with(path.skip(i), "/assets/"@) {
        Some("private, max-age=300"@)
    } else {
        None
    }
}

/// The `Cache-Control` value that a release build adds to a response, if any.
pub fn asset_cache_control(path: &str, success: bool) -> (r: Option<&'static str>)
    ensures
        match r {
            Some(v) => asset_cache_control_of(path@, success) == Some(v@),
            None => asset_cache_control_of(path@, success) is None,
        },
{
    if !success {
        return None;
    }
    let p = str_chars(path);
    let pat = chars_of("/assets/");
    let n = p.len();
    let mut i: usize = 0;
    loop
        invariant
            success,
            p@ == path@,
            pat@ == "/assets/"@,
            n == p@.len(),
            i <= n,
            forall|j: int| 0 <= j < i ==> !#[trigger] starts_with(p@.skip(j), "/assets/"@),
        decreases n - i,
    {
        let rest = sub_chars(p.as_slice(), i, n);
        proof {
            assert(rest@ =~= p@.skip(i as int));
        }
        if has_prefix(rest.as_slice(), pat.as_slice()) {
            proof {
                assert(starts_with(path@.skip(i as int), "/assets/"@));
            }
            return Some("private, max-age=300");
        }
        if i == n {
            return None;
        }
        i = i + 1;
    }
}

/// The headers that a debug or test build sets on every response so that
/// nothing is cached.
pub fn no_store_headers() -> (r: Vec<(&'static str, &'static str)>)
    ensures
        r@.len() == 3,
        r@[0].0@ == "cache-control"@,
        r@[0].1@ == "no-store, no-transform, no-cache, must-revalidate, proxy-revalidate"@,
        r@[1].0@ == "pragma"@,
        r@[1].1@ == "no-cache"@,
        r@[2].0@ == "expires"@,
        r@[2].1@ == "0"@,
{
    let mut r: Vec<(&'static str, &'static str)> = Vec::new();
    r.push(("cache-control", "no-store, no-transform, no-cache, must-revalidate, proxy-revalidate"));
    r.push(("pragma", "no-cache"));
    r.push(("expires", "0"));
    r
}

/// Where a request to the admin area goes when no user is signed in.
pub fn login_redirect(authenticated: bool) -> (r: Option<&'static str>)
    ensures
        authenticated ==> r is None,
        !authenticated ==> (r matches Some(p) && p@ == "/admin/login"@),
{
    if authenticated {
        None
    } else {
        Some("/admin/login")
    }
}

} // verus!
