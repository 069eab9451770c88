//! API-key checks in front of the endpoints.
use vstd::prelude::*;
use vstd::string::StrSliceExecFns;
use crate::http::error::AppError;
use crate::json::{str_eq, str_starts_with};

verus! {

/// The endpoints that never need a key.
pub open spec fn public_endpoints() -> Seq<Seq<char>> {
    seq!["/health"@, "/v1/health"@, "/models"@, "/v1/models"@]
}

/// The `Authorization` value with a leading `Bearer ` removed.
pub open spec fn strip_bearer(value: Seq<char>) -> Seq<char> {
    if "Bearer "@.is_prefix_of(value) {
        value.subrange(7, value.len() as int)
    } else {
        value
    }
}

/// The key a request presents: the `Authorization` header (a `Bearer `
/// prefix removed) if it is readable, else the `x-api-key` header.
pub open spec fn presented_key_spec(authorization: Option<Seq<char>>, x_api_key: Option<Seq<char>>) -> Option<
    Seq<char>,
> {
    match authorization {
        Some(a) => Some(strip_bearer(a)),
        None => x_api_key,
    }
}

/// Whether a request may go through.
pub open spec fn authorized(
    api_keys: Seq<Seq<char>>,
    path: Seq<char>,
    authorization: Option<Seq<char>>,
    x_api_key: Option<Seq<char>>,
) -> bool {
    ||| api_keys.len() == 0
    ||| public_endpoints().contains(path)
    ||| (presented_key_spec(authorization, x_api_key) matches Some(k) && api_keys.contains(k))
}

/// The views of a list of strings.
pub open spec fn views(v: Seq<String>) -> Seq<Seq<char>> {
    v.map_values(|s: String| s@)
}

/// Whether `path` is one of the public endpoints.
pub fn is_public_endpoint(path: &str) -> (r: bool)
    ensures
        r == public_endpoints().contains(path@),
{
    let r = str_eq(path, "/health") || str_eq(path, "/v1/health") || str_eq(path, "/models")
        || str_eq(path, "/v1/models");
    proof {
        if r {
            if path@ == "/health"@ {
                assert(public_endpoints()[0] == path@);
            } else if path@ == "/v1/health"@ {
                assert(public_endpoints()[1] == path@);
            } else if path@ == "/models"@ {
                assert(public_endpoints()[2] == path@);
            } else {
                assert(public_endpoints()[3] == path@);
            }
        }
    }
    r
}

/// The key a request presents, if any.
pub fn presented_key(authorization: Option<&str>, x_api_key: Option<&str>) -> (r: Option<String>)
    ensures
        r matches Some(k) ==> presented_key_spec(opt_view(authorization), opt_view(x_api_key))
            == Some(k@),
        r is None ==> presented_key_spec(opt_view(authorization), opt_view(x_api_key)) is None,
{
    match authorization {
        Some(a) => {
            if str_starts_with(a, "Bearer ") {
                proof {
                    reveal_strlit("Bearer ");
                }
                let n = a.unicode_len();
                Some(String::from_str(a.substring_char(7, n)))
            } else {
                Some(String::from_str(a))
            }
        },
        None => match x_api_key {
            Some(k) => Some(String::from_str(k)),
            None => None,
        },
    }
}

/// The view of an optional string.
pub open spec fn opt_view(s: Option<&str>) -> Option<Seq<char>> {
    match s {
        Some(t) => Some(t@),
        None => None,
    }
}

/// Lets a request through, or refuses it as unauthorized.
pub fn check_api_key(
    api_keys: &Vec<String>,
    path: &str,
    authorization: Option<&str>,
    x_api_key: Option<&str>,
) -> (r: Result<(), AppError>)
    ensures
        r is Ok <==> authorized(views(api_keys@), path@, opt_view(authorization), opt_view(x_api_key)),
        r matches Err(e) ==> e is Unauthorized,
{
    if api_keys.len() == 0 {
        return Ok(());
    }
    if is_public_endpoint(path) {
        return Ok(());
    }
    let key = match presented_key(authorization, x_api_key) {
        Some(k) => k,
        None => {
            return Err(AppError::Unauthorized);
        },
    };
    let mut i: usize = 0;
    while i < api_keys.len()
        invariant
            i <= api_keys@.len(),
            forall|j: int| 0 <= j < i ==> api_keys@[j]@ != key@,
            presented_key_spec(opt_view(authorization), opt_view(x_api_key)) == Some(key@),
        decreases api_keys@.len() - i,
    {
        if str_eq(api_keys[i].as_str(), key.as_str()) {
            assert(views(api_keys@)[i as int] == key@);
            assert(views(api_keys@).contains(key@));
            return Ok(());
        }
        i = i + 1;
    }
    proof {
        if views(api_keys@).contains(key@) {
            let j = choose|j: int| 0 <= j < views(api_keys@).len() && views(api_keys@)[j] == key@;
            assert(api_keys@[j]@ == key@);
        }
    }
    Err(AppError::Unauthorized)
}

/// With no key configured every request goes through; a public endpoint
/// goes through whatever it presents; elsewhere a request goes through
/// exactly when it presents one of the configured keys.
pub proof fn law_api_key_policy(
    api_keys: Seq<Seq<char>>,
    path: Seq<char>,
    authorization: Option<Seq<char>>,
    x_api_key: Option<Seq<char>>,
)
    ensures
        api_keys.len() == 0 ==> authorized(api_keys, path, authorization, x_api_key),
        public_endpoints().contains(path) ==> authorized(api_keys, path, authorization, x_api_key),
        api_keys.len() > 0 && !public_endpoints().contains(path) ==> (authorized(
            api_keys,
            path,
            authorization,
            x_api_key,
        ) <==> (presented_key_spec(authorization, x_api_key) matches Some(k) && api_keys.contains(k))),
{
}

} // verus!
