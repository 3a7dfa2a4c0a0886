//! The management API surface: request routing, the permissions each
//! route demands, percent-decoded path elements, and timestamp parameters.

use vstd::prelude::*;

use crate::clock::now_seconds;

verus! {

/// An error answer of the management API.
pub enum ManagementApiError {
    FieldAlreadyExists { field: String, value: String },
    FieldMissing { field: String },
    NotFound { item: String },
    Unsupported { details: String },
    AssertFailed,
    Other { details: String, reason: Option<String> },
}

/// The request methods the routing distinguishes.
#[derive(Clone, Copy, PartialEq, Eq, Structural, Debug)]
pub enum HttpMethod {
    Get,
    Post,
    Other,
}

/// Where a management request goes.
#[derive(Clone, Copy, PartialEq, Eq, Structural, Debug)]
pub enum ApiRoute {
    Queue,
    Settings,
    Reports,
    Principal,
    Dns,
    Store,
    Reload,
    Dkim,
    Update,
    ViewLogs,
    SpamFilter,
    Restart,
    Oauth,
    CryptoPost,
    CryptoGet,
    AuthGet,
    AuthPost,
    Troubleshoot,
    NotFound,
}

/// The permission a route demands before its handler runs; `None` when
/// the handler checks on its own.
pub open spec fn permission_of(r: ApiRoute) -> Option<Permission> {
    match r {
        ApiRoute::Restart => Some(Permission::Restart),
        ApiRoute::Oauth => Some(Permission::AuthenticateOauth),
        ApiRoute::CryptoPost => Some(Permission::ManageEncryption),
        ApiRoute::CryptoGet => Some(Permission::ManageEncryption),
        ApiRoute::AuthGet => Some(Permission::ManagePasswords),
        ApiRoute::AuthPost => Some(Permission::ManagePasswords),
        ApiRoute::Troubleshoot => Some(Permission::Troubleshoot),
        _ => None,
    }
}

/// A permission that a route may demand of the caller's access token.
#[derive(Clone, Copy, PartialEq, Eq, Structural, Debug)]
pub enum Permission {
    Restart,
    AuthenticateOauth,
    ManageEncryption,
    ManagePasswords,
    Troubleshoot,
}

/// How the first path segment, the second one, and the method pick a
/// route.
pub open spec fn route_spec(first: Seq<char>, second: Seq<char>, m: HttpMethod) -> ApiRoute {
    if first == "queue"@ {
        ApiRoute::Queue
    } else if first == "settings"@ {
        ApiRoute::Settings
    } else if first == "reports"@ {
        ApiRoute::Reports
    } else if first == "principal"@ {
        ApiRoute::Principal
    } else if first == "dns"@ {
        ApiRoute::Dns
    } else if first == "store"@ {
        ApiRoute::Store
    } else if first == "reload"@ {
        ApiRoute::Reload
    } else if first == "dkim"@ {
        ApiRoute::Dkim
    } else if first == "update"@ {
        ApiRoute::Update
    } else if first == "logs"@ && m is Get {
        ApiRoute::ViewLogs
    } else if first == "spam-filter"@ {
        ApiRoute::SpamFilter
    } else if first == "restart"@ && m is Get {
        ApiRoute::Restart
    } else if first == "oauth"@ {
        ApiRoute::Oauth
    } else if first == "account"@ {
        if second == "crypto"@ && m is Post {
            ApiRoute::CryptoPost
        } else if second == "crypto"@ && m is Get {
            ApiRoute::CryptoGet
        } else if second == "auth"@ && m is Get {
            ApiRoute::AuthGet
        } else if second == "auth"@ && m is Post {
            ApiRoute::AuthPost
        } else {
            ApiRoute::NotFound
        }
    } else if first == "troubleshoot"@ {
        ApiRoute::Troubleshoot
    } else {
        ApiRoute::NotFound
    }
}

/// Picks the route of a management request from its first two path
/// segments and its method.
pub fn route_api_request(first: &String, second: &String, m: HttpMethod) -> (r: ApiRoute)
    ensures
        r == route_spec(first@, second@, m),
{
    if *first == "queue".to_owned() {
        ApiRoute::Queue
    } else if *first == "settings".to_owned() {
        ApiRoute::Settings
    } else if *first == "reports".to_owned() {
        ApiRoute::Reports
    } else if *first == "principal".to_owned() {
        ApiRoute::Principal
    } else if *first == "dns".to_owned() {
        ApiRoute::Dns
    } else if *first == "store".to_owned() {
        ApiRoute::Store
    } else if *first == "reload".to_owned() {
        ApiRoute::Reload
    } else if *first == "dkim".to_owned() {
        ApiRoute::Dkim
    } else if *first == "update".to_owned() {
        ApiRoute::Update
    } else if *first == "logs".to_owned() && matches!(m, HttpMethod::Get) {
        ApiRoute::ViewLogs
    } else if *first == "spam-filter".to_owned() {
        ApiRoute::SpamFilter
    } else if *first == "restart".to_owned() && matches!(m, HttpMethod::Get) {
        ApiRoute::Restart
    } else if *first == "oauth".to_owned() {
        ApiRoute::Oauth
    } else if *first == "account".to_owned() {
        if *second == "crypto".to_owned() && matches!(m, HttpMethod::Post) {
            ApiRoute::CryptoPost
        } else if *second == "crypto".to_owned() && matches!(m, HttpMethod::Get) {
            ApiRoute::CryptoGet
        } else if *second == "auth".to_owned() && matches!(m, HttpMethod::Get) {
            ApiRoute::AuthGet
        } else if *second == "auth".to_owned() && matches!(m, HttpMethod::Post) {
            ApiRoute::AuthPost
        } else {
            ApiRoute::NotFound
        }
    } else if *first == "troubleshoot".to_owned() {
        ApiRoute::Troubleshoot
    } else {
        ApiRoute::NotFound
    }
}

/// The permission a route demands; `None` when its handler checks on its
/// own.
pub fn required_permission(r: ApiRoute) -> (p: Option<Permission>)
    ensures
        p == permission_of(r),
{
    match r {
        ApiRoute::Restart => Some(Permission::Restart),
        ApiRoute::Oauth => Some(Permission::AuthenticateOauth),
        ApiRoute::CryptoPost => Some(Permission::ManageEncryption),
        ApiRoute::CryptoGet => Some(Permission::ManageEncryption),
        ApiRoute::AuthGet => Some(Permission::ManagePasswords),
        ApiRoute::AuthPost => Some(Permission::ManagePasswords),
        ApiRoute::Troubleshoot => Some(Permission::Troubleshoot),
        _ => None,
    }
}

/// The percent-decoded key of the first form pair of a path element, as
/// form_urlencoded parses it.
pub uninterp spec fn form_first_key(s: Seq<char>) -> Option<Seq<char>>;

/// Relies on form_urlencoded::parse: yields the percent-decoded key of
/// the first key-value pair, a pure function of the input; an empty input
/// yields no pair.
#[verifier::external_body]
fn parse_first_key(item: &str) -> (r: Option<String>)
    ensures
        (r is Some) == (form_first_key(item@) is Some),
        r matches Some(k) ==> form_first_key(item@) == Some(k@),
        item@.len() == 0 ==> r is None,
{
    form_urlencoded::parse(item.as_bytes()).next().map(|(k, _)| k.into_owned())
}

/// A path element with its form encoding undone; an element that decodes
/// to nothing is passed through as it came.
pub fn decode_path_element(item: &str) -> (r: String)
    ensures
        r@ == match form_first_key(item@) {
            Some(k) => k,
            None => item@,
        },
{
    match parse_first_key(item) {
        Some(k) => k,
        None => item.to_owned(),
    }
}

/// The seconds since the Unix epoch that an RFC 3339 date names, or
/// nothing for text that is no such date.
pub uninterp spec fn rfc3339_seconds(s: Seq<char>) -> Option<i64>;

/// Relies on mail_parser's DateTime::parse_rfc3339 and DateTime::to_timestamp:
/// together a pure function from the date text to its epoch seconds.
#[verifier::external_body]
fn parse_rfc3339_seconds(s: &str) -> (r: Option<i64>)
    ensures
        r == rfc3339_seconds(s@),
{
    mail_parser::DateTime::parse_rfc3339(s).map(|dt| dt.to_timestamp())
}

/// A point in time given as a request parameter, in epoch seconds.
pub struct Timestamp(pub u64);

/// A point in time given as a request parameter that must not lie in the
/// past, in epoch seconds.
pub struct FutureTimestamp(pub u64);

impl Timestamp {
    /// Reads an RFC 3339 date; succeeds exactly on text that names one.
    pub fn parse(s: &str) -> (r: Option<Timestamp>)
        ensures
            (r is Some) == (rfc3339_seconds(s@) is Some),
            r matches Some(t) ==> rfc3339_seconds(s@) matches Some(ts) && t.0 == ts as u64,
    {
        match parse_rfc3339_seconds(s) {
            Some(ts) => Some(Timestamp(ts as u64)),
            None => None,
        }
    }

    pub fn into_inner(self) -> (r: u64)
        ensures
            r == self.0,
    {
        self.0
    }
}

impl FutureTimestamp {
    /// Accepts an instant at or after `now`, rejects one before it.
    pub fn from_instant(instant: u64, now: u64) -> (r: Option<FutureTimestamp>)
        ensures
            r is Some <==> instant >= now,
            r matches Some(t) ==> t.0 == instant,
    {
        if instant >= now {
            Some(FutureTimestamp(instant))
        } else {
            None
        }
    }

    /// Reads an RFC 3339 date and accepts it only when it does not lie
    /// before the current time.
    pub fn parse(s: &str) -> (r: Option<FutureTimestamp>)
        ensures
            r is Some ==> rfc3339_seconds(s@) is Some,
            r matches Some(t) ==> rfc3339_seconds(s@) matches Some(ts) && t.0 == ts as u64,
            rfc3339_seconds(s@) is None ==> r is None,
    {
        match parse_rfc3339_seconds(s) {
            Some(ts) => {
                let instant = ts as u64;
                let now = now_seconds();
                FutureTimestamp::from_instant(instant, now)
            },
            None => None,
        }
    }

    pub fn into_inner(self) -> (r: u64)
        ensures
            r == self.0,
    {
        self.0
    }
}

} // verus!
