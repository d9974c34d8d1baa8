//! The web front end's side of the requests: where a request is sent, and the
//! access token that protected requests carry.
use vstd::prelude::*;
use crate::text::str_eq;

verus! {

/// Whether a request of the back end needs an access token.
#[derive(Debug, Clone, Copy, PartialEq, Eq, Structural)]
pub enum AccessPolicy {
    Public,
    Token,
}

/// The back end that the browser app is served with, while running locally.
pub open spec fn local_backend_url() -> Seq<char> {
    "http://127.0.0.1:3000"@
}

/// The header that carries the access token.
pub fn access_token_header() -> (r: &'static str)
    ensures
        r@ == "x-tallytail-access-token"@,
{
    "x-tallytail-access-token"
}

/// The page is served by a development server on this machine: the host is
/// `127.0.0.1` or `localhost` and the port is not the back end's, `3000`.
pub open spec fn served_locally(hostname: Seq<char>, port: Seq<char>) -> bool {
    (hostname == "127.0.0.1"@ || hostname == "localhost"@) && port != "3000"@
}

/// The URL of `request`: under the local back end where the page is served
/// locally by another server, else under the page's origin.
pub open spec fn request_url_text(hostname: Seq<char>, port: Seq<char>, origin: Seq<char>, request: Seq<char>) -> Seq<char> {
    if served_locally(hostname, port) {
        local_backend_url() + "/"@ + request
    } else {
        origin + "/"@ + request
    }
}

/// The URL of `request`, given the host name, port and origin of the page.
pub fn request_url(hostname: &str, port: &str, origin: &str, request: &str) -> (r: String)
    ensures
        r@ == request_url_text(hostname@, port@, origin@, request@),
{
    let local = (str_eq(hostname, "127.0.0.1") || str_eq(hostname, "localhost")) && !str_eq(port, "3000");
    let base = if local {
        "http://127.0.0.1:3000".to_owned()
    } else {
        origin.to_owned()
    };
    base.concat("/").concat(request)
}

/// The errors of starting a request.
#[derive(Debug, Clone, Copy, PartialEq, Eq, Structural)]
pub enum WebRequestError {
    /// A protected request was started before the app was unlocked.
    UnlockRequired,
}

impl WebRequestError {
    /// The text of the error.
    pub fn message(&self) -> (r: String)
        ensures
            r@ == "Unlock required"@,
    {
        "Unlock required".to_owned()
    }
}

/// The state of the web front end's back end: the access token that the last
/// unlock granted, if any.
pub struct WebBackend {
    access_token: Option<String>,
}

impl WebBackend {
    /// The access token held, as text.
    pub closed spec fn token(&self) -> Option<Seq<char>> {
        match self.access_token {
            Some(t) => Some(t@),
            None => None,
        }
    }

    /// A back end that holds no access token yet.
    pub fn new() -> (r: Self)
        ensures
            r.token() is None,
    {
        WebBackend { access_token: None }
    }

    /// Keeps the access token of a granted unlock, in place of any earlier one.
    pub fn store_access_token(&mut self, access_token: String)
        ensures
            final(self).token() == Some(access_token@),
    {
        self.access_token = Some(access_token);
    }

    /// The access token that a request of `policy` carries: none for a public
    /// request; for a protected one the token held, or an error when there is
    /// none.
    pub fn request_token(&self, policy: AccessPolicy) -> (r: Result<Option<String>, WebRequestError>)
        ensures
            match policy {
                AccessPolicy::Public => r matches Ok(None),
                AccessPolicy::Token => match self.token() {
                    Some(t) => r matches Ok(Some(s)) && s@ == t,
                    None => r == Err::<Option<String>, WebRequestError>(WebRequestError::UnlockRequired),
                },
            },
    {
        match policy {
            AccessPolicy::Public => Ok(None),
            AccessPolicy::Token => match &self.access_token {
                Some(t) => Ok(Some(t.clone())),
                None => Err(WebRequestError::UnlockRequired),
            },
        }
    }
}

} // verus!
