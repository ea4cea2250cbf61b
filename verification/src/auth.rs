//! Credential configuration and token acceptance.
//!
//! Acquiring the bearer token is the credential provider's work and happens
//! outside the library; what stands here is the decision logic around it:
//! assembling the configuration from the environment's values and judging
//! the token endpoint's response.

use vstd::prelude::*;
use crate::fetch::spec_status_success;

verus! {

/// The three credential values the client-credentials flow needs, as loaded
/// from the process environment.
#[derive(Debug)]
pub struct AuthConfig {
    pub client_id: String,
    pub client_secret: String,
    pub tenant_id: String,
}

/// Which required credential value the environment lacks.
#[derive(Debug)]
pub enum ConfigError {
    MissingClientId,
    MissingClientSecret,
    MissingTenantId,
}

impl AuthConfig {
    /// Builds the configuration from the environment's values.  Succeeds iff
    /// all three are present; otherwise names the first missing one, in the
    /// order the loader reads them.
    pub fn from_values(
        client_id: Option<String>,
        client_secret: Option<String>,
        tenant_id: Option<String>,
    ) -> (r: Result<AuthConfig, ConfigError>)
        ensures
            match r {
                Ok(c) => {
                    &&& client_id matches Some(ci) && c.client_id == ci
                    &&& client_secret matches Some(cs) && c.client_secret == cs
                    &&& tenant_id matches Some(t) && c.tenant_id == t
                },
                Err(e) => match e {
                    ConfigError::MissingClientId => client_id is None,
                    ConfigError::MissingClientSecret => client_id is Some && client_secret is None,
                    ConfigError::MissingTenantId => client_id is Some && client_secret is Some
                        && tenant_id is None,
                },
            },
    {
        let client_id = match client_id {
            Some(v) => v,
            None => {
                return Err(ConfigError::MissingClientId);
            },
        };
        let client_secret = match client_secret {
            Some(v) => v,
            None => {
                return Err(ConfigError::MissingClientSecret);
            },
        };
        let tenant_id = match tenant_id {
            Some(v) => v,
            None => {
                return Err(ConfigError::MissingTenantId);
            },
        };
        Ok(AuthConfig { client_id, client_secret, tenant_id })
    }
}

/// A bearer token, as the fetcher requires it: non-empty.
#[derive(Debug)]
pub struct BearerToken {
    token: String,
}

impl BearerToken {
    /// The token's characters.
    pub closed spec fn spec_token(self) -> Seq<char> {
        self.token@
    }

    /// The fetcher's constraint on tokens: never empty.
    pub closed spec fn wf(self) -> bool {
        self.token@.len() > 0
    }

    /// The token, to attach to a request's authorization header.
    pub fn as_str(&self) -> (r: &str)
        ensures
            r@ == self.spec_token(),
    {
        self.token.as_str()
    }
}

/// Why no token came out of the token endpoint.
#[derive(Debug)]
pub enum AuthError {
    /// A non-success status; carries it and the response body.
    Http { status: u16, body: String },
    /// A success status whose body carried no usable token: undecodable,
    /// without the token field, or with an empty one.
    MissingToken,
}

/// Judges the token endpoint's response: the decoded token field (`None`
/// when the body did not decode or lacked the field) and the body for the
/// diagnostic of a failed request.  Yields the bearer token exactly when the
/// status is a success and the token is present and non-empty.
pub fn accept_token_response(status: u16, token: Option<String>, body: String) -> (r: Result<
    BearerToken,
    AuthError,
>)
    ensures
        match r {
            Ok(t) => {
                &&& t.wf()
                &&& spec_status_success(status)
                &&& token matches Some(s) && t.spec_token() == s@ && s@.len() > 0
            },
            Err(e) => match e {
                AuthError::Http { status: st, body: b } => !spec_status_success(status) && st
                    == status && b@ == body@,
                AuthError::MissingToken => spec_status_success(status) && match token {
                    Some(s) => s@.len() == 0,
                    None => true,
                },
            },
        },
{
    if !(200 <= status && status < 300) {
        return Err(AuthError::Http { status, body });
    }
    match token {
        Some(s) => {
            if s.as_str().is_empty() {
                Err(AuthError::MissingToken)
            } else {
                Ok(BearerToken { token: s })
            }
        },
        None => Err(AuthError::MissingToken),
    }
}

} // verus!
