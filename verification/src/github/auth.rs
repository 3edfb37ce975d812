//! GitHub App authentication: the JWT claims an app signs, the endpoint that
//! trades the JWT for an installation token, and the choice of how the
//! client authenticates.
use vstd::prelude::*;

use jsonwebtoken::{Algorithm, EncodingKey, Header};

use super::api::API_BASE;

verus! {

/// The credentials of a GitHub App installation.
#[derive(Clone)]
pub struct GitHubAppAuth {
    pub app_id: String,
    pub installation_id: String,
    pub private_key: String,
}

impl GitHubAppAuth {
    /// An identical copy.
    pub fn clone_auth(&self) -> (res: Self)
        ensures
            res == *self,
    {
        GitHubAppAuth {
            app_id: self.app_id.clone(),
            installation_id: self.installation_id.clone(),
            private_key: self.private_key.clone(),
        }
    }
}

/// The claims of an app's JWT.
pub struct JwtClaims {
    pub iat: i64,
    pub exp: i64,
    pub iss: String,
}

/// The claims of a JWT made at `now`: issued a minute ago (against clock drift), valid for
/// ten minutes from now, issued by the app.
pub fn jwt_claims(app_id: &str, now: i64) -> (res: JwtClaims)
    requires
        i64::MIN + 60 <= now <= i64::MAX - 600,
    ensures
        res.iat == now - 60,
        res.exp == now + 600,
        res.iss@ == app_id@,
{
    JwtClaims { iat: now - 60, exp: now + 600, iss: String::from_str(app_id) }
}

/// Why signing a JWT failed: the private key was rejected, or encoding failed; each with
/// the error's text.
pub enum JwtError {
    InvalidKey(String),
    Encode(String),
}

/// The text of the error `jsonwebtoken::EncodingKey::from_rsa_pem` gives for a PEM text;
/// `None` when it accepts the key.
pub uninterp spec fn rsa_pem_key_error(pem: Seq<char>) -> Option<Seq<char>>;

/// What `jsonwebtoken::encode` gives, with an RS256 header and the claims `iat`, `exp`,
/// `iss`, for a key that `from_rsa_pem` accepted from `pem`: the token, or the error's text.
pub uninterp spec fn rs256_jwt(iat: i64, exp: i64, iss: Seq<char>, pem: Seq<char>) -> Result<
    Seq<char>,
    Seq<char>,
>;

/// Signs the claims with `EncodingKey::from_rsa_pem` and `jsonwebtoken::encode` (RS256).
/// The claims are a JSON object with `iat`, `exp` and `iss`. The contract claims only that
/// each outcome is a function of the arguments, named [`rsa_pem_key_error`] and
/// [`rs256_jwt`].
#[verifier::external_body]
fn sign_rs256_jwt(iat: i64, exp: i64, iss: &str, pem: &str) -> (res: Result<String, JwtError>)
    ensures
        match res {
            Ok(t) => rsa_pem_key_error(pem@) is None && rs256_jwt(iat, exp, iss@, pem@) == Ok::<
                Seq<char>,
                Seq<char>,
            >(t@),
            Err(JwtError::InvalidKey(m)) => rsa_pem_key_error(pem@) == Some(m@),
            Err(JwtError::Encode(m)) => rsa_pem_key_error(pem@) is None && rs256_jwt(
                iat,
                exp,
                iss@,
                pem@,
            ) == Err::<Seq<char>, Seq<char>>(m@),
        },
{
    let mut claims = serde_json::Map::new();
    claims.insert("iat".to_string(), iat.into());
    claims.insert("exp".to_string(), exp.into());
    claims.insert("iss".to_string(), iss.into());
    let key = EncodingKey::from_rsa_pem(pem.as_bytes()).map_err(|e| JwtError::InvalidKey(e.to_string()))?;
    jsonwebtoken::encode(&Header::new(Algorithm::RS256), &claims, &key).map_err(|e| JwtError::Encode(e.to_string()))
}

/// The JWT an app signs at time `now` (seconds since the epoch): the claims of
/// [`jwt_claims`] signed with RS256 by the app's private key. Fails with
/// `Invalid private key: ` and the error when the key is rejected, and with
/// `JWT encode error: ` and the error when signing fails.
pub fn create_jwt(app_id: &str, private_key_pem: &str, now: i64) -> (res: Result<String, String>)
    requires
        i64::MIN + 60 <= now <= i64::MAX - 600,
    ensures
        match res {
            Ok(t) => rsa_pem_key_error(private_key_pem@) is None && rs256_jwt(
                (now - 60) as i64,
                (now + 600) as i64,
                app_id@,
                private_key_pem@,
            ) == Ok::<Seq<char>, Seq<char>>(t@),
            Err(e) => match rsa_pem_key_error(private_key_pem@) {
                Some(m) => e@ == "Invalid private key: "@ + m,
                None => exists|m: Seq<char>|
                    rs256_jwt(
                        (now - 60) as i64,
                        (now + 600) as i64,
                        app_id@,
                        private_key_pem@,
                    ) == Err::<Seq<char>, Seq<char>>(m) && e@ == "JWT encode error: "@ + m,
            },
        },
{
    let claims = jwt_claims(app_id, now);
    match sign_rs256_jwt(claims.iat, claims.exp, claims.iss.as_str(), private_key_pem) {
        Ok(t) => Ok(t),
        Err(JwtError::InvalidKey(m)) => {
            let mut e = String::from_str("Invalid private key: ");
            e.append(m.as_str());
            Err(e)
        },
        Err(JwtError::Encode(m)) => {
            let mut e = String::from_str("JWT encode error: ");
            e.append(m.as_str());
            Err(e)
        },
    }
}

/// The endpoint that gives an installation token.
pub fn installation_token_url(installation_id: &str) -> (res: String)
    ensures
        res@ == API_BASE@ + "/app/installations/"@ + installation_id@ + "/access_tokens"@,
{
    let mut s = String::from_str(API_BASE);
    s.append("/app/installations/");
    s.append(installation_id);
    s.append("/access_tokens");
    s
}

/// How the client will authenticate, from the command-line options and environment.
pub enum AuthPlan {
    /// A GitHub App whose private key is in this file.
    AppWithKeyFile { app_id: String, installation_id: String, key_file: String },
    /// A GitHub App with its private key.
    App(GitHubAppAuth),
    /// A personal access token.
    Token(String),
    /// App ids were given but no private key.
    MissingPrivateKey,
    /// Nothing to authenticate with.
    NoAuth,
}

/// App authentication when both ids are given (its key from the file, else from the
/// environment); otherwise a personal token when one is given.
pub fn plan_auth(
    app_id: Option<String>,
    installation_id: Option<String>,
    private_key_file: Option<String>,
    private_key_env: Option<String>,
    token: Option<String>,
) -> (res: AuthPlan)
    ensures
        (app_id, installation_id) matches (Some(a), Some(i)) ==> (match (private_key_file, private_key_env) {
            (Some(f), _) => res == AuthPlan::AppWithKeyFile { app_id: a, installation_id: i, key_file: f },
            (None, Some(k)) => res == AuthPlan::App(
                GitHubAppAuth { app_id: a, installation_id: i, private_key: k },
            ),
            (None, None) => res is MissingPrivateKey,
        }),
        !(app_id is Some && installation_id is Some) ==> (match token {
            Some(t) => res == AuthPlan::Token(t),
            None => res is NoAuth,
        }),
{
    match (app_id, installation_id) {
        (Some(a), Some(i)) => match (private_key_file, private_key_env) {
            (Some(f), _) => AuthPlan::AppWithKeyFile { app_id: a, installation_id: i, key_file: f },
            (None, Some(k)) => AuthPlan::App(
                GitHubAppAuth { app_id: a, installation_id: i, private_key: k },
            ),
            (None, None) => AuthPlan::MissingPrivateKey,
        },
        _ => match token {
            Some(t) => AuthPlan::Token(t),
            None => AuthPlan::NoAuth,
        },
    }
}

} // verus!
