//! The parts of the application's configuration that this core reads.
use crate::secret::Secret;
use vstd::prelude::*;

verus! {

/// The two signing keys of the token codec.
pub struct TokenSecretsConfig {
    access_secret: Secret<String>,
    refresh_secret: Secret<String>,
}

impl TokenSecretsConfig {
    pub closed spec fn spec_access(&self) -> Seq<char> {
        self.access_secret.inner()@
    }

    pub closed spec fn spec_refresh(&self) -> Seq<char> {
        self.refresh_secret.inner()@
    }

    pub fn new(access_secret: String, refresh_secret: String) -> (r: Self)
        ensures
            r.spec_access() == access_secret@,
            r.spec_refresh() == refresh_secret@,
    {
        TokenSecretsConfig { access_secret: Secret::new(access_secret), refresh_secret: Secret::new(refresh_secret) }
    }

    pub fn access_secret(&self) -> (r: &str)
        ensures
            r@ == self.spec_access(),
    {
        self.access_secret.expose().as_str()
    }

    pub fn refresh_secret(&self) -> (r: &str)
        ensures
            r@ == self.spec_refresh(),
    {
        self.refresh_secret.expose().as_str()
    }
}

pub struct SecretsConfig {
    tokens: TokenSecretsConfig,
}

impl SecretsConfig {
    pub closed spec fn spec_tokens(&self) -> &TokenSecretsConfig {
        &self.tokens
    }

    pub fn new(tokens: TokenSecretsConfig) -> (r: Self)
        ensures
            *r.spec_tokens() == tokens,
    {
        SecretsConfig { tokens }
    }

    pub fn tokens(&self) -> (r: &TokenSecretsConfig)
        ensures
            *r == *self.spec_tokens(),
    {
        &self.tokens
    }
}

pub struct AppConfig {
    secrets: SecretsConfig,
}

impl AppConfig {
    pub closed spec fn spec_secrets(&self) -> &SecretsConfig {
        &self.secrets
    }

    pub fn new(secrets: SecretsConfig) -> (r: Self)
        ensures
            *r.spec_secrets() == secrets,
    {
        AppConfig { secrets }
    }

    pub fn secrets(&self) -> (r: &SecretsConfig)
        ensures
            *r == *self.spec_secrets(),
    {
        &self.secrets
    }
}

/// How settings are read from the environment: variables named
/// `<prefix><separator><section><separator><key>`, values parsed where they
/// look like numbers or booleans.
pub struct EnvSource {
    pub prefix: String,
    pub separator: String,
    pub try_parsing: bool,
}

/// The environment source of this application's settings.
pub fn env_source() -> (r: EnvSource)
    ensures
        r.prefix@ == "RHFS"@,
        r.separator@ == "__"@,
        r.try_parsing,
{
    EnvSource { prefix: String::from_str("RHFS"), separator: String::from_str("__"), try_parsing: true }
}

} // verus!
