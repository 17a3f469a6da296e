//! What a deployment fixes: hosts, paths, and the defaults that each request
//! carries beside the caller's parameters.

use crate::operation::Operation;
use vstd::prelude::*;
use vstd::string::StringExecFns;

verus! {

/// How a proved range check asks the proof service.
#[derive(Clone, Copy, Debug, PartialEq, Eq, Structural)]
pub enum ProofPolicy {
    /// One request that carries the balance and both bounds.
    SingleValue,
    /// Two requests, one for the lower bound and one for the upper bound,
    /// each carrying the balance.
    SplitBound,
}

/// The fixed values of a deployment.
#[derive(Debug)]
pub struct Settings {
    /// The provider's host.
    pub provider_host: String,
    /// The provider's port.
    pub provider_port: u16,
    /// The path that creates a link token.
    pub link_token_path: String,
    /// The path that exchanges a public token.
    pub exchange_path: String,
    /// The path that reads account balances.
    pub balance_path: String,
    /// The path that issues a public token of the sandbox.
    pub sandbox_public_token_path: String,
    /// The path that exchanges a public token of the sandbox.
    pub sandbox_exchange_path: String,
    /// The proof service's host.
    pub proof_host: String,
    /// The proof service's port.
    pub proof_port: u16,
    /// The path of the proof service's range proof.
    pub proof_path: String,
    /// How the proof service is asked.
    pub proof_policy: ProofPolicy,
    /// The `User-Agent` header of every request.
    pub user_agent: String,
    /// The `Accept` header of every request.
    pub accept: String,
    /// The `Content-Type` header of every request with a body.
    pub content_type: String,
    /// The client name of a link token.
    pub client_name: String,
    /// The product asked for.
    pub product: String,
    /// The country code of a link token.
    pub country_code: String,
    /// The language of a link token.
    pub language: String,
    /// The webhook of a sandbox token.
    pub webhook: String,
    /// The user name that a sandbox token overrides.
    pub override_username: String,
    /// The password that a sandbox token overrides.
    pub override_password: String,
}

impl Settings {
    /// Whether these are the settings of the provider's sandbox.
    pub open spec fn is_sandbox(self) -> bool {
        &&& self.provider_host@ == "sandbox.plaid.com"@
        &&& self.provider_port == 443
        &&& self.link_token_path@ == "/link/token/create"@
        &&& self.exchange_path@ == "/item/public_token/exchange"@
        &&& self.balance_path@ == "/accounts/balance/get"@
        &&& self.sandbox_public_token_path@ == "/sandbox/public_token/create"@
        &&& self.sandbox_exchange_path@ == "/item/public_token/exchange"@
        &&& self.proof_host@ == "clique-sign-claim"@
        &&& self.proof_port == 12341
        &&& self.proof_path@ == "/zkRangeProof"@
        &&& self.user_agent@ == "curl/7.79.1"@
        &&& self.accept@ == "*/*"@
        &&& self.content_type@ == "application/json"@
        &&& self.client_name@ == "Clique2046"@
        &&& self.product@ == "auth"@
        &&& self.country_code@ == "US"@
        &&& self.language@ == "en"@
        &&& self.webhook@ == "https://eoti3zo8yt7vmo.m.pipedream.net"@
        &&& self.override_username@ == "user_good"@
        &&& self.override_password@ == "pass_good"@
    }

    /// The settings of the provider's sandbox, with the given proof policy.
    pub fn sandbox(proof_policy: ProofPolicy) -> (r: Settings)
        ensures
            r.is_sandbox(),
            r.proof_policy == proof_policy,
    {
        Settings {
            provider_host: String::from_str("sandbox.plaid.com"),
            provider_port: 443,
            link_token_path: String::from_str("/link/token/create"),
            exchange_path: String::from_str("/item/public_token/exchange"),
            balance_path: String::from_str("/accounts/balance/get"),
            sandbox_public_token_path: String::from_str("/sandbox/public_token/create"),
            sandbox_exchange_path: String::from_str("/item/public_token/exchange"),
            proof_host: String::from_str("clique-sign-claim"),
            proof_port: 12341,
            proof_path: String::from_str("/zkRangeProof"),
            proof_policy,
            user_agent: String::from_str("curl/7.79.1"),
            accept: String::from_str("*/*"),
            content_type: String::from_str("application/json"),
            client_name: String::from_str("Clique2046"),
            product: String::from_str("auth"),
            country_code: String::from_str("US"),
            language: String::from_str("en"),
            webhook: String::from_str("https://eoti3zo8yt7vmo.m.pipedream.net"),
            override_username: String::from_str("user_good"),
            override_password: String::from_str("pass_good"),
        }
    }

    /// The provider path of an operation; `None` of the one operation that
    /// asks the provider nothing.
    pub open spec fn path_of(self, op: Operation) -> Option<Seq<char>> {
        match op {
            Operation::LinkToken => Some(self.link_token_path@),
            Operation::ExchangeAccessToken => Some(self.exchange_path@),
            Operation::BalanceRange => Some(self.balance_path@),
            Operation::BalanceRangeProof => Some(self.balance_path@),
            Operation::SandboxPublicToken => Some(self.sandbox_public_token_path@),
            Operation::SandboxPublicTokenEncryptedSecret => Some(
                self.sandbox_public_token_path@,
            ),
            Operation::SandboxExchangeAccessToken => Some(self.sandbox_exchange_path@),
            Operation::PublicKeyExport => None,
        }
    }

    /// The provider path of an operation.
    pub fn path(&self, op: Operation) -> (r: Option<&str>)
        ensures
            match r {
                Some(p) => self.path_of(op) == Some(p@),
                None => self.path_of(op) is None,
            },
    {
        match op {
            Operation::LinkToken => Some(self.link_token_path.as_str()),
            Operation::ExchangeAccessToken => Some(self.exchange_path.as_str()),
            Operation::BalanceRange => Some(self.balance_path.as_str()),
            Operation::BalanceRangeProof => Some(self.balance_path.as_str()),
            Operation::SandboxPublicToken => Some(self.sandbox_public_token_path.as_str()),
            Operation::SandboxPublicTokenEncryptedSecret => Some(
                self.sandbox_public_token_path.as_str(),
            ),
            Operation::SandboxExchangeAccessToken => Some(self.sandbox_exchange_path.as_str()),
            Operation::PublicKeyExport => None,
        }
    }

    /// The headers of a request without a body.
    pub open spec fn plain_headers(self) -> Seq<(Seq<char>, Seq<char>)> {
        seq![("User-Agent"@, self.user_agent@), ("Accept"@, self.accept@)]
    }

    /// The headers of a request with a body, the length header apart.
    pub open spec fn body_headers(self) -> Seq<(Seq<char>, Seq<char>)> {
        seq![
            ("User-Agent"@, self.user_agent@),
            ("Accept"@, self.accept@),
            ("Content-Type"@, self.content_type@),
        ]
    }
}

} // verus!
