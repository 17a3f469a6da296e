//! The dispatch table: the operations the connector serves, by name.

use crate::error::ConnectorError;
use crate::json::text_eq;
use vstd::prelude::*;

verus! {

/// An operation of the connector.
#[derive(Clone, Copy, Debug, PartialEq, Eq, Structural)]
pub enum Operation {
    /// Creates a link token.
    LinkToken,
    /// Exchanges a public token for an access token.
    ExchangeAccessToken,
    /// Tells whether a balance lies in a range.
    BalanceRange,
    /// Tells whether a balance lies in a range, and has the answer proved.
    BalanceRangeProof,
    /// Issues a public token of the sandbox.
    SandboxPublicToken,
    /// Issues a public token of the sandbox for a secret given as ciphertext.
    SandboxPublicTokenEncryptedSecret,
    /// Exchanges a public token of the sandbox for an access token.
    SandboxExchangeAccessToken,
    /// Exports the public key under which secrets are encrypted.
    PublicKeyExport,
}

/// The operation that `name` stands for in the dispatch table.
pub open spec fn operation_named(name: Seq<char>) -> Option<Operation> {
    if name == "plaid_link_token"@ {
        Some(Operation::LinkToken)
    } else if name == "plaid_exchange_access_token"@ {
        Some(Operation::ExchangeAccessToken)
    } else if name == "plaid_bank_balance_range"@ {
        Some(Operation::BalanceRange)
    } else if name == "plaid_bank_balance_range_zkp"@ {
        Some(Operation::BalanceRangeProof)
    } else if name == "plaid_sandbox_public_token"@ {
        Some(Operation::SandboxPublicToken)
    } else if name == "plaid_sandbox_public_token_encrypted_secret"@ {
        Some(Operation::SandboxPublicTokenEncryptedSecret)
    } else if name == "plaid_sandbox_exchange_access_token"@ {
        Some(Operation::SandboxExchangeAccessToken)
    } else if name == "plaid_get_rsa_public_key"@ {
        Some(Operation::PublicKeyExport)
    } else {
        None
    }
}

impl Operation {
    /// The name under which the dispatch table holds the operation.
    pub open spec fn spec_name(self) -> Seq<char> {
        match self {
            Operation::LinkToken => "plaid_link_token"@,
            Operation::ExchangeAccessToken => "plaid_exchange_access_token"@,
            Operation::BalanceRange => "plaid_bank_balance_range"@,
            Operation::BalanceRangeProof => "plaid_bank_balance_range_zkp"@,
            Operation::SandboxPublicToken => "plaid_sandbox_public_token"@,
            Operation::SandboxPublicTokenEncryptedSecret =>
                "plaid_sandbox_public_token_encrypted_secret"@,
            Operation::SandboxExchangeAccessToken => "plaid_sandbox_exchange_access_token"@,
            Operation::PublicKeyExport => "plaid_get_rsa_public_key"@,
        }
    }

    /// Whether the operation asks the provider for account balances.
    pub open spec fn reads_balances(self) -> bool {
        self == Operation::BalanceRange || self == Operation::BalanceRangeProof
    }

    /// Looks a name up in the dispatch table.
    pub fn from_name(name: &str) -> (r: Result<Operation, ConnectorError>)
        ensures
            r == match operation_named(name@) {
                Some(op) => Ok::<Operation, ConnectorError>(op),
                None => Err::<Operation, ConnectorError>(ConnectorError::UnsupportedOperation),
            },
    {
        if text_eq(name, "plaid_link_token") {
            Ok(Operation::LinkToken)
        } else if text_eq(name, "plaid_exchange_access_token") {
            Ok(Operation::ExchangeAccessToken)
        } else if text_eq(name, "plaid_bank_balance_range") {
            Ok(Operation::BalanceRange)
        } else if text_eq(name, "plaid_bank_balance_range_zkp") {
            Ok(Operation::BalanceRangeProof)
        } else if text_eq(name, "plaid_sandbox_public_token") {
            Ok(Operation::SandboxPublicToken)
        } else if text_eq(name, "plaid_sandbox_public_token_encrypted_secret") {
            Ok(Operation::SandboxPublicTokenEncryptedSecret)
        } else if text_eq(name, "plaid_sandbox_exchange_access_token") {
            Ok(Operation::SandboxExchangeAccessToken)
        } else if text_eq(name, "plaid_get_rsa_public_key") {
            Ok(Operation::PublicKeyExport)
        } else {
            Err(ConnectorError::UnsupportedOperation)
        }
    }

    /// The name under which the dispatch table holds the operation.
    pub fn name(&self) -> (r: &'static str)
        ensures
            r@ == self.spec_name(),
    {
        match self {
            Operation::LinkToken => "plaid_link_token",
            Operation::ExchangeAccessToken => "plaid_exchange_access_token",
            Operation::BalanceRange => "plaid_bank_balance_range",
            Operation::BalanceRangeProof => "plaid_bank_balance_range_zkp",
            Operation::SandboxPublicToken => "plaid_sandbox_public_token",
            Operation::SandboxPublicTokenEncryptedSecret =>
                "plaid_sandbox_public_token_encrypted_secret",
            Operation::SandboxExchangeAccessToken => "plaid_sandbox_exchange_access_token",
            Operation::PublicKeyExport => "plaid_get_rsa_public_key",
        }
    }
}

/// No two operations share a name: looking up the name of an operation gives
/// that operation back.
pub proof fn lemma_name_round_trip(op: Operation)
    ensures
        operation_named(op.spec_name()) == Some(op),
{
    reveal_strlit("plaid_link_token");
    reveal_strlit("plaid_exchange_access_token");
    reveal_strlit("plaid_bank_balance_range");
    reveal_strlit("plaid_bank_balance_range_zkp");
    reveal_strlit("plaid_sandbox_public_token");
    reveal_strlit("plaid_sandbox_public_token_encrypted_secret");
    reveal_strlit("plaid_sandbox_exchange_access_token");
    reveal_strlit("plaid_get_rsa_public_key");
    assert("plaid_link_token"@.len() == 16);
    assert("plaid_exchange_access_token"@.len() == 27);
    assert("plaid_bank_balance_range"@.len() == 24);
    assert("plaid_bank_balance_range_zkp"@.len() == 28);
    assert("plaid_sandbox_public_token"@.len() == 26);
    assert("plaid_sandbox_public_token_encrypted_secret"@.len() == 43);
    assert("plaid_sandbox_exchange_access_token"@.len() == 35);
    assert("plaid_get_rsa_public_key"@.len() == 24);
    assert("plaid_bank_balance_range"@[6] == 'b');
    assert("plaid_get_rsa_public_key"@[6] == 'g');
}

} // verus!
