use plaid_connector::error::{ConnectorError, NetworkFailure, ParseFailure};
use plaid_connector::operation::Operation;

#[test]
fn every_name_of_the_dispatch_table_is_found() {
    let table = [
        ("plaid_link_token", Operation::LinkToken),
        ("plaid_exchange_access_token", Operation::ExchangeAccessToken),
        ("plaid_bank_balance_range", Operation::BalanceRange),
        ("plaid_bank_balance_range_zkp", Operation::BalanceRangeProof),
        ("plaid_sandbox_public_token", Operation::SandboxPublicToken),
        (
            "plaid_sandbox_public_token_encrypted_secret",
            Operation::SandboxPublicTokenEncryptedSecret,
        ),
        ("plaid_sandbox_exchange_access_token", Operation::SandboxExchangeAccessToken),
        ("plaid_get_rsa_public_key", Operation::PublicKeyExport),
    ];
    for (name, op) in table {
        assert_eq!(Operation::from_name(name), Ok(op));
        assert_eq!(op.name(), name);
    }
}

#[test]
fn unknown_names_are_unsupported() {
    for name in ["", "plaid", "plaid_link_token ", "PLAID_LINK_TOKEN", "plaid_bank_balance_range_zk"] {
        assert_eq!(Operation::from_name(name), Err(ConnectorError::UnsupportedOperation));
    }
}

#[test]
fn only_a_network_failure_is_transient() {
    assert!(ConnectorError::Network(NetworkFailure::Timeout).is_transient());
    assert!(ConnectorError::Network(NetworkFailure::Connection).is_transient());
    assert!(!ConnectorError::UnsupportedOperation.is_transient());
    assert!(!ConnectorError::Parse(ParseFailure::Malformed).is_transient());
    assert!(!ConnectorError::Decryption.is_transient());
    assert!(!ConnectorError::EvaluationFault.is_transient());
}
