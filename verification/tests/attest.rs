use plaid_connector::attest::{
    artifact_of, empty_artifact, proof_request, read_artifact, render_proof_query, ProofArtifact,
};
use plaid_connector::error::{ConnectorError, NetworkFailure};
use plaid_connector::json::decode;
use plaid_connector::settings::{ProofPolicy, Settings};
use plaid_connector::wire::CertPolicy;

fn artifact(reply: &str) -> ProofArtifact {
    read_artifact(decode(reply.as_bytes()).unwrap())
}

#[test]
fn proof_query_carries_the_value_and_the_bounds_given() {
    assert_eq!(
        render_proof_query("/zkRangeProof", 1500, Some(1000), Some(2000)),
        b"/zkRangeProof?value=1500&lower=1000&upper=2000".to_vec()
    );
    assert_eq!(
        render_proof_query("/zkRangeProof", 1500, Some(1000), None),
        b"/zkRangeProof?value=1500&lower=1000".to_vec()
    );
    assert_eq!(
        render_proof_query("/zkRangeProof", 1500, None, Some(2000)),
        b"/zkRangeProof?value=1500&upper=2000".to_vec()
    );
    assert_eq!(render_proof_query("/p", 0, None, None), b"/p?value=0".to_vec());
}

#[test]
fn proof_request_is_a_get_to_the_proof_service() {
    let s = Settings::sandbox(ProofPolicy::SingleValue);
    let out = proof_request(&s, 1500, Some(1000), Some(2000));
    assert_eq!(out.host, "clique-sign-claim");
    assert_eq!(out.port, 12341);
    assert_eq!(out.policy, CertPolicy::SkipVerification);
    assert_eq!(
        String::from_utf8(out.message).unwrap(),
        "GET /zkRangeProof?value=1500&lower=1000&upper=2000 HTTP/1.1\r\n\
         HOST: clique-sign-claim\r\n\
         User-Agent: curl/7.79.1\r\n\
         Accept: */*\r\n\r\n"
    );
}

#[test]
fn artifact_is_read_from_the_result_of_a_reply() {
    let a = artifact("{\"result\": {\"proof\": [1, 2, 255], \"attestation\": \"quote\"}}");
    assert_eq!(a.attestation, "quote");
    assert_eq!(a.proof.len(), 3);
    assert_eq!(a.proof[2].as_u64(), Some(255));
}

#[test]
fn artifact_parts_that_are_absent_or_mistyped_are_empty() {
    for reply in [
        "{}",
        "[]",
        "{\"result\": {}}",
        "{\"result\": 4}",
        "{\"result\": {\"proof\": \"x\", \"attestation\": 7}}",
        "{\"proof\": [1], \"attestation\": \"top\"}",
    ] {
        let a = artifact(reply);
        assert!(a.proof.is_empty());
        assert_eq!(a.attestation, "");
    }
    let a = artifact("{\"result\": {\"proof\": [1]}}");
    assert_eq!(a.proof.len(), 1);
    assert_eq!(a.attestation, "");
    let a = artifact("{\"result\": {\"attestation\": \"q\"}}");
    assert!(a.proof.is_empty());
    assert_eq!(a.attestation, "q");
}

#[test]
fn failed_proof_call_yields_the_placeholder() {
    for e in [
        ConnectorError::Network(NetworkFailure::Connection),
        ConnectorError::Network(NetworkFailure::Timeout),
        ConnectorError::Parse(plaid_connector::error::ParseFailure::Malformed),
    ] {
        let a = artifact_of(Err(e));
        assert!(a.proof.is_empty());
        assert_eq!(a.attestation, "");
    }
    let a = empty_artifact();
    assert!(a.proof.is_empty());
    assert_eq!(a.attestation, "");
    let a = artifact_of(Ok(decode(b"{\"result\": {\"attestation\": \"q\"}}").unwrap()));
    assert_eq!(a.attestation, "q");
}

