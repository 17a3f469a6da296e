//! The proof service: the requests that ask it to prove a range check, and
//! what its replies add to a result.

use crate::error::ConnectorError;
use crate::json::{views, Json, JsonView};
use crate::request::Outgoing;
use crate::settings::Settings;
use crate::wire::{build_request, decimal, header_views, render_decimal, request_text, CertPolicy};
use vstd::prelude::*;
use vstd::string::StringExecFns;
use vstd::utf8::encode_utf8;

verus! {

/// The path and query of a proof request: the balance as `value`, then each
/// bound that is given, `lower` before `upper`, all in decimal.
pub open spec fn proof_query(
    path: Seq<char>,
    value: u64,
    lower: Option<u64>,
    upper: Option<u64>,
) -> Seq<u8> {
    encode_utf8(path) + encode_utf8("?value="@) + decimal(value as nat) + (match lower {
        Some(l) => encode_utf8("&lower="@) + decimal(l as nat),
        None => Seq::empty(),
    }) + (match upper {
        Some(u) => encode_utf8("&upper="@) + decimal(u as nat),
        None => Seq::empty(),
    })
}

/// Renders the path and query of a proof request.
pub fn render_proof_query(path: &str, value: u64, lower: Option<u64>, upper: Option<u64>) -> (r:
    Vec<u8>)
    ensures
        r@ == proof_query(path@, value, lower, upper),
{
    let mut out: Vec<u8> = Vec::new();
    out.extend_from_slice(path.as_bytes());
    out.extend_from_slice("?value=".as_bytes());
    let digits = render_decimal(value);
    out.extend_from_slice(digits.as_slice());
    let ghost head = out@;
    assert(head =~= encode_utf8(path@) + encode_utf8("?value="@) + decimal(value as nat));
    match lower {
        Some(l) => {
            out.extend_from_slice("&lower=".as_bytes());
            let digits = render_decimal(l);
            out.extend_from_slice(digits.as_slice());
            assert(out@ =~= head + (encode_utf8("&lower="@) + decimal(l as nat)));
        },
        None => {
            assert(out@ =~= head + Seq::<u8>::empty());
        },
    }
    let ghost middle = out@;
    match upper {
        Some(u) => {
            out.extend_from_slice("&upper=".as_bytes());
            let digits = render_decimal(u);
            out.extend_from_slice(digits.as_slice());
            assert(out@ =~= middle + (encode_utf8("&upper="@) + decimal(u as nat)));
        },
        None => {
            assert(out@ =~= middle + Seq::<u8>::empty());
        },
    }
    out
}

/// Whether `out` is the request that asks the proof service about `value`
/// and the given bounds: a GET without a body to the proof service's host and
/// port, whose certificate is not verified.
pub open spec fn is_proof_request(
    out: Outgoing,
    s: Settings,
    value: u64,
    lower: Option<u64>,
    upper: Option<u64>,
) -> bool {
    &&& out.host@ == s.proof_host@
    &&& out.port == s.proof_port
    &&& out.policy == CertPolicy::SkipVerification
    &&& out.message@ == request_text(
        "GET"@,
        proof_query(s.proof_path@, value, lower, upper),
        s.proof_host@,
        s.plain_headers(),
        None,
    )
}

/// The request that asks the proof service about `value` and the given
/// bounds.
pub fn proof_request(s: &Settings, value: u64, lower: Option<u64>, upper: Option<u64>) -> (r:
    Outgoing)
    ensures
        is_proof_request(r, *s, value, lower, upper),
{
    let path = render_proof_query(s.proof_path.as_str(), value, lower, upper);
    let mut headers: Vec<(String, String)> = Vec::new();
    headers.push((String::from_str("User-Agent"), s.user_agent.clone()));
    headers.push((String::from_str("Accept"), s.accept.clone()));
    assert(header_views(headers@) =~= s.plain_headers());
    let message = build_request("GET", path.as_slice(), s.proof_host.as_str(), &headers, None);
    Outgoing {
        host: s.proof_host.clone(),
        port: s.proof_port,
        message,
        policy: CertPolicy::SkipVerification,
    }
}

/// What the proof service adds to a result: proof items that only the
/// service and its verifiers read, and an attestation.
#[derive(Debug)]
pub struct ProofArtifact {
    pub proof: Vec<Json>,
    pub attestation: String,
}

/// What a `ProofArtifact` stands for.
pub struct ArtifactView {
    pub proof: Seq<JsonView>,
    pub attestation: Seq<char>,
}

impl View for ProofArtifact {
    type V = ArtifactView;

    open spec fn view(&self) -> ArtifactView {
        ArtifactView { proof: views(self.proof@), attestation: self.attestation@ }
    }
}

/// The artifact that stands in for a proof that could not be had: no proof
/// items and an empty attestation.
pub open spec fn placeholder() -> ArtifactView {
    ArtifactView { proof: Seq::empty(), attestation: Seq::empty() }
}

/// The proof items of the member `result` of a reply: the items of its
/// member `proof`, and none where any of these is absent or of another kind.
pub open spec fn proof_items_in(reply: JsonView) -> Seq<JsonView> {
    match reply.member("result"@) {
        Some(result) => match result.member("proof"@) {
            Some(proof) => match proof.items() {
                Some(items) => items,
                None => Seq::empty(),
            },
            None => Seq::empty(),
        },
        None => Seq::empty(),
    }
}

/// The attestation of the member `result` of a reply: the text of its member
/// `attestation`, and the empty text where any of these is absent or of
/// another kind.
pub open spec fn attestation_in(reply: JsonView) -> Seq<char> {
    match reply.member("result"@) {
        Some(result) => match result.member("attestation"@) {
            Some(attestation) => match attestation.text() {
                Some(text) => text,
                None => Seq::empty(),
            },
            None => Seq::empty(),
        },
        None => Seq::empty(),
    }
}

/// The artifact that a call of the proof service yields: what its reply
/// holds, and the placeholder where the call failed.
pub open spec fn artifact_for(outcome: Result<JsonView, ConnectorError>) -> ArtifactView {
    match outcome {
        Ok(reply) => ArtifactView {
            proof: proof_items_in(reply),
            attestation: attestation_in(reply),
        },
        Err(_) => placeholder(),
    }
}

/// What `outcome` stands for in a contract.
pub open spec fn outcome_view(outcome: Result<Json, ConnectorError>) -> Result<
    JsonView,
    ConnectorError,
> {
    match outcome {
        Ok(doc) => Ok(doc@),
        Err(e) => Err(e),
    }
}

/// The placeholder artifact.
pub fn empty_artifact() -> (r: ProofArtifact)
    ensures
        r@ == placeholder(),
{
    let r = ProofArtifact { proof: Vec::new(), attestation: String::new() };
    assert(r@.proof =~= Seq::empty());
    r
}

/// Takes the artifact out of a reply of the proof service.
pub fn read_artifact(reply: Json) -> (r: ProofArtifact)
    ensures
        r@ == artifact_for(Ok(reply@)),
{
    match reply.into_member("result") {
        Some(result) => {
            let attestation = match result.member("attestation") {
                Some(a) => match a.as_text() {
                    Some(text) => text.clone(),
                    None => String::new(),
                },
                None => String::new(),
            };
            let items = match result.into_member("proof") {
                Some(listed) => match listed.into_array() {
                    Some(items) => items,
                    None => Vec::new(),
                },
                None => Vec::new(),
            };
            let r = ProofArtifact { proof: items, attestation };
            assert(r@.proof =~= proof_items_in(reply@));
            r
        },
        None => empty_artifact(),
    }
}

/// The artifact that a call of the proof service yields. A call that failed
/// yields the placeholder: it never fails the request.
pub fn artifact_of(outcome: Result<Json, ConnectorError>) -> (r: ProofArtifact)
    ensures
        r@ == artifact_for(outcome_view(outcome)),
{
    match outcome {
        Ok(reply) => read_artifact(reply),
        Err(_) => empty_artifact(),
    }
}

} // verus!
