//! The result envelope: the one shape in which every operation that succeeds
//! hands back its result.

use crate::attest::{ArtifactView, ProofArtifact};
use crate::json::{
    lemma_array_view, lemma_object_view, lookup, member_views, Json, JsonNumber, JsonView,
    NumberView,
};
use crate::range::RangeQuery;
use vstd::prelude::*;
use vstd::string::StringExecFns;

verus! {

/// The result of an operation with nothing proved: the members `reason`,
/// empty, and `result`.
pub open spec fn plain_envelope(result: JsonView) -> JsonView {
    JsonView::Object(seq![("reason"@, JsonView::Text(Seq::empty())), ("result"@, result)])
}

/// The result of a range check with nothing proved: `result` is the text
/// `true` or `false`.
pub open spec fn membership_envelope(found: bool) -> JsonView {
    plain_envelope(
        JsonView::Text(
            if found {
                "true"@
            } else {
                "false"@
            },
        ),
    )
}

/// An artifact as a document: its attestation and its proof items, and the
/// bound it speaks of where there is one.
pub open spec fn artifact_document(a: ArtifactView, bound: Option<u64>) -> JsonView {
    match bound {
        Some(b) => JsonView::Object(
            seq![
                ("attestation"@, JsonView::Text(a.attestation)),
                ("proof"@, JsonView::Array(a.proof)),
                ("queryParam"@, JsonView::Number(NumberView::Unsigned(b))),
            ],
        ),
        None => JsonView::Object(
            seq![
                ("attestation"@, JsonView::Text(a.attestation)),
                ("proof"@, JsonView::Array(a.proof)),
            ],
        ),
    }
}

/// The result of a range check that found a match and asked for one proof:
/// `result` is `true`, and `zk_range_proof` is the artifact.
pub open spec fn proved_envelope(a: ArtifactView) -> JsonView {
    JsonView::Object(
        seq![
            ("result"@, JsonView::Bool(true)),
            ("zk_range_proof"@, artifact_document(a, None)),
        ],
    )
}

/// The result of a range check that found a match and asked for a proof of
/// each bound: `result` is `true`, and `zk_range_proof` pairs the artifact of
/// the lower bound with that of the upper bound, each with its own bound.
pub open spec fn split_envelope(range: RangeQuery, lower: ArtifactView, upper: ArtifactView) -> JsonView {
    JsonView::Object(
        seq![
            ("result"@, JsonView::Bool(true)),
            (
                "zk_range_proof"@,
                JsonView::Object(
                    seq![
                        ("lower"@, artifact_document(lower, Some(range.lower))),
                        ("upper"@, artifact_document(upper, Some(range.upper))),
                    ],
                ),
            ),
        ],
    )
}

/// Wraps a result with nothing proved.
pub fn wrap_plain(result: Json) -> (r: Json)
    ensures
        r@ == plain_envelope(result@),
{
    let mut m: Vec<(String, Json)> = Vec::new();
    m.push((String::from_str("reason"), Json::Text(String::new())));
    m.push((String::from_str("result"), result));
    proof {
        lemma_object_view(m);
        assert(member_views(m@) =~= plain_envelope(result@)->Object_0);
    }
    Json::Object(m)
}

/// Wraps the answer of a range check with nothing proved.
pub fn wrap_membership(found: bool) -> (r: Json)
    ensures
        r@ == membership_envelope(found),
{
    if found {
        wrap_plain(Json::Text(String::from_str("true")))
    } else {
        wrap_plain(Json::Text(String::from_str("false")))
    }
}

/// Writes an artifact as a document.
pub fn artifact_to_json(a: ProofArtifact, bound: Option<u64>) -> (r: Json)
    ensures
        r@ == artifact_document(a@, bound),
{
    let ProofArtifact { proof, attestation } = a;
    proof {
        lemma_array_view(proof);
    }
    let mut m: Vec<(String, Json)> = Vec::new();
    m.push((String::from_str("attestation"), Json::Text(attestation)));
    m.push((String::from_str("proof"), Json::Array(proof)));
    match bound {
        Some(b) => {
            m.push((String::from_str("queryParam"), Json::Number(JsonNumber::Unsigned(b))));
            proof {
                lemma_object_view(m);
                assert(member_views(m@) =~= artifact_document(a@, bound)->Object_0);
            }
        },
        None => {
            proof {
                lemma_object_view(m);
                assert(member_views(m@) =~= artifact_document(a@, bound)->Object_0);
            }
        },
    }
    Json::Object(m)
}

/// Wraps the answer of a range check with one proof.
pub fn wrap_proved(a: ProofArtifact) -> (r: Json)
    ensures
        r@ == proved_envelope(a@),
{
    let mut m: Vec<(String, Json)> = Vec::new();
    m.push((String::from_str("result"), Json::Bool(true)));
    m.push((String::from_str("zk_range_proof"), artifact_to_json(a, None)));
    proof {
        lemma_object_view(m);
        assert(member_views(m@) =~= proved_envelope(a@)->Object_0);
    }
    Json::Object(m)
}

/// Wraps the answer of a range check with a proof of each bound.
pub fn wrap_split(range: RangeQuery, lower: ProofArtifact, upper: ProofArtifact) -> (r: Json)
    ensures
        r@ == split_envelope(range, lower@, upper@),
{
    let mut pair: Vec<(String, Json)> = Vec::new();
    pair.push((String::from_str("lower"), artifact_to_json(lower, Some(range.lower))));
    pair.push((String::from_str("upper"), artifact_to_json(upper, Some(range.upper))));
    proof {
        lemma_object_view(pair);
        assert(member_views(pair@) =~= seq![
            ("lower"@, artifact_document(lower@, Some(range.lower))),
            ("upper"@, artifact_document(upper@, Some(range.upper))),
        ]);
    }
    let mut m: Vec<(String, Json)> = Vec::new();
    m.push((String::from_str("result"), Json::Bool(true)));
    m.push((String::from_str("zk_range_proof"), Json::Object(pair)));
    proof {
        lemma_object_view(m);
        assert(member_views(m@) =~= split_envelope(range, lower@, upper@)->Object_0);
    }
    Json::Object(m)
}

/// In the result of a range check with a proof of each bound, the artifact
/// named `lower` stands beside the lower bound and the one named `upper`
/// beside the upper bound.
pub proof fn lemma_split_envelope_bounds(range: RangeQuery, lower: ArtifactView, upper: ArtifactView)
    ensures
        split_envelope(range, lower, upper).member("result"@) == Some(JsonView::Bool(true)),
        split_envelope(range, lower, upper).member("zk_range_proof"@) matches Some(pair)
            && pair.member("lower"@) == Some(artifact_document(lower, Some(range.lower)))
            && pair.member("upper"@) == Some(artifact_document(upper, Some(range.upper))),
        artifact_document(lower, Some(range.lower)).member("queryParam"@) == Some(
            JsonView::Number(NumberView::Unsigned(range.lower)),
        ),
        artifact_document(upper, Some(range.upper)).member("queryParam"@) == Some(
            JsonView::Number(NumberView::Unsigned(range.upper)),
        ),
{
    reveal_strlit("result");
    reveal_strlit("zk_range_proof");
    reveal_strlit("lower");
    reveal_strlit("upper");
    reveal_strlit("attestation");
    reveal_strlit("proof");
    reveal_strlit("queryParam");
    reveal_with_fuel(lookup, 4);
    assert("result"@.len() == 6);
    assert("zk_range_proof"@.len() == 14);
    assert("lower"@[0] == 'l');
    assert("upper"@[0] == 'u');
    assert("attestation"@.len() == 11);
    assert("proof"@.len() == 5);
    assert("queryParam"@.len() == 10);
}

} // verus!
