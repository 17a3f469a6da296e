//! The connector: routes an operation to its flow and sequences the calls
//! that the flow makes.
//!
//! The connector sends nothing itself. Each step either hands out a message
//! to send, with the session that waits for the reply, or ends the request
//! with its result.

use crate::attest::{
    artifact_for, artifact_of, is_proof_request, outcome_view, placeholder, proof_request,
    ArtifactView, ProofArtifact,
};
use crate::envelope::{
    membership_envelope, plain_envelope, proved_envelope, split_envelope, wrap_membership,
    wrap_plain, wrap_proved, wrap_split,
};
use crate::error::{ConnectorError, NetworkFailure};
use crate::json::{document_text, no_repeats, Json, JsonView};
use crate::operation::{lemma_name_round_trip, operation_named, Operation};
use crate::range::{
    balances_in, check_balances, lemma_match_is_first_in_range, verdict, RangeQuery,
};
use crate::request::{
    body_of, document_member, is_provider_request, lemma_balance_body_from_bag,
    lemma_balance_body_is_written_as_it_is, parameters_in, post, request_body, Outgoing,
    Parameters, ParametersView,
};
use crate::secret::{decryption, secret_from, KeyPair, PublicKey};
use crate::settings::{ProofPolicy, Settings};
use crate::wire::{parse_response, request_text, response_document, CertPolicy};
use vstd::prelude::*;
use vstd::utf8::encode_utf8;

verus! {

/// The connector to the provider.
#[derive(Debug)]
pub struct PlaidConnector {
    pub settings: Settings,
}

/// What a request waits for between two steps.
#[derive(Debug)]
pub enum Session {
    /// The provider's reply to `op`; `asked` is the caller's range.
    Provider { op: Operation, asked: Option<RangeQuery> },
    /// The proof service's reply to the one request of a range check.
    Proof,
    /// The proof service's reply on the lower bound.
    LowerProof { balance: u64, range: RangeQuery },
    /// The proof service's reply on the upper bound.
    UpperProof { range: RangeQuery, lower: ProofArtifact },
}

/// What a `Session` stands for.
pub enum SessionView {
    Provider { op: Operation, asked: Option<RangeQuery> },
    Proof,
    LowerProof { balance: u64, range: RangeQuery },
    UpperProof { range: RangeQuery, lower: ArtifactView },
}

impl View for Session {
    type V = SessionView;

    open spec fn view(&self) -> SessionView {
        match self {
            Session::Provider { op, asked } => SessionView::Provider { op: *op, asked: *asked },
            Session::Proof => SessionView::Proof,
            Session::LowerProof { balance, range } => SessionView::LowerProof {
                balance: *balance,
                range: *range,
            },
            Session::UpperProof { range, lower } => SessionView::UpperProof {
                range: *range,
                lower: lower@,
            },
        }
    }
}

/// What the connector asks of its caller next.
#[derive(Debug)]
pub enum Step {
    /// Send the message, and resume the session with what came back.
    Send(Outgoing, Session),
    /// The request has ended with this result.
    Done(Result<Json, ConnectorError>),
}

/// What came back for a message that was sent.
#[derive(Debug)]
pub enum Event {
    /// The peer's response, as received.
    Reply(Vec<u8>),
    /// The transport failed.
    Failed(NetworkFailure),
}

/// What an event holds for the session that waited for it: the document of
/// the response, or the fault.
pub open spec fn event_outcome(event: Event) -> Result<JsonView, ConnectorError> {
    match event {
        Event::Reply(raw) => response_document(raw@),
        Event::Failed(failure) => Err(ConnectorError::Network(failure)),
    }
}

/// Whether `step` ends the request with `result`.
pub open spec fn ends_with(step: Step, result: Result<JsonView, ConnectorError>) -> bool {
    step matches Step::Done(r) && outcome_view(r) == result
}

/// Whether `step` sends the provider the request of `op` with the body
/// `body`, and waits for the reply with the caller's range at hand.
pub open spec fn asks_provider(
    step: Step,
    s: Settings,
    op: Operation,
    body: JsonView,
    range: Option<RangeQuery>,
) -> bool {
    step matches Step::Send(out, session) && is_provider_request(out, op, s, body) && session@
        == (SessionView::Provider { op, asked: range })
}

/// Whether `step` asks the proof service about `value` and the given bounds,
/// and waits for the reply as `next`.
pub open spec fn asks_proof(
    step: Step,
    s: Settings,
    value: u64,
    lower: Option<u64>,
    upper: Option<u64>,
    next: SessionView,
) -> bool {
    step matches Step::Send(out, session) && is_proof_request(out, s, value, lower, upper)
        && session@ == next
}

/// Whether `step` is the first step of `op`. The key export ends at once with
/// the key material. The operation that takes its secret as ciphertext ends
/// with the fault of `secret` where that is one, and else sends `secret` as
/// the secret. Every other operation sends its request, whatever `secret`
/// is.
pub open spec fn starts(
    step: Step,
    s: Settings,
    op: Operation,
    p: ParametersView,
    public: PublicKey,
    secret: Result<JsonView, ConnectorError>,
) -> bool {
    let range = RangeQuery::between(p.range_lower, p.range_upper);
    match op {
        Operation::PublicKeyExport => ends_with(step, Ok(plain_envelope(public.document()))),
        Operation::SandboxPublicTokenEncryptedSecret => match secret {
            Ok(text) => asks_provider(step, s, op, body_of(op, p, s, text), range),
            Err(e) => ends_with(step, Err(e)),
        },
        _ => asks_provider(step, s, op, body_of(op, p, s, JsonView::Null), range),
    }
}

/// The secret that the operation with its secret as ciphertext sends: the
/// text that the ciphertext decrypts to under the key pair. An absent
/// ciphertext, and one that does not decrypt to a text, are a `Decryption`
/// error.
pub open spec fn decrypted_secret(keys: KeyPair, p: ParametersView) -> Result<
    JsonView,
    ConnectorError,
> {
    match p.encrypted_secret {
        Some(ciphertext) => match secret_from(decryption(keys, ciphertext)) {
            Ok(text) => Ok(JsonView::Text(text)),
            Err(e) => Err(e),
        },
        None => Err(ConnectorError::Decryption),
    }
}

/// Whether `step` is the first step of the operation `name`. An unknown name
/// ends the request with `UnsupportedOperation`. The operation that takes
/// its secret as ciphertext starts with the secret that the ciphertext
/// decrypts to, or ends with `Decryption`. Every other operation starts as
/// `starts` says, and decrypts nothing.
pub open spec fn begins(
    step: Step,
    s: Settings,
    keys: KeyPair,
    name: Seq<char>,
    p: ParametersView,
) -> bool {
    match operation_named(name) {
        None => ends_with(step, Err(ConnectorError::UnsupportedOperation)),
        Some(op) => if op == Operation::SandboxPublicTokenEncryptedSecret {
            starts(step, s, op, p, keys.public(), decrypted_secret(keys, p))
        } else {
            starts(step, s, op, p, keys.public(), Err(ConnectorError::Decryption))
        },
    }
}

/// Whether `step` follows for a session on the outcome of the call it waited
/// for.
///
/// A session that waits for the provider ends with the fault of a failed
/// call. Of a reply, a range check reads the accounts: a fault ends the
/// request; without a match it ends with the answer `false` and nothing
/// proved; with a match, the check without proof ends with the answer `true`,
/// and the check with proof asks the proof service, once with both bounds or
/// first for the lower bound alone, as the settings say. Every other
/// operation ends with the reply, unchanged, as its result.
///
/// A session that waits for the proof service never ends with a fault: a
/// failed call counts as the placeholder artifact. The one request ends with
/// the proved answer; the reply on the lower bound is kept and the upper
/// bound asked for with the same balance; the reply on the upper bound ends
/// the request with both artifacts.
pub open spec fn follows(
    step: Step,
    s: Settings,
    session: SessionView,
    outcome: Result<JsonView, ConnectorError>,
) -> bool {
    match session {
        SessionView::Provider { op, asked: range } => match outcome {
            Err(e) => ends_with(step, Err(e)),
            Ok(doc) => if op.reads_balances() {
                match verdict(doc, range) {
                    Err(e) => ends_with(step, Err(e)),
                    Ok(None) => ends_with(step, Ok(membership_envelope(false))),
                    Ok(Some(balance)) => if op == Operation::BalanceRange {
                        ends_with(step, Ok(membership_envelope(true)))
                    } else {
                        match s.proof_policy {
                            ProofPolicy::SingleValue => asks_proof(
                                step,
                                s,
                                balance,
                                Some(range.unwrap().lower),
                                Some(range.unwrap().upper),
                                SessionView::Proof,
                            ),
                            ProofPolicy::SplitBound => asks_proof(
                                step,
                                s,
                                balance,
                                Some(range.unwrap().lower),
                                None,
                                SessionView::LowerProof { balance, range: range.unwrap() },
                            ),
                        }
                    },
                }
            } else {
                ends_with(step, Ok(plain_envelope(doc)))
            },
        },
        SessionView::Proof => ends_with(step, Ok(proved_envelope(artifact_for(outcome)))),
        SessionView::LowerProof { balance, range } => asks_proof(
            step,
            s,
            balance,
            None,
            Some(range.upper),
            SessionView::UpperProof { range, lower: artifact_for(outcome) },
        ),
        SessionView::UpperProof { range, lower } => ends_with(
            step,
            Ok(split_envelope(range, lower, artifact_for(outcome))),
        ),
    }
}

impl PlaidConnector {
    /// A connector with the given settings.
    pub fn new(settings: Settings) -> (r: PlaidConnector)
        ensures
            r.settings == settings,
    {
        PlaidConnector { settings }
    }

    /// The first step of `op`, given the outcome of decrypting the caller's
    /// secret, which only the operation that takes it as ciphertext reads.
    pub fn start(
        &self,
        op: Operation,
        params: &Parameters,
        public: &PublicKey,
        secret: Result<String, ConnectorError>,
    ) -> (r: Step)
        ensures
            starts(
                r,
                self.settings,
                op,
                params@,
                *public,
                match secret {
                    Ok(text) => Ok(JsonView::Text(text@)),
                    Err(e) => Err(e),
                },
            ),
    {
        let path = match self.settings.path(op) {
            Some(path) => path,
            None => {
                return Step::Done(Ok(wrap_plain(public.to_json())));
            },
        };
        let sent = match op {
            Operation::SandboxPublicTokenEncryptedSecret => match secret {
                Ok(text) => Json::Text(text),
                Err(e) => {
                    return Step::Done(Err(e));
                },
            },
            _ => Json::Null,
        };
        let body = request_body(op, params, &self.settings, sent);
        let asked = RangeQuery::from_bounds(params.range_lower, params.range_upper);
        Step::Send(post(&self.settings, path, &body), Session::Provider { op, asked })
    }

    /// The first step of the operation `name`. An unknown name ends the
    /// request with `UnsupportedOperation`, and nothing is sent. A secret
    /// that is given as ciphertext is decrypted first, and its text is sent
    /// as the secret; where that fails, or the ciphertext is absent, the
    /// request ends with `Decryption`, and nothing is sent.
    pub fn begin(&self, keys: &KeyPair, name: &str, params: &Parameters) -> (r: Step)
        ensures
            begins(r, self.settings, *keys, name@, params@),
    {
        let op = match Operation::from_name(name) {
            Ok(op) => op,
            Err(e) => {
                return Step::Done(Err(e));
            },
        };
        let secret = match op {
            Operation::SandboxPublicTokenEncryptedSecret => match &params.encrypted_secret {
                Some(ciphertext) => keys.decrypt(ciphertext.as_slice()),
                None => Err(ConnectorError::Decryption),
            },
            _ => Err(ConnectorError::Decryption),
        };
        self.start(op, params, keys.public_key(), secret)
    }

    /// The first step of a request, given as the host hands it over: the
    /// operation's name and the parameter bag, each a document. A name that
    /// is no text ends the request with `UnsupportedOperation`, as an unknown
    /// name does.
    pub fn query(&self, keys: &KeyPair, query_type: &Json, query_param: &Json) -> (r: Step)
        ensures
            match query_type@.text() {
                Some(name) => begins(
                    r,
                    self.settings,
                    *keys,
                    name,
                    parameters_in(query_param@),
                ),
                None => ends_with(r, Err(ConnectorError::UnsupportedOperation)),
            },
    {
        match query_type.as_text() {
            Some(name) => {
                let params = Parameters::from_bag(query_param);
                self.begin(keys, name.as_str(), &params)
            },
            None => Step::Done(Err(ConnectorError::UnsupportedOperation)),
        }
    }

    /// The step that follows for `session` on the outcome of the call it
    /// waited for.
    pub fn advance(&self, session: Session, outcome: Result<Json, ConnectorError>) -> (r: Step)
        ensures
            follows(r, self.settings, session@, outcome_view(outcome)),
    {
        match session {
            Session::Provider { op, asked: range } => {
                let doc = match outcome {
                    Ok(doc) => doc,
                    Err(e) => {
                        return Step::Done(Err(e));
                    },
                };
                match op {
                    Operation::BalanceRange => match check_balances(&doc, range) {
                        Ok(found) => Step::Done(Ok(wrap_membership(found.is_some()))),
                        Err(e) => Step::Done(Err(e)),
                    },
                    Operation::BalanceRangeProof => {
                        let found = check_balances(&doc, range);
                        proof {
                            if let Ok(Some(balance)) = found {
                                lemma_match_is_first_in_range(
                                    balances_in(doc@).unwrap(),
                                    range,
                                    balance,
                                );
                            }
                        }
                        match (found, range) {
                            (Ok(Some(balance)), Some(bounds)) => self.ask_for_proof(
                                balance,
                                bounds,
                            ),
                            (Ok(_), _) => Step::Done(Ok(wrap_membership(false))),
                            (Err(e), _) => Step::Done(Err(e)),
                        }
                    },
                    _ => Step::Done(Ok(wrap_plain(doc))),
                }
            },
            Session::Proof => Step::Done(Ok(wrap_proved(artifact_of(outcome)))),
            Session::LowerProof { balance, range } => {
                let lower = artifact_of(outcome);
                Step::Send(
                    proof_request(&self.settings, balance, None, Some(range.upper)),
                    Session::UpperProof { range, lower },
                )
            },
            Session::UpperProof { range, lower } => Step::Done(
                Ok(wrap_split(range, lower, artifact_of(outcome))),
            ),
        }
    }

    /// The first request to the proof service for a balance that lies in
    /// `range`.
    fn ask_for_proof(&self, balance: u64, range: RangeQuery) -> (r: Step)
        ensures
            match self.settings.proof_policy {
                ProofPolicy::SingleValue => asks_proof(
                    r,
                    self.settings,
                    balance,
                    Some(range.lower),
                    Some(range.upper),
                    SessionView::Proof,
                ),
                ProofPolicy::SplitBound => asks_proof(
                    r,
                    self.settings,
                    balance,
                    Some(range.lower),
                    None,
                    SessionView::LowerProof { balance, range },
                ),
            },
    {
        match self.settings.proof_policy {
            ProofPolicy::SingleValue => Step::Send(
                proof_request(&self.settings, balance, Some(range.lower), Some(range.upper)),
                Session::Proof,
            ),
            ProofPolicy::SplitBound => Step::Send(
                proof_request(&self.settings, balance, Some(range.lower), None),
                Session::LowerProof { balance, range },
            ),
        }
    }

    /// The step that follows for `session` on what came back for the message
    /// it sent.
    pub fn resume(&self, session: Session, event: Event) -> (r: Step)
        ensures
            follows(r, self.settings, session@, event_outcome(event)),
    {
        let outcome = match event {
            Event::Reply(raw) => parse_response(raw.as_slice()),
            Event::Failed(failure) => Err(ConnectorError::Network(failure)),
        };
        self.advance(session, outcome)
    }
}

/// A request never fails on the proof service. Whatever the call to the
/// service came to, the step after it is a further request or a result, and
/// where the call failed the artifact is the placeholder.
pub proof fn lemma_proof_failure_degrades(
    s: Settings,
    session: SessionView,
    outcome: Result<JsonView, ConnectorError>,
    step: Step,
)
    requires
        !(session is Provider),
        follows(step, s, session, outcome),
    ensures
        !(step matches Step::Done(Err(_))),
        outcome is Err ==> match session {
            SessionView::Proof => ends_with(step, Ok(proved_envelope(placeholder()))),
            SessionView::LowerProof { balance, range } => asks_proof(
                step,
                s,
                balance,
                None,
                Some(range.upper),
                SessionView::UpperProof { range, lower: placeholder() },
            ),
            SessionView::UpperProof { range, lower } => ends_with(
                step,
                Ok(split_envelope(range, lower, placeholder())),
            ),
            SessionView::Provider { .. } => true,
        },
{
}

/// With a proof asked for each bound, a match leads through two requests to
/// the proof service that carry the same balance, the first with the lower
/// bound alone and the second with the upper bound alone, and ends with the
/// answer `true` and both artifacts, each beside its own bound.
pub proof fn lemma_split_bound_flow(
    s: Settings,
    range: RangeQuery,
    doc: JsonView,
    balance: u64,
    first: Step,
    lower_outcome: Result<JsonView, ConnectorError>,
    second: Step,
    upper_outcome: Result<JsonView, ConnectorError>,
    third: Step,
)
    requires
        s.proof_policy == ProofPolicy::SplitBound,
        verdict(doc, Some(range)) == Ok::<Option<u64>, ConnectorError>(Some(balance)),
        follows(
            first,
            s,
            SessionView::Provider { op: Operation::BalanceRangeProof, asked: Some(range) },
            Ok(doc),
        ),
        first is Send,
        follows(second, s, first->Send_1@, lower_outcome),
        second is Send,
        follows(third, s, second->Send_1@, upper_outcome),
    ensures
        is_proof_request(first->Send_0, s, balance, Some(range.lower), None),
        is_proof_request(second->Send_0, s, balance, None, Some(range.upper)),
        ends_with(
            third,
            Ok(
                split_envelope(range, artifact_for(lower_outcome), artifact_for(upper_outcome)),
            ),
        ),
{
}

/// Every request reads the same key material off a key pair: whatever the
/// parameters are, the key export ends with the public part of the pair.
pub proof fn lemma_key_export_is_stable(
    s: Settings,
    keys: KeyPair,
    first: Step,
    first_params: ParametersView,
    second: Step,
    second_params: ParametersView,
)
    requires
        begins(first, s, keys, "plaid_get_rsa_public_key"@, first_params),
        begins(second, s, keys, "plaid_get_rsa_public_key"@, second_params),
    ensures
        ends_with(first, Ok(plain_envelope(keys.public().document()))),
        ends_with(second, Ok(plain_envelope(keys.public().document()))),
{
    lemma_name_round_trip(Operation::PublicKeyExport);
}

/// A name outside the dispatch table ends the request at its first step with
/// `UnsupportedOperation`: no message is handed out to send.
pub proof fn lemma_unknown_operation_sends_nothing(
    s: Settings,
    keys: KeyPair,
    name: Seq<char>,
    p: ParametersView,
    step: Step,
)
    requires
        operation_named(name) is None,
        begins(step, s, keys, name, p),
    ensures
        step is Done,
        ends_with(step, Err(ConnectorError::UnsupportedOperation)),
{
}

/// Both range checks first send the provider a request for account
/// balances: a post to the balance path on the provider's host and port,
/// whose body holds what the caller's bag holds under `accessToken`,
/// `clientId` and `secret`, each as it is and `null` where the bag has none,
/// and nothing else, and whose length header counts the bytes of that body.
/// The bag is any document without repeated keys, as every document is that
/// the codec read.
pub proof fn lemma_range_check_sends_credentials(
    s: Settings,
    keys: KeyPair,
    name: Seq<char>,
    bag: JsonView,
    step: Step,
)
    requires
        name == "plaid_bank_balance_range"@ || name == "plaid_bank_balance_range_zkp"@,
        no_repeats(bag),
        begins(step, s, keys, name, parameters_in(bag)),
    ensures
        step matches Step::Send(out, _) && out.host@ == s.provider_host@ && out.port
            == s.provider_port && out.policy == CertPolicy::Verify && out.message@ == request_text(
            "POST"@,
            encode_utf8(s.balance_path@),
            s.provider_host@,
            s.body_headers(),
            Some(
                document_text(
                    JsonView::Object(
                        seq![
                            ("access_token"@, document_member(bag, "accessToken"@)),
                            ("client_id"@, document_member(bag, "clientId"@)),
                            ("secret"@, document_member(bag, "secret"@)),
                        ],
                    ),
                ),
            ),
        ),
{
    lemma_name_round_trip(Operation::BalanceRange);
    lemma_name_round_trip(Operation::BalanceRangeProof);
    let op = operation_named(name).unwrap();
    lemma_balance_body_from_bag(op, bag, s, JsonView::Null);
    lemma_balance_body_is_written_as_it_is(op, bag, s, JsonView::Null);
}

} // verus!
