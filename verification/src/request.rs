//! The provider call adapter: the request that each operation sends to the
//! provider, made of the caller's parameters and the deployment's defaults.

use crate::json::{
    canonical, distinct_keys, document_text, encode, lemma_array_view,
    lemma_canonical_without_repeats, lemma_lookup_is_member, lemma_object_view, lookup,
    member_views, no_repeats, views, Json, JsonView,
};
use crate::operation::Operation;
use crate::secret::byte_array;
use crate::settings::Settings;
use crate::wire::{build_request, header_views, request_text, CertPolicy};
use vstd::prelude::*;
use vstd::string::StringExecFns;
use vstd::utf8::encode_utf8;

verus! {

/// The parameters that a caller gives with an operation. Each of the first
/// seven is a document, sent to the provider as it is; one that the caller
/// left out is `null`.
#[derive(Debug)]
pub struct Parameters {
    pub client_id: Json,
    pub secret: Json,
    pub client_user_id: Json,
    pub redirect_uri: Json,
    pub public_token: Json,
    pub access_token: Json,
    pub institution_id: Json,
    /// The secret as ciphertext under the connector's public key.
    pub encrypted_secret: Option<Vec<u8>>,
    /// The lower bound of the range, inclusive.
    pub range_lower: Option<u64>,
    /// The upper bound of the range, inclusive.
    pub range_upper: Option<u64>,
}

/// What `Parameters` stand for.
pub struct ParametersView {
    pub client_id: JsonView,
    pub secret: JsonView,
    pub client_user_id: JsonView,
    pub redirect_uri: JsonView,
    pub public_token: JsonView,
    pub access_token: JsonView,
    pub institution_id: JsonView,
    pub encrypted_secret: Option<Seq<u8>>,
    pub range_lower: Option<u64>,
    pub range_upper: Option<u64>,
}

impl View for Parameters {
    type V = ParametersView;

    open spec fn view(&self) -> ParametersView {
        ParametersView {
            client_id: self.client_id@,
            secret: self.secret@,
            client_user_id: self.client_user_id@,
            redirect_uri: self.redirect_uri@,
            public_token: self.public_token@,
            access_token: self.access_token@,
            institution_id: self.institution_id@,
            encrypted_secret: bytes_view(self.encrypted_secret),
            range_lower: self.range_lower,
            range_upper: self.range_upper,
        }
    }
}

/// A message to send, and where to.
#[derive(Debug)]
pub struct Outgoing {
    pub host: String,
    pub port: u16,
    pub message: Vec<u8>,
    pub policy: CertPolicy,
}

/// What optional bytes stand for.
pub open spec fn bytes_view(value: Option<Vec<u8>>) -> Option<Seq<u8>> {
    match value {
        Some(bytes) => Some(bytes@),
        None => None,
    }
}

/// The document that a parameter bag holds under `key`, as it is; `null`
/// where the bag is no object or has no such member.
pub open spec fn document_member(bag: JsonView, key: Seq<char>) -> JsonView {
    match bag.member(key) {
        Some(value) => value,
        None => JsonView::Null,
    }
}

/// The non-negative integer that a parameter bag holds under `key`.
pub open spec fn unsigned_member(bag: JsonView, key: Seq<char>) -> Option<u64> {
    match bag.member(key) {
        Some(value) => value.unsigned(),
        None => None,
    }
}

/// Whether a document is a byte value: a non-negative integer below 256.
pub open spec fn is_byte(item: JsonView) -> bool {
    item.unsigned() matches Some(n) && n <= 255
}

/// The bytes that an array of byte values lists; `None` where an item is no
/// byte value.
pub open spec fn byte_items(items: Seq<JsonView>) -> Option<Seq<u8>> {
    if forall|i: int| 0 <= i < items.len() ==> is_byte(#[trigger] items[i]) {
        Some(Seq::new(items.len(), |i: int| items[i].unsigned().unwrap() as u8))
    } else {
        None
    }
}

/// Bytes that are listed as an array of byte values are read back from it.
pub proof fn lemma_byte_array_round_trip(bytes: Seq<u8>)
    ensures
        byte_array(bytes).items() matches Some(items) && byte_items(items) == Some(bytes),
{
    let items = byte_array(bytes)->Array_0;
    assert forall|i: int| 0 <= i < items.len() implies is_byte(#[trigger] items[i]) by {}
    assert(byte_items(items).unwrap() =~= bytes);
}

/// The bytes that a parameter bag holds under `key` as an array of byte
/// values.
pub open spec fn bytes_member(bag: JsonView, key: Seq<char>) -> Option<Seq<u8>> {
    match bag.member(key) {
        Some(value) => match value.items() {
            Some(items) => byte_items(items),
            None => None,
        },
        None => None,
    }
}

/// Copies the document that a parameter bag holds under `key`.
pub fn read_document(bag: &Json, key: &str) -> (r: Json)
    ensures
        r@ == document_member(bag@, key@),
{
    match bag.member(key) {
        Some(value) => value.duplicate(),
        None => Json::Null,
    }
}

/// Reads the non-negative integer that a parameter bag holds under `key`.
pub fn read_unsigned(bag: &Json, key: &str) -> (r: Option<u64>)
    ensures
        r == unsigned_member(bag@, key@),
{
    match bag.member(key) {
        Some(value) => value.as_u64(),
        None => None,
    }
}

/// Reads the bytes that a parameter bag holds under `key`.
pub fn read_bytes(bag: &Json, key: &str) -> (r: Option<Vec<u8>>)
    ensures
        bytes_view(r) == bytes_member(bag@, key@),
{
    let items = match bag.member(key) {
        Some(value) => match value.as_array() {
            Some(items) => items,
            None => {
                return None;
            },
        },
        None => {
            return None;
        },
    };
    let ghost all = views(items@);
    let mut out: Vec<u8> = Vec::new();
    let mut i: usize = 0;
    while i < items.len()
        invariant
            i <= items@.len(),
            all == views(items@),
            bytes_member(bag@, key@) == byte_items(all),
            out@.len() == i,
            forall|j: int| 0 <= j < i ==> is_byte(#[trigger] all[j]),
            forall|j: int| 0 <= j < i ==> out@[j] == all[j].unsigned().unwrap() as u8,
        decreases items@.len() - i,
    {
        match items[i].as_u64() {
            Some(n) => {
                if n > 255 {
                    assert(!is_byte(all[i as int]));
                    return None;
                }
                out.push(n as u8);
            },
            None => {
                assert(!is_byte(all[i as int]));
                return None;
            },
        }
        i += 1;
    }
    assert(out@ =~= byte_items(all).unwrap());
    Some(out)
}

/// The parameters that a parameter bag holds. Each of the first seven is the
/// member under its name, of whatever kind it is, and `null` where the bag
/// has none. The ciphertext is read as an array of byte values and the bounds
/// as non-negative integers; one that is absent or of another kind counts as
/// left out.
pub open spec fn parameters_in(bag: JsonView) -> ParametersView {
    ParametersView {
        client_id: document_member(bag, "clientId"@),
        secret: document_member(bag, "secret"@),
        client_user_id: document_member(bag, "clientUserId"@),
        redirect_uri: document_member(bag, "redirectUri"@),
        public_token: document_member(bag, "publicToken"@),
        access_token: document_member(bag, "accessToken"@),
        institution_id: document_member(bag, "institutionId"@),
        encrypted_secret: bytes_member(bag, "encrypted_secret"@),
        range_lower: unsigned_member(bag, "rangeBottomBound"@),
        range_upper: unsigned_member(bag, "rangeUpperBound"@),
    }
}

impl Parameters {
    /// Reads the parameters out of a caller's parameter bag.
    pub fn from_bag(bag: &Json) -> (r: Parameters)
        ensures
            r@ == parameters_in(bag@),
    {
        Parameters {
            client_id: read_document(bag, "clientId"),
            secret: read_document(bag, "secret"),
            client_user_id: read_document(bag, "clientUserId"),
            redirect_uri: read_document(bag, "redirectUri"),
            public_token: read_document(bag, "publicToken"),
            access_token: read_document(bag, "accessToken"),
            institution_id: read_document(bag, "institutionId"),
            encrypted_secret: read_bytes(bag, "encrypted_secret"),
            range_lower: read_unsigned(bag, "rangeBottomBound"),
            range_upper: read_unsigned(bag, "rangeUpperBound"),
        }
    }
}

/// The text `s` as a document.
pub fn text_of(s: &str) -> (r: Json)
    ensures
        r@ == JsonView::Text(s@),
{
    Json::Text(String::from_str(s))
}

/// The array that holds the one text `s`.
pub fn single(s: &str) -> (r: Json)
    ensures
        r@ == JsonView::Array(seq![JsonView::Text(s@)]),
{
    let mut items: Vec<Json> = Vec::new();
    items.push(text_of(s));
    proof {
        lemma_array_view(items);
        assert(views(items@) =~= seq![JsonView::Text(s@)]);
    }
    Json::Array(items)
}

/// The body of a request that creates a link token.
pub open spec fn link_token_body(p: ParametersView, s: Settings) -> JsonView {
    JsonView::Object(
        seq![
            ("client_id"@, p.client_id),
            ("client_name"@, JsonView::Text(s.client_name@)),
            ("country_codes"@, JsonView::Array(seq![JsonView::Text(s.country_code@)])),
            ("language"@, JsonView::Text(s.language@)),
            ("products"@, JsonView::Array(seq![JsonView::Text(s.product@)])),
            ("redirect_uri"@, p.redirect_uri),
            ("secret"@, p.secret),
            ("user"@, JsonView::Object(seq![("client_user_id"@, p.client_user_id)])),
        ],
    )
}

/// The body of a request that exchanges a public token.
pub open spec fn exchange_body(p: ParametersView) -> JsonView {
    JsonView::Object(
        seq![
            ("client_id"@, p.client_id),
            ("public_token"@, p.public_token),
            ("secret"@, p.secret),
        ],
    )
}

/// The body of a request that reads account balances.
pub open spec fn balance_body(p: ParametersView) -> JsonView {
    JsonView::Object(
        seq![
            ("access_token"@, p.access_token),
            ("client_id"@, p.client_id),
            ("secret"@, p.secret),
        ],
    )
}

/// The body of a request that issues a public token of the sandbox, with the
/// secret given apart.
pub open spec fn sandbox_token_body(
    p: ParametersView,
    s: Settings,
    secret: JsonView,
) -> JsonView {
    JsonView::Object(
        seq![
            ("client_id"@, p.client_id),
            ("initial_products"@, JsonView::Array(seq![JsonView::Text(s.product@)])),
            ("institution_id"@, p.institution_id),
            (
                "options"@,
                JsonView::Object(
                    seq![
                        ("override_password"@, JsonView::Text(s.override_password@)),
                        ("override_username"@, JsonView::Text(s.override_username@)),
                        ("webhook"@, JsonView::Text(s.webhook@)),
                    ],
                ),
            ),
            ("secret"@, secret),
        ],
    )
}

/// The body of the request that `op` sends to the provider. `secret` stands
/// for the caller's secret where `op` takes it as ciphertext, and is not read
/// by any other operation. The key export sends nothing: its body is `null`.
pub open spec fn body_of(
    op: Operation,
    p: ParametersView,
    s: Settings,
    secret: JsonView,
) -> JsonView {
    match op {
        Operation::LinkToken => link_token_body(p, s),
        Operation::ExchangeAccessToken => exchange_body(p),
        Operation::BalanceRange => balance_body(p),
        Operation::BalanceRangeProof => balance_body(p),
        Operation::SandboxPublicToken => sandbox_token_body(p, s, p.secret),
        Operation::SandboxPublicTokenEncryptedSecret => sandbox_token_body(p, s, secret),
        Operation::SandboxExchangeAccessToken => exchange_body(p),
        Operation::PublicKeyExport => JsonView::Null,
    }
}

fn build_link_token_body(p: &Parameters, s: &Settings) -> (r: Json)
    ensures
        r@ == link_token_body(p@, *s),
{
    let mut user: Vec<(String, Json)> = Vec::new();
    user.push((String::from_str("client_user_id"), p.client_user_id.duplicate()));
    proof {
        lemma_object_view(user);
        assert(member_views(user@) =~= seq![("client_user_id"@, p@.client_user_id)]);
    }
    let mut m: Vec<(String, Json)> = Vec::new();
    m.push((String::from_str("client_id"), p.client_id.duplicate()));
    m.push((String::from_str("client_name"), text_of(s.client_name.as_str())));
    m.push((String::from_str("country_codes"), single(s.country_code.as_str())));
    m.push((String::from_str("language"), text_of(s.language.as_str())));
    m.push((String::from_str("products"), single(s.product.as_str())));
    m.push((String::from_str("redirect_uri"), p.redirect_uri.duplicate()));
    m.push((String::from_str("secret"), p.secret.duplicate()));
    m.push((String::from_str("user"), Json::Object(user)));
    proof {
        lemma_object_view(m);
        assert(member_views(m@) =~= link_token_body(p@, *s)->Object_0);
    }
    Json::Object(m)
}

fn build_exchange_body(p: &Parameters) -> (r: Json)
    ensures
        r@ == exchange_body(p@),
{
    let mut m: Vec<(String, Json)> = Vec::new();
    m.push((String::from_str("client_id"), p.client_id.duplicate()));
    m.push((String::from_str("public_token"), p.public_token.duplicate()));
    m.push((String::from_str("secret"), p.secret.duplicate()));
    proof {
        lemma_object_view(m);
        assert(member_views(m@) =~= exchange_body(p@)->Object_0);
    }
    Json::Object(m)
}

fn build_balance_body(p: &Parameters) -> (r: Json)
    ensures
        r@ == balance_body(p@),
{
    let mut m: Vec<(String, Json)> = Vec::new();
    m.push((String::from_str("access_token"), p.access_token.duplicate()));
    m.push((String::from_str("client_id"), p.client_id.duplicate()));
    m.push((String::from_str("secret"), p.secret.duplicate()));
    proof {
        lemma_object_view(m);
        assert(member_views(m@) =~= balance_body(p@)->Object_0);
    }
    Json::Object(m)
}

fn build_sandbox_token_body(p: &Parameters, s: &Settings, secret: Json) -> (r: Json)
    ensures
        r@ == sandbox_token_body(p@, *s, secret@),
{
    let mut options: Vec<(String, Json)> = Vec::new();
    options.push((String::from_str("override_password"), text_of(s.override_password.as_str())));
    options.push((String::from_str("override_username"), text_of(s.override_username.as_str())));
    options.push((String::from_str("webhook"), text_of(s.webhook.as_str())));
    proof {
        lemma_object_view(options);
        assert(member_views(options@) =~= seq![
            ("override_password"@, JsonView::Text(s.override_password@)),
            ("override_username"@, JsonView::Text(s.override_username@)),
            ("webhook"@, JsonView::Text(s.webhook@)),
        ]);
    }
    let mut m: Vec<(String, Json)> = Vec::new();
    m.push((String::from_str("client_id"), p.client_id.duplicate()));
    m.push((String::from_str("initial_products"), single(s.product.as_str())));
    m.push((String::from_str("institution_id"), p.institution_id.duplicate()));
    m.push((String::from_str("options"), Json::Object(options)));
    m.push((String::from_str("secret"), secret));
    proof {
        lemma_object_view(m);
        assert(member_views(m@) =~= sandbox_token_body(p@, *s, secret@)->Object_0);
    }
    Json::Object(m)
}

/// Builds the body of the request that `op` sends to the provider.
pub fn request_body(op: Operation, p: &Parameters, s: &Settings, secret: Json) -> (r: Json)
    ensures
        r@ == body_of(op, p@, *s, secret@),
{
    match op {
        Operation::LinkToken => build_link_token_body(p, s),
        Operation::ExchangeAccessToken => build_exchange_body(p),
        Operation::BalanceRange => build_balance_body(p),
        Operation::BalanceRangeProof => build_balance_body(p),
        Operation::SandboxPublicToken => build_sandbox_token_body(p, s, p.secret.duplicate()),
        Operation::SandboxPublicTokenEncryptedSecret => build_sandbox_token_body(p, s, secret),
        Operation::SandboxExchangeAccessToken => build_exchange_body(p),
        Operation::PublicKeyExport => Json::Null,
    }
}

/// A request for account balances holds the caller's access token, client
/// identifier and secret, and nothing else.
pub proof fn lemma_balance_body_members(
    op: Operation,
    p: ParametersView,
    s: Settings,
    secret: JsonView,
)
    requires
        op.reads_balances(),
    ensures
        body_of(op, p, s, secret) matches JsonView::Object(m) && m.len() == 3 && m[0] == (
            "access_token"@,
            p.access_token,
        ) && m[1] == ("client_id"@, p.client_id) && m[2] == ("secret"@, p.secret),
{
}

/// A request for account balances carries what the caller's bag holds under
/// `accessToken`, `clientId` and `secret`, each as it is and of whatever kind,
/// `null` only where the bag has no such member, and nothing else.
pub proof fn lemma_balance_body_from_bag(op: Operation, bag: JsonView, s: Settings, secret: JsonView)
    requires
        op.reads_balances(),
    ensures
        body_of(op, parameters_in(bag), s, secret) == JsonView::Object(
            seq![
                ("access_token"@, document_member(bag, "accessToken"@)),
                ("client_id"@, document_member(bag, "clientId"@)),
                ("secret"@, document_member(bag, "secret"@)),
            ],
        ),
{
}

/// What a bag without repeated keys holds under a key has none either.
pub proof fn lemma_member_without_repeats(bag: JsonView, key: Seq<char>)
    requires
        no_repeats(bag),
    ensures
        no_repeats(document_member(bag, key)),
{
    if bag.member(key) is Some {
        let members = bag->Object_0;
        lemma_lookup_is_member(members, key);
        let i = choose|i: int|
            0 <= i < members.len() && (#[trigger] members[i]).1 == lookup(members, key).unwrap();
        assert(no_repeats(members[i].1));
    }
}

/// The body of a request for account balances is written as it stands where
/// the caller's bag has no repeated keys, as no document has that the codec
/// read: the three credentials go out as the bag holds them.
pub proof fn lemma_balance_body_is_written_as_it_is(
    op: Operation,
    bag: JsonView,
    s: Settings,
    secret: JsonView,
)
    requires
        op.reads_balances(),
        no_repeats(bag),
    ensures
        canonical(body_of(op, parameters_in(bag), s, secret)) == body_of(
            op,
            parameters_in(bag),
            s,
            secret,
        ),
{
    let body = body_of(op, parameters_in(bag), s, secret);
    lemma_balance_body_from_bag(op, bag, s, secret);
    lemma_member_without_repeats(bag, "accessToken"@);
    lemma_member_without_repeats(bag, "clientId"@);
    lemma_member_without_repeats(bag, "secret"@);
    reveal_strlit("access_token");
    reveal_strlit("client_id");
    reveal_strlit("secret");
    assert("access_token"@.len() == 12);
    assert("client_id"@.len() == 9);
    assert("secret"@.len() == 6);
    assert(distinct_keys(body->Object_0));
    lemma_canonical_without_repeats(body);
}

/// Whether `out` is the request that posts the body `body` to `path` on the
/// provider: it goes to the provider's host and port with the certificate
/// verified, and its length header counts the bytes of the body as the codec
/// writes it, without repeated keys.
pub open spec fn is_post(out: Outgoing, s: Settings, path: Seq<char>, body: JsonView) -> bool {
    &&& out.host@ == s.provider_host@
    &&& out.port == s.provider_port
    &&& out.policy == CertPolicy::Verify
    &&& out.message@ == request_text(
        "POST"@,
        encode_utf8(path),
        s.provider_host@,
        s.body_headers(),
        Some(document_text(canonical(body))),
    )
}

/// Whether `out` is the request with the body `body` that `op` sends to the
/// provider: a post to the operation's path.
pub open spec fn is_provider_request(out: Outgoing, op: Operation, s: Settings, body: JsonView) -> bool {
    s.path_of(op) matches Some(path) && is_post(out, s, path, body)
}

/// The headers of a request with a body.
fn body_header_list(s: &Settings) -> (r: Vec<(String, String)>)
    ensures
        header_views(r@) == s.body_headers(),
{
    let mut h: Vec<(String, String)> = Vec::new();
    h.push((String::from_str("User-Agent"), s.user_agent.clone()));
    h.push((String::from_str("Accept"), s.accept.clone()));
    h.push((String::from_str("Content-Type"), s.content_type.clone()));
    assert(header_views(h@) =~= s.body_headers());
    h
}

/// Frames `body` as a request that posts it to `path` on the provider.
pub fn post(s: &Settings, path: &str, body: &Json) -> (r: Outgoing)
    ensures
        is_post(r, *s, path@, body@),
{
    let text = encode(body);
    let headers = body_header_list(s);
    let message = build_request(
        "POST",
        path.as_bytes(),
        s.provider_host.as_str(),
        &headers,
        Some(text.as_slice()),
    );
    Outgoing {
        host: s.provider_host.clone(),
        port: s.provider_port,
        message,
        policy: CertPolicy::Verify,
    }
}

/// Frames `body` as the request that `op` sends to the provider; `None` for
/// the one operation that sends nothing.
pub fn provider_request(op: Operation, s: &Settings, body: &Json) -> (r: Option<Outgoing>)
    ensures
        match r {
            Some(out) => is_provider_request(out, op, *s, body@),
            None => op == Operation::PublicKeyExport,
        },
{
    match s.path(op) {
        Some(path) => Some(post(s, path, body)),
        None => None,
    }
}

} // verus!
