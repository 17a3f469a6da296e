use plaid_connector::json::{decode, encode, Json};
use plaid_connector::operation::Operation;
use plaid_connector::request::{
    post, provider_request, read_bytes, read_document, read_unsigned, request_body, Parameters,
};
use plaid_connector::settings::{ProofPolicy, Settings};
use plaid_connector::wire::CertPolicy;

fn text(s: &str) -> Json {
    Json::Text(s.to_string())
}

fn written(doc: &Json) -> String {
    String::from_utf8(encode(doc)).unwrap()
}

fn parameters() -> Parameters {
    Parameters {
        client_id: text("id-1"),
        secret: text("s3cr\"et"),
        client_user_id: text("user-9"),
        redirect_uri: text("https://example.org/cb"),
        public_token: text("public-tok"),
        access_token: text("access-tok"),
        institution_id: text("ins_1"),
        encrypted_secret: None,
        range_lower: Some(1000),
        range_upper: Some(2000),
    }
}

fn body_text(op: Operation, p: &Parameters, secret: Json) -> String {
    let s = Settings::sandbox(ProofPolicy::SingleValue);
    String::from_utf8(encode(&request_body(op, p, &s, secret))).unwrap()
}

#[test]
fn sandbox_settings_hold_the_fixed_values() {
    let s = Settings::sandbox(ProofPolicy::SplitBound);
    assert_eq!(s.provider_host, "sandbox.plaid.com");
    assert_eq!(s.provider_port, 443);
    assert_eq!(s.link_token_path, "/link/token/create");
    assert_eq!(s.exchange_path, "/item/public_token/exchange");
    assert_eq!(s.balance_path, "/accounts/balance/get");
    assert_eq!(s.sandbox_public_token_path, "/sandbox/public_token/create");
    assert_eq!(s.sandbox_exchange_path, "/item/public_token/exchange");
    assert_eq!(s.proof_host, "clique-sign-claim");
    assert_eq!(s.proof_port, 12341);
    assert_eq!(s.proof_path, "/zkRangeProof");
    assert_eq!(s.proof_policy, ProofPolicy::SplitBound);
    assert_eq!(s.user_agent, "curl/7.79.1");
    assert_eq!(s.accept, "*/*");
    assert_eq!(s.content_type, "application/json");
    assert_eq!(s.client_name, "Clique2046");
    assert_eq!(s.product, "auth");
    assert_eq!(s.country_code, "US");
    assert_eq!(s.language, "en");
    assert_eq!(s.webhook, "https://eoti3zo8yt7vmo.m.pipedream.net");
    assert_eq!(s.override_username, "user_good");
    assert_eq!(s.override_password, "pass_good");
}

#[test]
fn every_operation_but_the_key_export_has_a_path() {
    let s = Settings::sandbox(ProofPolicy::SingleValue);
    assert_eq!(s.path(Operation::LinkToken), Some("/link/token/create"));
    assert_eq!(s.path(Operation::ExchangeAccessToken), Some("/item/public_token/exchange"));
    assert_eq!(s.path(Operation::BalanceRange), Some("/accounts/balance/get"));
    assert_eq!(s.path(Operation::BalanceRangeProof), Some("/accounts/balance/get"));
    assert_eq!(s.path(Operation::SandboxPublicToken), Some("/sandbox/public_token/create"));
    assert_eq!(
        s.path(Operation::SandboxPublicTokenEncryptedSecret),
        Some("/sandbox/public_token/create")
    );
    assert_eq!(s.path(Operation::SandboxExchangeAccessToken), Some("/item/public_token/exchange"));
    assert_eq!(s.path(Operation::PublicKeyExport), None);
}

#[test]
fn balance_body_holds_the_three_credentials_and_nothing_else() {
    for op in [Operation::BalanceRange, Operation::BalanceRangeProof] {
        assert_eq!(
            body_text(op, &parameters(), Json::Null),
            "{\"access_token\":\"access-tok\",\"client_id\":\"id-1\",\"secret\":\"s3cr\\\"et\"}"
        );
    }
}

#[test]
fn link_token_body_merges_parameters_with_defaults() {
    assert_eq!(
        body_text(Operation::LinkToken, &parameters(), Json::Null),
        "{\"client_id\":\"id-1\",\"client_name\":\"Clique2046\",\"country_codes\":[\"US\"],\
         \"language\":\"en\",\"products\":[\"auth\"],\
         \"redirect_uri\":\"https://example.org/cb\",\"secret\":\"s3cr\\\"et\",\
         \"user\":{\"client_user_id\":\"user-9\"}}"
    );
}

#[test]
fn exchange_bodies_hold_the_public_token() {
    for op in [Operation::ExchangeAccessToken, Operation::SandboxExchangeAccessToken] {
        assert_eq!(
            body_text(op, &parameters(), Json::Null),
            "{\"client_id\":\"id-1\",\"public_token\":\"public-tok\",\"secret\":\"s3cr\\\"et\"}"
        );
    }
}

#[test]
fn sandbox_token_body_holds_the_override_credentials() {
    assert_eq!(
        body_text(Operation::SandboxPublicToken, &parameters(), Json::Text("unused".to_string())),
        "{\"client_id\":\"id-1\",\"initial_products\":[\"auth\"],\"institution_id\":\"ins_1\",\
         \"options\":{\"override_password\":\"pass_good\",\"override_username\":\"user_good\",\
         \"webhook\":\"https://eoti3zo8yt7vmo.m.pipedream.net\"},\"secret\":\"s3cr\\\"et\"}"
    );
}

#[test]
fn sandbox_token_body_for_ciphertext_holds_the_decrypted_secret() {
    assert_eq!(
        body_text(
            Operation::SandboxPublicTokenEncryptedSecret,
            &parameters(),
            Json::Text("plain".to_string())
        ),
        "{\"client_id\":\"id-1\",\"initial_products\":[\"auth\"],\"institution_id\":\"ins_1\",\
         \"options\":{\"override_password\":\"pass_good\",\"override_username\":\"user_good\",\
         \"webhook\":\"https://eoti3zo8yt7vmo.m.pipedream.net\"},\"secret\":\"plain\"}"
    );
}

#[test]
fn parameter_left_out_is_sent_as_null() {
    let mut p = parameters();
    p.access_token = Json::Null;
    p.secret = Json::Null;
    assert_eq!(
        body_text(Operation::BalanceRange, &p, Json::Null),
        "{\"access_token\":null,\"client_id\":\"id-1\",\"secret\":null}"
    );
}

#[test]
fn key_export_has_no_body_and_no_request() {
    let s = Settings::sandbox(ProofPolicy::SingleValue);
    let body = request_body(Operation::PublicKeyExport, &parameters(), &s, Json::Null);
    assert!(matches!(body, Json::Null));
    assert!(provider_request(Operation::PublicKeyExport, &s, &body).is_none());
}

#[test]
fn provider_request_is_a_post_with_exact_length() {
    let s = Settings::sandbox(ProofPolicy::SingleValue);
    let body = request_body(Operation::BalanceRange, &parameters(), &s, Json::Null);
    let out = provider_request(Operation::BalanceRange, &s, &body).unwrap();
    assert_eq!(out.host, "sandbox.plaid.com");
    assert_eq!(out.port, 443);
    assert_eq!(out.policy, CertPolicy::Verify);
    let text = "{\"access_token\":\"access-tok\",\"client_id\":\"id-1\",\"secret\":\"s3cr\\\"et\"}";
    assert_eq!(text.len(), 68);
    let expected = format!(
        "POST /accounts/balance/get HTTP/1.1\r\n\
         HOST: sandbox.plaid.com\r\n\
         User-Agent: curl/7.79.1\r\n\
         Accept: */*\r\n\
         Content-Type: application/json\r\n\
         Content-Length: 68\r\n\r\n{}",
        text
    );
    assert_eq!(String::from_utf8(out.message).unwrap(), expected);
}

#[test]
fn length_header_counts_bytes_not_characters() {
    let s = Settings::sandbox(ProofPolicy::SingleValue);
    let mut p = parameters();
    p.client_id = text("\u{e9}");
    p.secret = text("\u{1f511}");
    p.access_token = text("a");
    let body = request_body(Operation::BalanceRange, &p, &s, Json::Null);
    let out = provider_request(Operation::BalanceRange, &s, &body).unwrap();
    let message = String::from_utf8(out.message).unwrap();
    let (head, text) = message.split_once("\r\n\r\n").unwrap();
    assert_eq!(text, "{\"access_token\":\"a\",\"client_id\":\"\u{e9}\",\"secret\":\"\u{1f511}\"}");
    assert_eq!(text.chars().count(), 49);
    assert_eq!(text.len(), 53);
    assert!(head.ends_with("\r\nContent-Length: 53"));
}

#[test]
fn parameters_are_read_from_the_bag_by_name() {
    let bag = decode(
        b"{\"clientId\": \"id\", \"secret\": \"sec\", \"clientUserId\": \"u\", \
           \"redirectUri\": \"r\", \"publicToken\": \"p\", \"accessToken\": \"a\", \
           \"institutionId\": \"i\", \"encrypted_secret\": [0, 17, 255], \
           \"rangeBottomBound\": 1000, \"rangeUpperBound\": 2000, \"other\": true}",
    )
    .unwrap();
    let p = Parameters::from_bag(&bag);
    assert_eq!(written(&p.client_id), "\"id\"");
    assert_eq!(written(&p.secret), "\"sec\"");
    assert_eq!(written(&p.client_user_id), "\"u\"");
    assert_eq!(written(&p.redirect_uri), "\"r\"");
    assert_eq!(written(&p.public_token), "\"p\"");
    assert_eq!(written(&p.access_token), "\"a\"");
    assert_eq!(written(&p.institution_id), "\"i\"");
    assert_eq!(p.encrypted_secret, Some(vec![0, 17, 255]));
    assert_eq!(p.range_lower, Some(1000));
    assert_eq!(p.range_upper, Some(2000));
}

#[test]
fn credentials_of_any_kind_are_kept_as_they_are() {
    let bag = decode(
        b"{\"clientId\": 5, \"secret\": true, \"accessToken\": [\"a\", {\"b\": 1.5}], \
           \"publicToken\": {\"k\": null}, \"clientUserId\": -3, \"redirectUri\": null}",
    )
    .unwrap();
    let p = Parameters::from_bag(&bag);
    assert_eq!(written(&p.client_id), "5");
    assert_eq!(written(&p.secret), "true");
    assert_eq!(written(&p.access_token), "[\"a\",{\"b\":1.5}]");
    assert_eq!(written(&p.public_token), "{\"k\":null}");
    assert_eq!(written(&p.client_user_id), "-3");
    assert_eq!(written(&p.redirect_uri), "null");
    assert_eq!(written(&p.institution_id), "null");
    for op in [Operation::BalanceRange, Operation::BalanceRangeProof] {
        assert_eq!(
            body_text(op, &p, Json::Null),
            "{\"access_token\":[\"a\",{\"b\":1.5}],\"client_id\":5,\"secret\":true}"
        );
    }
    assert_eq!(
        body_text(Operation::ExchangeAccessToken, &p, Json::Null),
        "{\"client_id\":5,\"public_token\":{\"k\":null},\"secret\":true}"
    );
    assert_eq!(
        body_text(Operation::LinkToken, &p, Json::Null),
        "{\"client_id\":5,\"client_name\":\"Clique2046\",\"country_codes\":[\"US\"],\
         \"language\":\"en\",\"products\":[\"auth\"],\"redirect_uri\":null,\"secret\":true,\
         \"user\":{\"client_user_id\":-3}}"
    );
    assert_eq!(
        body_text(Operation::SandboxPublicToken, &p, Json::Null),
        "{\"client_id\":5,\"initial_products\":[\"auth\"],\"institution_id\":null,\
         \"options\":{\"override_password\":\"pass_good\",\"override_username\":\"user_good\",\
         \"webhook\":\"https://eoti3zo8yt7vmo.m.pipedream.net\"},\"secret\":true}"
    );
}

#[test]
fn parameters_of_a_bag_that_holds_none_are_left_out() {
    let bag = decode(
        b"{\"encrypted_secret\": [1, 256], \"rangeBottomBound\": -1, \"rangeUpperBound\": 10.5}",
    )
    .unwrap();
    let p = Parameters::from_bag(&bag);
    assert!(matches!(p.client_id, Json::Null));
    assert!(matches!(p.secret, Json::Null));
    assert_eq!(p.encrypted_secret, None);
    assert_eq!(p.range_lower, None);
    assert_eq!(p.range_upper, None);
    for bag in ["null", "[]", "\"clientId\"", "{}", "7"] {
        let p = Parameters::from_bag(&decode(bag.as_bytes()).unwrap());
        assert!(matches!(p.client_id, Json::Null));
        assert!(matches!(p.access_token, Json::Null));
        assert_eq!(p.encrypted_secret, None);
        assert_eq!(p.range_upper, None);
    }
}

#[test]
fn ciphertext_is_an_array_of_byte_values() {
    let bag = decode(
        b"{\"a\": [], \"b\": [1, 2, 3], \"c\": [1, \"2\"], \"d\": [1.0], \"e\": \"AQI=\", \
           \"f\": [255, 0], \"g\": [-1], \"n\": 5, \"t\": \"x\"}",
    )
    .unwrap();
    assert_eq!(read_bytes(&bag, "a"), Some(vec![]));
    assert_eq!(read_bytes(&bag, "b"), Some(vec![1, 2, 3]));
    assert_eq!(read_bytes(&bag, "c"), None);
    assert_eq!(read_bytes(&bag, "d"), None);
    assert_eq!(read_bytes(&bag, "e"), None);
    assert_eq!(read_bytes(&bag, "f"), Some(vec![255, 0]));
    assert_eq!(read_bytes(&bag, "g"), None);
    assert_eq!(read_bytes(&bag, "missing"), None);
    assert_eq!(read_unsigned(&bag, "n"), Some(5));
    assert_eq!(read_unsigned(&bag, "t"), None);
    assert_eq!(written(&read_document(&bag, "t")), "\"x\"");
    assert_eq!(written(&read_document(&bag, "n")), "5");
    assert_eq!(written(&read_document(&bag, "b")), "[1,2,3]");
    assert_eq!(written(&read_document(&bag, "missing")), "null");
    assert_eq!(written(&read_document(&Json::Bool(true), "t")), "null");
}

#[test]
fn post_goes_to_the_path_given() {
    let s = Settings::sandbox(ProofPolicy::SingleValue);
    let out = post(&s, "/any/path", &Json::Array(vec![]));
    assert_eq!(
        String::from_utf8(out.message).unwrap(),
        "POST /any/path HTTP/1.1\r\nHOST: sandbox.plaid.com\r\nUser-Agent: curl/7.79.1\r\n\
         Accept: */*\r\nContent-Type: application/json\r\nContent-Length: 2\r\n\r\n[]"
    );
}
