//! The secret protection unit: a key pair under which callers encrypt the
//! secrets they send, and the decryption of those secrets.

use crate::error::ConnectorError;
use crate::json::{
    lemma_array_view, lemma_object_view, member_views, views, Json, JsonNumber, JsonView,
    NumberView,
};
use vstd::prelude::*;
use vstd::string::StringExecFns;
use vstd::utf8::{decode_utf8, encode_utf8, valid_utf8};

verus! {

/// The smallest modulus, in bits, that a key pair is generated with.
pub const MIN_MODULUS_BITS: usize = 1024;

/// The modulus, in bits, of the key pair of a deployment.
pub const DEFAULT_MODULUS_BITS: usize = 2048;

/// The largest modulus, in bits, that a key pair is generated with.
pub const MAX_MODULUS_BITS: usize = 8192;

/// The private key of the cipher, `rsa::RSAPrivateKey`.
#[verifier::external_type_specification]
#[verifier::external_body]
pub struct ExPrivateKey(rsa::RSAPrivateKey);

/// The error type of the cipher, `rsa::errors::Error`.
#[verifier::external_type_specification]
#[verifier::external_body]
pub struct ExCipherError(rsa::errors::Error);

/// Calls `rsa::RSAPrivateKey::new` with the operating system's random source,
/// `rand::rngs::OsRng`, and writes the modulus and the public exponent of the
/// key out as big-endian bytes, with `rsa::PublicKey::n`, `rsa::PublicKey::e`
/// and `BigUint::to_bytes_be`. The result is the key, the modulus and the
/// exponent, in that order.
///
/// The key depends on chance. The contract claims what holds of every key
/// that comes back: for two primes and a size of 64 bits or more the
/// generator has no return that fails, it searches on until the modulus has
/// exactly `bits` bits, its public exponent is the constant 65537, and
/// `to_bytes_be` writes the fewest bytes that hold a number. The size is
/// bounded on both sides: the search takes ever longer as
/// the size grows, and for a size of a few bits it may find nothing. The call
/// panics where the operating system hands out no random bytes.
#[verifier::external_body]
fn generate_private_key(bits: usize) -> (r: Result<
    (rsa::RSAPrivateKey, Vec<u8>, Vec<u8>),
    rsa::errors::Error,
>)
    requires
        MIN_MODULUS_BITS <= bits <= MAX_MODULUS_BITS,
    ensures
        r is Ok,
        r matches Ok(made) ==> made.1@.len() == (bits + 7) / 8,
        r matches Ok(made) ==> made.2@ == public_exponent(),
{
    let key = rsa::RSAPrivateKey::new(&mut rand::rngs::OsRng, bits)?;
    let modulus = rsa::PublicKey::n(&key).to_bytes_be();
    let exponent = rsa::PublicKey::e(&key).to_bytes_be();
    Ok((key, modulus, exponent))
}

/// Calls `String::from_utf8`, which succeeds exactly on valid UTF-8 and then
/// gives the text whose bytes are `bytes`.
#[verifier::external_body]
fn text_from_utf8(bytes: Vec<u8>) -> (r: Option<String>)
    ensures
        r is Some <==> valid_utf8(bytes@),
        r matches Some(text) ==> encode_utf8(text@) == bytes@,
{
    String::from_utf8(bytes).ok()
}

/// The public exponent of every generated key, 65537, as big-endian bytes.
pub open spec fn public_exponent() -> Seq<u8> {
    seq![1u8, 0u8, 1u8]
}

/// The public part of a key pair.
#[derive(Debug)]
pub struct PublicKey {
    /// The modulus, as big-endian bytes.
    pub modulus: Vec<u8>,
    /// The public exponent, as big-endian bytes.
    pub exponent: Vec<u8>,
}

/// The document that lists `bytes` as an array of numbers.
pub open spec fn byte_array(bytes: Seq<u8>) -> JsonView {
    JsonView::Array(
        Seq::new(bytes.len(), |i: int| JsonView::Number(NumberView::Unsigned(bytes[i] as u64))),
    )
}

/// Lists `bytes` as an array of numbers.
pub fn bytes_to_array(bytes: &Vec<u8>) -> (r: Json)
    ensures
        r@ == byte_array(bytes@),
{
    let mut items: Vec<Json> = Vec::new();
    let mut i: usize = 0;
    while i < bytes.len()
        invariant
            i <= bytes@.len(),
            items@.len() == i,
            forall|j: int|
                0 <= j < i ==> (#[trigger] items@[j])@ == JsonView::Number(
                    NumberView::Unsigned(bytes@[j] as u64),
                ),
        decreases bytes@.len() - i,
    {
        items.push(Json::Number(JsonNumber::Unsigned(bytes[i] as u64)));
        i += 1;
    }
    proof {
        lemma_array_view(items);
        assert(views(items@) =~= byte_array(bytes@)->Array_0);
    }
    Json::Array(items)
}

impl PublicKey {
    /// The key material as a document: the members `exponent` and `modulus`,
    /// each the array of the part's bytes.
    pub open spec fn document(self) -> JsonView {
        JsonView::Object(
            seq![
                ("exponent"@, byte_array(self.exponent@)),
                ("modulus"@, byte_array(self.modulus@)),
            ],
        )
    }

    /// The key material as a document.
    pub fn to_json(&self) -> (r: Json)
        ensures
            r@ == self.document(),
    {
        let mut members: Vec<(String, Json)> = Vec::new();
        members.push((String::from_str("exponent"), bytes_to_array(&self.exponent)));
        members.push((String::from_str("modulus"), bytes_to_array(&self.modulus)));
        proof {
            lemma_object_view(members);
            assert(member_views(members@) =~= self.document()->Object_0);
        }
        Json::Object(members)
    }
}

/// A key pair: made once, and from then on only read.
pub struct KeyPair {
    key: rsa::RSAPrivateKey,
    public: PublicKey,
}

/// The plaintext that the cipher, `rsa::RSAPrivateKey::decrypt` with the
/// padding scheme `PaddingScheme::PKCS1v15`, recovers from `ciphertext` with
/// the private key of `pair`; `None` where it reports an error.
pub uninterp spec fn decryption(pair: KeyPair, ciphertext: Seq<u8>) -> Option<Seq<u8>>;

/// Calls `rsa::RSAPrivateKey::decrypt` on the private key of `pair` with the
/// padding scheme `PaddingScheme::PKCS1v15`. Called this way the cipher uses
/// no random source, so the contract claims that the outcome depends on the
/// key and the bytes of `ciphertext` alone: it names that outcome
/// `decryption(*pair, ciphertext@)` and says nothing of what it is.
#[verifier::external_body]
fn decrypt_pkcs1v15(pair: &KeyPair, ciphertext: &[u8]) -> (r: Result<Vec<u8>, rsa::errors::Error>)
    ensures
        match r {
            Ok(plain) => decryption(*pair, ciphertext@) == Some(plain@),
            Err(_) => decryption(*pair, ciphertext@) is None,
        },
{
    pair.key.decrypt(rsa::PaddingScheme::PKCS1v15, ciphertext)
}

/// The secret that a plaintext holds: its text. No plaintext, and one that is
/// not UTF-8, are a `Decryption` error.
pub open spec fn secret_from(plain: Option<Seq<u8>>) -> Result<Seq<char>, ConnectorError> {
    match plain {
        Some(bytes) => if valid_utf8(bytes) {
            Ok(decode_utf8(bytes))
        } else {
            Err(ConnectorError::Decryption)
        },
        None => Err(ConnectorError::Decryption),
    }
}

/// The secret that a decryption's outcome holds: that of its plaintext, and a
/// `Decryption` error where the decryption failed.
pub open spec fn secret_in(outcome: Result<Vec<u8>, rsa::errors::Error>) -> Result<
    Seq<char>,
    ConnectorError,
> {
    secret_from(
        match outcome {
            Ok(plain) => Some(plain@),
            Err(_) => None,
        },
    )
}

/// Reads the secret out of a decryption's outcome.
pub fn secret_of(outcome: Result<Vec<u8>, rsa::errors::Error>) -> (r: Result<
    String,
    ConnectorError,
>)
    ensures
        match r {
            Ok(text) => secret_in(outcome) == Ok::<Seq<char>, ConnectorError>(text@),
            Err(e) => secret_in(outcome) == Err::<Seq<char>, ConnectorError>(e),
        },
{
    match outcome {
        Ok(plain) => {
            match text_from_utf8(plain) {
                Some(text) => {
                    proof {
                        vstd::utf8::encode_utf8_decode_utf8(text@);
                    }
                    Ok(text)
                },
                None => Err(ConnectorError::Decryption),
            }
        },
        Err(_) => Err(ConnectorError::Decryption),
    }
}

impl KeyPair {
    /// The public part.
    pub closed spec fn public(self) -> PublicKey {
        self.public
    }

    /// Keeps a generated key with the modulus and the public exponent that
    /// came with it; `None` where generation failed.
    pub fn from_generated(
        outcome: Result<(rsa::RSAPrivateKey, Vec<u8>, Vec<u8>), rsa::errors::Error>,
    ) -> (r: Option<KeyPair>)
        ensures
            match outcome {
                Ok(made) => r matches Some(pair) && pair.public().modulus == made.1
                    && pair.public().exponent == made.2,
                Err(_) => r is None,
            },
    {
        match outcome {
            Ok(made) => Some(
                KeyPair { key: made.0, public: PublicKey { modulus: made.1, exponent: made.2 } },
            ),
            Err(_) => None,
        }
    }

    /// Generates a key pair with a modulus of `bits` bits from the operating
    /// system's random source. A size within the accepted bounds gives a
    /// pair, whose modulus takes the fewest bytes that hold `bits` bits and
    /// whose public exponent is 65537; any other size gives `None`.
    pub fn generate(bits: usize) -> (r: Option<KeyPair>)
        ensures
            r is Some <==> MIN_MODULUS_BITS <= bits <= MAX_MODULUS_BITS,
            r matches Some(pair) ==> pair.public().modulus@.len() == (bits + 7) / 8,
            r matches Some(pair) ==> pair.public().exponent@ == public_exponent(),
    {
        if bits < MIN_MODULUS_BITS || bits > MAX_MODULUS_BITS {
            return None;
        }
        KeyPair::from_generated(generate_private_key(bits))
    }

    /// The public part: the same for every reader of the pair.
    pub fn public_key(&self) -> (r: &PublicKey)
        ensures
            *r == self.public(),
    {
        &self.public
    }

    /// Decrypts a secret that was encrypted under the public part: the text
    /// of the plaintext that the cipher recovers. Where the cipher recovers
    /// none, or the plaintext is not UTF-8, the error is `Decryption`.
    pub fn decrypt(&self, ciphertext: &[u8]) -> (r: Result<String, ConnectorError>)
        ensures
            match r {
                Ok(text) => secret_from(decryption(*self, ciphertext@)) == Ok::<
                    Seq<char>,
                    ConnectorError,
                >(text@),
                Err(e) => e == ConnectorError::Decryption && secret_from(
                    decryption(*self, ciphertext@),
                ) is Err,
            },
    {
        secret_of(decrypt_pkcs1v15(self, ciphertext))
    }
}

} // verus!
