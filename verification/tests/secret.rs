use plaid_connector::error::ConnectorError;
use plaid_connector::json::encode;
use plaid_connector::secret::{
    bytes_to_array, secret_of, KeyPair, PublicKey, DEFAULT_MODULUS_BITS, MAX_MODULUS_BITS,
    MIN_MODULUS_BITS,
};
use rsa::PublicKey as CipherPublicKey;

fn encrypt(public: &PublicKey, plain: &[u8]) -> Vec<u8> {
    let key = rsa::RSAPublicKey::new(
        rsa::BigUint::from_bytes_be(&public.modulus),
        rsa::BigUint::from_bytes_be(&public.exponent),
    )
    .unwrap();
    key.encrypt(&mut rand::rngs::OsRng, rsa::PaddingScheme::PKCS1v15, plain).unwrap()
}

#[test]
fn secret_encrypted_under_the_public_key_is_decrypted() {
    let pair = KeyPair::generate(MIN_MODULUS_BITS).unwrap();
    let ciphertext = encrypt(pair.public_key(), "s3cret-\u{e9}".as_bytes());
    assert_ne!(ciphertext, "s3cret-\u{e9}".as_bytes().to_vec());
    assert_eq!(pair.decrypt(&ciphertext), Ok("s3cret-\u{e9}".to_string()));
    let again = encrypt(pair.public_key(), b"");
    assert_eq!(pair.decrypt(&again), Ok(String::new()));
}

#[test]
fn bytes_that_are_no_ciphertext_fail_to_decrypt() {
    let pair = KeyPair::generate(MIN_MODULUS_BITS).unwrap();
    assert_eq!(pair.decrypt(&[]), Err(ConnectorError::Decryption));
    assert_eq!(pair.decrypt(&[1, 2, 3]), Err(ConnectorError::Decryption));
    assert_eq!(pair.decrypt(&[0xff; 128]), Err(ConnectorError::Decryption));
    assert_eq!(pair.decrypt(&[0x5a; 300]), Err(ConnectorError::Decryption));
}

#[test]
fn secret_under_another_key_fails_to_decrypt() {
    let pair = KeyPair::generate(MIN_MODULUS_BITS).unwrap();
    let other = KeyPair::generate(MIN_MODULUS_BITS).unwrap();
    assert_ne!(pair.public_key().modulus, other.public_key().modulus);
    let ciphertext = encrypt(other.public_key(), b"secret");
    assert_ne!(pair.decrypt(&ciphertext), Ok("secret".to_string()));
}

#[test]
fn plaintext_that_is_not_text_fails_to_decrypt() {
    let pair = KeyPair::generate(MIN_MODULUS_BITS).unwrap();
    let ciphertext = encrypt(pair.public_key(), &[0x61, 0xff, 0xfe]);
    assert_eq!(pair.decrypt(&ciphertext), Err(ConnectorError::Decryption));
}

#[test]
fn public_key_is_the_same_for_every_reader() {
    let pair = KeyPair::generate(MIN_MODULUS_BITS).unwrap();
    let first = (pair.public_key().modulus.clone(), pair.public_key().exponent.clone());
    let second = (pair.public_key().modulus.clone(), pair.public_key().exponent.clone());
    assert_eq!(first, second);
    assert_eq!(first.0.len(), MIN_MODULUS_BITS / 8);
    assert_eq!(first.1, vec![1, 0, 1]);
}

#[test]
fn key_size_outside_the_bounds_is_refused() {
    assert!(KeyPair::generate(0).is_none());
    assert!(KeyPair::generate(MIN_MODULUS_BITS - 1).is_none());
    assert!(KeyPair::generate(MAX_MODULUS_BITS + 1).is_none());
    assert_eq!(MIN_MODULUS_BITS, 1024);
    assert_eq!(DEFAULT_MODULUS_BITS, 2048);
    assert_eq!(MAX_MODULUS_BITS, 8192);
}

#[test]
fn failed_generation_gives_no_pair() {
    assert!(KeyPair::from_generated(Err(rsa::errors::Error::TooFewPrimes)).is_none());
}

#[test]
fn generated_key_is_kept_with_its_public_part() {
    let key = rsa::RSAPrivateKey::new(&mut rand::rngs::OsRng, 1024).unwrap();
    let ciphertext =
        key.encrypt(&mut rand::rngs::OsRng, rsa::PaddingScheme::PKCS1v15, b"kept").unwrap();
    let pair = KeyPair::from_generated(Ok((key, vec![9, 8, 7], vec![1, 0, 1]))).unwrap();
    assert_eq!(pair.public_key().modulus, vec![9, 8, 7]);
    assert_eq!(pair.public_key().exponent, vec![1, 0, 1]);
    assert_eq!(pair.decrypt(&ciphertext), Ok("kept".to_string()));
}

#[test]
fn every_accepted_size_gives_a_pair_with_a_modulus_of_that_size() {
    for bits in [MIN_MODULUS_BITS, 1027, 1032] {
        let pair = KeyPair::generate(bits).unwrap();
        assert_eq!(pair.public_key().modulus.len(), (bits + 7) / 8);
        assert_ne!(pair.public_key().modulus[0], 0);
        assert_eq!(pair.public_key().exponent, vec![1, 0, 1]);
    }
}

#[test]
fn decryption_depends_on_the_key_and_the_ciphertext_alone() {
    let pair = KeyPair::generate(MIN_MODULUS_BITS).unwrap();
    let ciphertext = encrypt(pair.public_key(), b"again");
    let first = pair.decrypt(&ciphertext);
    let second = pair.decrypt(&ciphertext);
    assert_eq!(first, Ok("again".to_string()));
    assert_eq!(first, second);
    assert_eq!(pair.decrypt(&[7, 7, 7]), pair.decrypt(&[7, 7, 7]));
}

#[test]
fn secret_is_the_text_of_the_plaintext() {
    assert_eq!(secret_of(Ok(b"abc".to_vec())), Ok("abc".to_string()));
    assert_eq!(secret_of(Ok(vec![0xc3, 0xa9])), Ok("\u{e9}".to_string()));
    assert_eq!(secret_of(Ok(Vec::new())), Ok(String::new()));
    assert_eq!(secret_of(Ok(vec![0xc3])), Err(ConnectorError::Decryption));
    assert_eq!(secret_of(Ok(vec![0xff])), Err(ConnectorError::Decryption));
    assert_eq!(secret_of(Err(rsa::errors::Error::Decryption)), Err(ConnectorError::Decryption));
}

#[test]
fn key_material_is_written_as_arrays_of_bytes() {
    let public = PublicKey { modulus: vec![0, 200, 255], exponent: vec![1, 0, 1] };
    assert_eq!(
        String::from_utf8(encode(&public.to_json())).unwrap(),
        "{\"exponent\":[1,0,1],\"modulus\":[0,200,255]}"
    );
    assert_eq!(String::from_utf8(encode(&bytes_to_array(&vec![]))).unwrap(), "[]");
}
