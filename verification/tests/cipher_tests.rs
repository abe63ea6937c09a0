use authcore::cipher::SecretCipher;
use authcore::error::CoreError;
use authcore::hex::{from_hex, to_hex};
use authcore::service::Service;
use rustc_serialize::hex::{FromHex, ToHex};

#[test]
fn crypt_test() {
    let data = "hello world".to_string();
    let key = "hello";

    let cipher = SecretCipher::new(key.as_bytes().to_vec());
    let output = cipher.encrypt(data.as_bytes()).unwrap();

    let dec_val = cipher.decrypt(&output).unwrap();

    let dec_val = String::from_utf8_lossy(&dec_val).to_string();
    assert_eq!(data, dec_val);
}

#[test]
fn round_trip_various_inputs() {
    let cipher = SecretCipher::new(b"site-wide key".to_vec());
    let samples: Vec<Vec<u8>> = vec![
        b"".to_vec(),
        b"a".to_vec(),
        b"some secret credential".to_vec(),
        vec![0u8, 255u8, 1u8, 254u8, 127u8],
    ];
    for s in samples {
        let ct = cipher.encrypt(&s).unwrap();
        let back = cipher.decrypt(&ct).unwrap();
        assert_eq!(s, back);
    }
}

#[test]
fn round_trip_through_service() {
    let svc = Service::new(b"configured key".to_vec());
    let ct = svc.encrypt(b"operator secret").unwrap();
    assert_eq!(svc.decrypt(&ct).unwrap(), b"operator secret".to_vec());
}

#[test]
fn tamper_detection() {
    let cipher = SecretCipher::new(b"key one".to_vec());
    let ct = cipher.encrypt(b"payload to protect").unwrap();
    let positions = [0, ct.len() / 2, ct.len() - 1];
    for &pos in positions.iter() {
        let mut chars: Vec<char> = ct.chars().collect();
        chars[pos] = if chars[pos] == '0' { '1' } else { '0' };
        let tampered: String = chars.into_iter().collect();
        assert_ne!(tampered, ct);
        match cipher.decrypt(&tampered) {
            Err(CoreError::AuthenticationFailure) => {}
            other => panic!("tampered ciphertext must fail authentication, got {:?}", other),
        }
    }
}

#[test]
fn key_mismatch() {
    let c1 = SecretCipher::new(b"key one".to_vec());
    let c2 = SecretCipher::new(b"key two".to_vec());
    let ct = c1.encrypt(b"under key one").unwrap();
    match c2.decrypt(&ct) {
        Err(CoreError::AuthenticationFailure) => {}
        other => panic!("wrong key must fail authentication, got {:?}", other),
    }
}

#[test]
fn decrypt_rejects_invalid_hex() {
    let cipher = SecretCipher::new(b"key".to_vec());
    match cipher.decrypt("zz") {
        Err(CoreError::DecodingError) => {}
        other => panic!("non-hex input must be a decoding error, got {:?}", other),
    }
    match cipher.decrypt("abc") {
        Err(CoreError::DecodingError) => {}
        other => panic!("odd-length input must be a decoding error, got {:?}", other),
    }
}

#[test]
fn hex_exact_values() {
    assert_eq!(to_hex(&[0u8, 255u8]), "00ff");
    assert_eq!(to_hex(&[]), "");
    assert_eq!(to_hex(&[0x12u8, 0xabu8]), "12ab");
    assert_eq!(from_hex("00ff").unwrap(), vec![0u8, 255u8]);
    assert_eq!(from_hex("12AB").unwrap(), vec![0x12u8, 0xabu8]);
    assert_eq!(from_hex("").unwrap(), Vec::<u8>::new());
    assert_eq!(from_hex("0g"), Err(CoreError::DecodingError));
    assert_eq!(from_hex("abc"), Err(CoreError::DecodingError));
}

#[test]
fn hex_matches_reference_codec() {
    let data: Vec<u8> = vec![0u8, 1u8, 127u8, 128u8, 255u8, 16u8, 32u8];
    assert_eq!(to_hex(&data), data.to_hex());
    let text = "00017f80ff1020";
    assert_eq!(from_hex(text).unwrap(), text.from_hex().unwrap());
}

#[test]
fn ciphertext_is_hex_encoded() {
    let cipher = SecretCipher::new(b"key".to_vec());
    let ct = cipher.encrypt(b"x").unwrap();
    assert!(ct.len() % 2 == 0);
    assert!(ct.chars().all(|c| c.is_ascii_hexdigit()));
}
