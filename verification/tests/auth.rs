use duckxy::auth::{Auth, AuthError, SignedPath, INSECURE};
use duckxy::{sign_path, Config, SignError};

const KEY: &str = "00112233445566778899aabbccddeeff";
const PATH: &str = "/@dataset:cities/output.geojson";

fn signed() -> Auth {
    Auth::new(Some(KEY), false).unwrap()
}

#[test]
fn a_signature_it_produced_verifies() {
    let a = signed();
    assert!(a.verify(&a.sign(PATH).unwrap(), PATH));
}

#[test]
fn a_signature_does_not_transfer_to_another_path() {
    for other in
        ["/@dataset:other/output.geojson", "/@dataset:cities/output.json", "/@dataset:cities,id:1/output.geojson"]
    {
        let a = signed();
        assert!(!a.verify(&a.sign(PATH).unwrap(), other));
    }
}

#[test]
fn bad_signatures_are_rejected() {
    for signature in ["", "not-base64!!", "AAAA", INSECURE] {
        assert!(!signed().verify(signature, PATH));
    }
}

#[test]
fn a_different_key_does_not_verify() {
    let other = Auth::new(Some("ffeeddccbbaa99887766554433221100"), false).unwrap();
    assert!(!signed().verify(&other.sign(PATH).unwrap(), PATH));
}

#[test]
fn insecure_is_accepted_only_when_allowed() {
    assert!(Auth::new(Some(KEY), true).unwrap().verify(INSECURE, PATH));
    assert!(!signed().verify(INSECURE, PATH));
}

#[test]
fn without_a_key_nothing_verifies_even_in_insecure_mode() {
    let a = Auth::new(None, true).unwrap();
    assert!(a.verify(INSECURE, PATH));
    assert!(!a.verify("AAAA", PATH));
    assert!(a.sign(PATH).is_none());
}

#[test]
fn refusing_to_start_unconfigured_is_the_default() {
    assert!(Auth::new(None, false).is_err());
    assert!(Auth::new(Some(""), false).is_err());
}

#[test]
fn a_key_is_read_from_hexadecimal_digits() {
    assert_eq!(Auth::new(Some("  00fFaB\n"), false).unwrap().key, Some(vec![0x00, 0xff, 0xab]));
    for bad in ["0", "0g", "zz", "é"] {
        assert_eq!(Auth::new(Some(bad), true).unwrap_err(), AuthError::NotHex, "{bad}");
    }
    assert_eq!(Auth::new(Some(" \t "), false).unwrap_err(), AuthError::Unconfigured);
    assert_eq!(
        AuthError::Unconfigured.message(),
        "set DUCKXY_KEY, or set DUCKXY_ALLOW_INSECURE=true to run unsigned"
    );
}

#[test]
fn a_signature_is_the_hmac_in_base64() {
    // RFC 4231, the second test case
    let auth = Auth { key: Some(b"Jefe".to_vec()), allow_insecure: false };
    assert_eq!(auth.sign("what do ya want for nothing?").unwrap(), "W9zBRr9gdU5qBCQmCJV1x1oAPwidJzmDnexYuWTsOEM");
}

#[test]
fn a_padded_or_loose_spelling_of_a_signature_is_refused() {
    let a = signed();
    let signature = a.sign(PATH).unwrap();
    assert!(!a.verify(&format!("{signature}="), PATH));
    let mut loose = signature.clone();
    let last = loose.pop().unwrap();
    let alphabet = "ABCDEFGHIJKLMNOPQRSTUVWXYZabcdefghijklmnopqrstuvwxyz0123456789-_";
    let next = alphabet.chars().nth(alphabet.find(last).unwrap() + 1).unwrap();
    loose.push(next);
    assert!(!a.verify(&loose, PATH));
}

#[test]
fn a_checked_path_begins_with_a_slash() {
    let a = signed();
    let signature = a.sign(PATH).unwrap();
    assert_eq!(
        SignedPath::check(&a, &signature, "@dataset:cities/output.geojson"),
        Some(SignedPath(PATH.to_string()))
    );
    assert_eq!(SignedPath::check(&a, &signature, "@dataset:cities/output.json"), None);
}

fn config(key: Option<&str>) -> Config {
    Config::from_settings(None, None, key.map(str::to_string), None)
}

#[test]
fn a_path_is_signed_from_the_settings() {
    let url = sign_path(&config(Some(KEY)), PATH).unwrap();
    assert_eq!(url, format!("/{}{PATH}", signed().sign(PATH).unwrap()));
    let relative = sign_path(&config(Some(KEY)), "x").unwrap_err();
    assert_eq!(relative, SignError::NotAbsolute("x".to_string()));
    assert_eq!(relative.message(), "path must start with '/', got: x");
    let keyless = sign_path(&config(None), PATH).unwrap_err();
    assert_eq!(keyless, SignError::NoKey);
    assert_eq!(keyless.message(), "DUCKXY_KEY is required to sign");
    assert_eq!(sign_path(&config(Some("xyz")), PATH), Err(SignError::Key(AuthError::NotHex)));
}
