use base64::Engine;
use ono_cli::keyless::{
    decode, hex, i64_text, identity, parse_i64, signed_entry_timestamp, spki_key, verify, Bundle,
    Field, KeylessIdentity, KeylessRefusal, LogKey, MessageDigest, RawLog, TlogEntry, TrustRoot,
};
use sha2::Digest;

#[test]
fn should_match_an_enrolled_subject_exactly_or_by_one_trailing_wildcard() {
    let identity = KeylessIdentity {
        issuer: "https://token.actions.githubusercontent.com".to_owned(),
        subject: "https://github.com/o/r/.github/workflows/release.yml@refs/tags/v1.0.0".to_owned(),
        signed_at: 0,
    };
    let issuer = "https://token.actions.githubusercontent.com";
    assert!(identity.matches(issuer, &identity.subject), "the exact subject");
    assert!(
        identity.matches(issuer, "https://github.com/o/r/.github/workflows/release.yml@refs/tags/*"),
        "a repository's releases, enrolled once"
    );
    assert!(
        !identity.matches(
            issuer,
            "https://github.com/other/r/.github/workflows/release.yml@refs/tags/*"
        ),
        "another repository's are not"
    );
    assert!(
        !identity.matches("https://accounts.example.com", &identity.subject),
        "and the issuer is part of the identity"
    );
}

#[test]
fn only_one_trailing_wildcard_is_read() {
    let identity = KeylessIdentity { issuer: "i".into(), subject: "abc".into(), signed_at: 0 };
    assert!(identity.matches("i", "*"));
    assert!(identity.matches("i", "ab*"));
    assert!(!identity.matches("i", "a*c"));
    assert!(!identity.matches("i", "abcd*"));
}

#[test]
fn digests_decode_from_base64_and_only_sha256() {
    let digest = MessageDigest { algorithm: "SHA2_256".into(), digest: "aGk=".into() };
    assert_eq!(digest.decoded(), Ok(vec![0x68, 0x69]));
    let other = MessageDigest { algorithm: "SHA1".into(), digest: "aGk=".into() };
    assert_eq!(other.decoded(), Err(KeylessRefusal::UnsupportedDigest("SHA1".into())));
    let broken = MessageDigest { algorithm: "SHA2_256".into(), digest: "!!".into() };
    assert_eq!(broken.decoded(), Err(KeylessRefusal::NotBase64(Field::Digest)));
    assert_eq!(decode("AAE=", Field::Signature), Ok(vec![0, 1]));
}

#[test]
fn the_key_is_the_trailing_bit_string() {
    let der = [0x30, 0x0a, 0x03, 0x04, 0x00, 0xaa, 0xbb, 0xcc, 0x01];
    assert_eq!(spki_key(&der), vec![0xaa, 0xbb, 0xcc]);
    assert_eq!(spki_key(&[0x30, 0x01, 0x02]), Vec::<u8>::new());
}

#[test]
fn numbers_read_and_print_as_std_does() {
    let chars = |s: &str| s.chars().collect::<Vec<char>>();
    assert_eq!(parse_i64(&chars("42")), Some(42));
    assert_eq!(parse_i64(&chars("-7")), Some(-7));
    assert_eq!(parse_i64(&chars("+7")), Some(7));
    assert_eq!(parse_i64(&chars("9223372036854775807")), Some(i64::MAX));
    assert_eq!(parse_i64(&chars("-9223372036854775808")), Some(i64::MIN));
    assert_eq!(parse_i64(&chars("9223372036854775808")), None);
    assert_eq!(parse_i64(&chars("-")), None);
    assert_eq!(parse_i64(&chars("1 ")), None);
    assert_eq!(i64_text(-120).into_iter().collect::<String>(), "-120");
    assert_eq!(i64_text(0).into_iter().collect::<String>(), "0");
    assert_eq!(i64_text(i64::MIN).into_iter().collect::<String>(), "-9223372036854775808");
    assert_eq!(hex(&[0x00, 0xab, 0x10]).into_iter().collect::<String>(), "00ab10");
}

#[test]
fn the_log_signs_its_canonical_entry() {
    let entry = TlogEntry {
        log_index: "007".into(),
        key_id: "AAE=".into(),
        integrated_time: "1700000000".into(),
        signed_entry_timestamp: None,
        canonicalized_body: "Ym9keQ==".into(),
    };
    assert_eq!(
        signed_entry_timestamp(&entry),
        Ok("{\"body\":\"Ym9keQ==\",\"integratedTime\":1700000000,\"logID\":\"0001\",\"logIndex\":7}"
            .to_string())
    );
    let unreadable = TlogEntry { log_index: "x".into(), ..entry.clone() };
    assert_eq!(signed_entry_timestamp(&unreadable), Err(KeylessRefusal::UnreadableIndex));
    let not_base64 = TlogEntry { key_id: "*".into(), ..entry };
    assert_eq!(signed_entry_timestamp(&not_base64), Err(KeylessRefusal::NotBase64(Field::LogId)));
}

fn b64(bytes: &[u8]) -> String {
    base64::engine::general_purpose::STANDARD.encode(bytes)
}

fn entry(time: &str) -> TlogEntry {
    TlogEntry {
        log_index: "1".into(),
        key_id: "AAE=".into(),
        integrated_time: time.into(),
        signed_entry_timestamp: Some("AAE=".into()),
        canonicalized_body: "e30=".into(),
    }
}

fn bundle_over(payload: &[u8], entries: Vec<TlogEntry>, certificate: &str) -> Bundle {
    Bundle {
        certificate: certificate.into(),
        tlog_entries: entries,
        digest: MessageDigest { algorithm: "SHA2_256".into(), digest: b64(&sha2::Sha256::digest(payload)) },
        signature: "AAE=".into(),
    }
}

fn empty_root() -> TrustRoot {
    TrustRoot { authorities: vec![], logs: vec![] }
}

#[test]
fn a_bundle_is_checked_in_order() {
    let payload = b"the package's description";
    let mut other = bundle_over(b"other bytes", vec![entry("1700000000")], "AAE=");
    assert_eq!(verify(&other, payload, &empty_root()), Err(KeylessRefusal::OtherBytes));
    other.digest.algorithm = "SHA1".into();
    assert_eq!(verify(&other, payload, &empty_root()), Err(KeylessRefusal::UnsupportedDigest("SHA1".into())));
    assert_eq!(verify(&bundle_over(payload, vec![], "AAE="), payload, &empty_root()), Err(KeylessRefusal::NoLogEntry));
    assert_eq!(
        verify(&bundle_over(payload, vec![entry("soon")], "AAE="), payload, &empty_root()),
        Err(KeylessRefusal::UnreadableTime)
    );
    assert_eq!(
        verify(&bundle_over(payload, vec![entry("-5")], "AAE="), payload, &empty_root()),
        Err(KeylessRefusal::BeforeEpoch)
    );
    assert_eq!(
        verify(&bundle_over(payload, vec![entry("1700000000")], "!!"), payload, &empty_root()),
        Err(KeylessRefusal::NotBase64(Field::Certificate))
    );
    assert_eq!(
        verify(&bundle_over(payload, vec![entry("1700000000")], &b64(b"not a certificate")), payload, &empty_root()),
        Err(KeylessRefusal::CertificateUnparsable)
    );
}

#[test]
fn a_certificate_that_does_not_parse_names_nobody() {
    assert_eq!(identity(b"not a certificate"), Err(KeylessRefusal::CertificateUnparsable));
}

#[test]
fn log_keys_verify_what_they_signed_and_nothing_else() {
    let rng = ring::rand::SystemRandom::new();
    let pkcs8 = ring::signature::Ed25519KeyPair::generate_pkcs8(&rng).expect("a key");
    let pair = ring::signature::Ed25519KeyPair::from_pkcs8(pkcs8.as_ref()).expect("reads");
    let signature = pair.sign(b"entry");
    let key = LogKey::Ed25519(ring::signature::KeyPair::public_key(&pair).as_ref().to_vec());
    assert!(key.verifies(b"entry", signature.as_ref()));
    assert!(!key.verifies(b"other entry", signature.as_ref()));

    let alg = &ring::signature::ECDSA_P256_SHA256_ASN1_SIGNING;
    let pkcs8 = ring::signature::EcdsaKeyPair::generate_pkcs8(alg, &rng).expect("a key");
    let pair = ring::signature::EcdsaKeyPair::from_pkcs8(alg, pkcs8.as_ref(), &rng).expect("reads");
    let signature = pair.sign(&rng, b"entry").expect("signs");
    let key = LogKey::EcdsaP256(ring::signature::KeyPair::public_key(&pair).as_ref().to_vec());
    assert!(key.verifies(b"entry", signature.as_ref()));
    assert!(!key.verifies(b"other entry", signature.as_ref()));
}

#[test]
fn a_trust_root_reads_its_chains_and_known_log_keys() {
    let der = [0x30, 0x06, 0x03, 0x03, 0x00, 0xaa, 0xbb];
    let logs = vec![
        RawLog { key_id: "log-a".into(), raw_bytes: b64(&der), key_details: "PKIX_ED25519".into() },
        RawLog { key_id: "log-b".into(), raw_bytes: b64(&der), key_details: "PKIX_RSA".into() },
    ];
    let chains = vec![vec!["AAE=".to_string(), "AAI=".to_string()], vec![]];
    let root = TrustRoot::read(&chains, &logs).expect("every key reads").expect("reads");
    assert_eq!(root.authorities.len(), 1);
    assert_eq!(root.authorities[0].root, vec![0, 2]);
    assert_eq!(root.authorities[0].intermediates, vec![vec![0, 1]]);
    assert_eq!(root.logs.len(), 1);
    assert_eq!(root.logs[0].0, "log-a");
    assert!(matches!(&root.logs[0].1, LogKey::Ed25519(k) if k == &vec![0xaa, 0xbb]));
    assert!(root.log_key("log-a").is_some());
    assert!(root.log_key("log-b").is_none());
    assert_eq!(
        TrustRoot::read(&vec![vec!["!!".to_string()]], &logs).expect("keys read").err(),
        Some(KeylessRefusal::NotBase64(Field::RootCertificate))
    );
    let bad_log = vec![RawLog { key_id: "x".into(), raw_bytes: "!!".into(), key_details: "PKIX_RSA".into() }];
    assert_eq!(TrustRoot::read(&chains, &bad_log).expect("nothing known").err(), Some(KeylessRefusal::NotBase64(Field::RootLogKey)));
    let empty_key = vec![RawLog { key_id: "x".into(), raw_bytes: b64(&[0x03, 0x00, 0x00]), key_details: "PKIX_ED25519".into() }];
    assert!(TrustRoot::read(&chains, &empty_key).is_none());
}
