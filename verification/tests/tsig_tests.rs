use base64::Engine;
use dnsr::key::DomainEntry;
use dnsr::key::DomainInfo;
use dnsr::key::DomainName;
use dnsr::key::Key;
use dnsr::key::KeyEntry;
use dnsr::key::KeyFile;
use dnsr::key::KeyStore;
use dnsr::key::Keys;
use dnsr::tsig::sign_message;
use dnsr::tsig::validate_key_scope;
use dnsr::tsig::verify_mac;
use dnsr::tsig::verify_request;
use dnsr::tsig::TsigRecord;
use dnsr::tsig::TsigVerdict;
use dnsr::tsig::RCODE_NOTAUTH;
use dnsr::tsig::TSIG_BADKEY;
use dnsr::tsig::TSIG_BADSIG;
use dnsr::tsig::TSIG_BADTIME;

fn store_with(name: &str, secret: &[u8]) -> KeyStore {
    let mut store = KeyStore::new();
    let content = base64::engine::general_purpose::STANDARD.encode(secret).into_bytes();
    store.add_key(&KeyFile::new(name.to_string()), Some(&content)).unwrap();
    store
}

fn record_for(key: &Key, id: u16, now: u64, data: &[u8]) -> TsigRecord {
    let signed_data = data.to_vec();
    let mac = sign_message(key, &signed_data);
    TsigRecord {
        key_name: key.name().to_string(),
        algorithm_sha512: true,
        time_signed: now,
        mac,
        original_id: id,
        signed_data,
    }
}

#[test]
fn sign_verify_round_trip() {
    // A MAC just computed under a key verifies under the same key.
    let key = Key::new("key1".to_string(), vec![7u8; 64]);
    let data = b"a message to protect".to_vec();
    let mac = sign_message(&key, &data);
    assert_eq!(mac.len(), 64);
    assert!(verify_mac(&key, &data, &mac));
}

#[test]
fn altered_message_is_rejected() {
    // Changing a byte of the protected data invalidates the MAC.
    let key = Key::new("key1".to_string(), vec![7u8; 64]);
    let data = b"a message to protect".to_vec();
    let mac = sign_message(&key, &data);
    let mut tampered = data.clone();
    tampered[0] ^= 0x01;
    assert!(!verify_mac(&key, &tampered, &mac));
    // And so does changing a byte of the MAC itself.
    let mut bad_mac = mac.clone();
    bad_mac[10] ^= 0x80;
    assert!(!verify_mac(&key, &data, &bad_mac));
}

#[test]
fn wrong_key_does_not_verify() {
    let key = Key::new("key1".to_string(), vec![7u8; 64]);
    let other = Key::new("key1".to_string(), vec![8u8; 64]);
    let data = b"payload".to_vec();
    let mac = sign_message(&key, &data);
    assert!(!verify_mac(&other, &data, &mac));
}

#[test]
fn verify_request_accepts_good_signature() {
    let store = store_with("key1", &[9u8; 64]);
    let key = store.get_key("key1").unwrap().clone();
    let now = 1_700_000_000u64;
    let rec = record_for(&key, 21, now, b"whole request bytes");
    match verify_request(&store, &Some(rec), 21, now + 100) {
        TsigVerdict::Verified { key: k } => {
            assert_eq!(k.name(), "key1");
        },
        _ => panic!("expected the request to verify"),
    }
}

#[test]
fn unknown_key_is_badkey() {
    let store = store_with("key1", &[9u8; 64]);
    let stranger = Key::new("key2".to_string(), vec![1u8; 64]);
    let rec = record_for(&stranger, 5, 1000, b"bytes");
    match verify_request(&store, &Some(rec), 5, 1000) {
        TsigVerdict::Rejected { rcode, tsig_error, .. } => {
            assert_eq!(rcode, RCODE_NOTAUTH);
            assert_eq!(tsig_error, TSIG_BADKEY);
        },
        _ => panic!("expected BADKEY"),
    }
}

#[test]
fn bad_mac_is_badsig() {
    let store = store_with("key1", &[9u8; 64]);
    let key = store.get_key("key1").unwrap().clone();
    let mut rec = record_for(&key, 5, 1000, b"bytes");
    rec.mac[0] ^= 0xff;
    match verify_request(&store, &Some(rec), 5, 1000) {
        TsigVerdict::Rejected { rcode, tsig_error, .. } => {
            assert_eq!(rcode, RCODE_NOTAUTH);
            assert_eq!(tsig_error, TSIG_BADSIG);
        },
        _ => panic!("expected BADSIG"),
    }
}

#[test]
fn stale_time_is_badtime() {
    let store = store_with("key1", &[9u8; 64]);
    let key = store.get_key("key1").unwrap().clone();
    let rec = record_for(&key, 5, 1000, b"bytes");
    // 301 seconds of clock skew lie outside the window; 300 lie inside.
    match verify_request(&store, &Some(rec), 5, 1000 + 301) {
        TsigVerdict::Rejected { rcode, tsig_error, key: k } => {
            assert_eq!(rcode, RCODE_NOTAUTH);
            assert_eq!(tsig_error, TSIG_BADTIME);
            // The BADTIME refusal hands out the key: its response is signed.
            assert_eq!(k.unwrap().name(), "key1");
        },
        _ => panic!("expected BADTIME"),
    }
    let rec2 = record_for(&key, 5, 1000, b"bytes");
    match verify_request(&store, &Some(rec2), 5, 1000 + 300) {
        TsigVerdict::Verified { .. } => (),
        _ => panic!("expected the window edge to verify"),
    }
}

#[test]
fn unsigned_request_passes_through() {
    let store = store_with("key1", &[9u8; 64]);
    match verify_request(&store, &None, 5, 1000) {
        TsigVerdict::Unsigned => (),
        _ => panic!("expected an unsigned pass-through"),
    }
}

fn scope_config() -> Keys {
    let mut keys = Keys::new();
    keys.push_entry(KeyEntry {
        file: KeyFile::new("key1".to_string()),
        domains: vec![DomainEntry {
            name: DomainName::new("example.com".to_string()),
            info: DomainInfo::new("ns1.example.com.".to_string(), "admin.example.com.".to_string()),
        }],
    })
    .unwrap();
    keys.push_entry(KeyEntry {
        file: KeyFile::new("key2".to_string()),
        domains: vec![DomainEntry {
            name: DomainName::new("other.com".to_string()),
            info: DomainInfo::new("ns1.other.com.".to_string(), "admin.other.com.".to_string()),
        }],
    })
    .unwrap();
    keys
}

#[test]
fn key_scope_covers_its_domain() {
    let keys = scope_config();
    assert!(validate_key_scope(&keys, "key1", "_acme-challenge.example.com."));
    assert!(validate_key_scope(&keys, "key2", "_acme-challenge.other.com."));
}

#[test]
fn key_scope_refuses_foreign_domain() {
    let keys = scope_config();
    assert!(!validate_key_scope(&keys, "key2", "_acme-challenge.example.com."));
    assert!(!validate_key_scope(&keys, "key1", "_acme-challenge.other.com."));
    assert!(!validate_key_scope(&keys, "key3", "_acme-challenge.example.com."));
    // The scope test strips only a leading challenge label and the trailing
    // dot, so the bare domain itself also falls under the key's scope.
    assert!(validate_key_scope(&keys, "key1", "example.com."));
    assert!(!validate_key_scope(&keys, "key1", "www.example.com."));
}


#[test]
fn request_digest_octets_are_assembled_exactly() {
    // A 14-byte message: header with ID 0x0102, ARCOUNT 1, two body bytes;
    // the TSIG record starts right after them.
    let raw: Vec<u8> = vec![
        0x01, 0x02, 0x28, 0x00, 0x00, 0x01, 0x00, 0x00, 0x00, 0x00, 0x00, 0x01, 0xAA, 0xBB,
    ];
    let key_name: Vec<u8> = vec![4, b'k', b'e', b'y', b'1', 0];
    let alg_name: Vec<u8> = vec![11, b'h', b'm', b'a', b'c', b'-', b's', b'h', b'a', b'5', b'1',
        b'2', 0];
    let other: Vec<u8> = Vec::new();
    let data =
        dnsr::tsig::request_signed_data(&raw, 14, 0x0304, &key_name, &alg_name, 7, 300, 0, &other)
            .unwrap();
    let mut expect: Vec<u8> = Vec::new();
    expect.extend_from_slice(&[0x03, 0x04]);
    expect.extend_from_slice(&raw[2..10]);
    expect.extend_from_slice(&[0x00, 0x00]);
    expect.extend_from_slice(&[0xAA, 0xBB]);
    expect.extend_from_slice(&key_name);
    expect.extend_from_slice(&[0x00, 0xFF]);
    expect.extend_from_slice(&[0, 0, 0, 0]);
    expect.extend_from_slice(&alg_name);
    expect.extend_from_slice(&[0, 0, 0, 0, 0, 7]);
    expect.extend_from_slice(&[0x01, 0x2C]);
    expect.extend_from_slice(&[0, 0]);
    expect.extend_from_slice(&[0, 0]);
    assert_eq!(data, expect);
    // An offset inside the header, or a zero additional count, is refused.
    assert!(dnsr::tsig::request_signed_data(
        &raw, 11, 0x0304, &key_name, &alg_name, 7, 300, 0, &other
    )
    .is_none());
    let mut no_ar = raw.clone();
    no_ar[11] = 0;
    assert!(dnsr::tsig::request_signed_data(
        &no_ar, 14, 0x0304, &key_name, &alg_name, 7, 300, 0, &other
    )
    .is_none());
}

#[test]
fn stream_macs_chain_over_prior_envelopes() {
    let key = Key::new("key1".to_string(), vec![3u8; 64]);
    let key_name: Vec<u8> = vec![4, b'k', b'e', b'y', b'1', 0];
    let alg_name: Vec<u8> = vec![11, b'h', b'm', b'a', b'c', b'-', b's', b'h', b'a', b'5', b'1',
        b'2', 0];
    let request_mac = sign_message(&key, &b"request".to_vec());
    let bodies = vec![b"first".to_vec(), b"second".to_vec(), b"third".to_vec()];
    let macs =
        dnsr::tsig::sign_stream(&key, &request_mac, &bodies, &key_name, &alg_name, 9, 300)
            .unwrap();
    assert_eq!(macs.len(), 3);
    // The first envelope's MAC covers the length-prefixed request MAC, the
    // message, and the full TSIG variables.
    let empty: Vec<u8> = Vec::new();
    let first_data = dnsr::tsig::response_signed_data(
        &request_mac, &bodies[0], &key_name, &alg_name, 9, 300, 0, &empty,
    )
    .unwrap();
    assert_eq!(macs[0], sign_message(&key, &first_data));
    // Every further envelope chains over the MAC before it.
    for i in 1..3 {
        let data = dnsr::tsig::sequence_signed_data(&macs[i - 1], &bodies[i], 9, 300).unwrap();
        assert_eq!(macs[i], sign_message(&key, &data));
    }
    // Re-keying the second envelope's digest with the wrong prior MAC
    // breaks the chain.
    let bad = dnsr::tsig::sequence_signed_data(&request_mac, &bodies[1], 9, 300).unwrap();
    assert_ne!(macs[1], sign_message(&key, &bad));
}
