use base64::Engine;
use dnsr::key::DomainEntry;
use dnsr::key::DomainInfo;
use dnsr::key::DomainName;
use dnsr::key::handle_keys_change;
use dnsr::key::KeyEntry;
use dnsr::key::KeyFile;
use dnsr::key::KeyStore;
use dnsr::key::Keys;
use dnsr::service::handle_non_axfr;
use dnsr::service::Question;
use dnsr::service::RCODE_NOERROR;
use dnsr::service::RCODE_NXDOMAIN;
use dnsr::update::handle_update_query;
use dnsr::update::UpdateRecord;
use dnsr::watcher::domains_have_distinct_apexes;
use dnsr::watcher::handle_file_change;
use dnsr::watcher::initialize_dns_zones;
use dnsr::zone::Rdata;
use dnsr::zone::CLASS_IN;
use dnsr::zone::RTYPE_SOA;
use dnsr::zone::RTYPE_TXT;

fn entry(key: &str, domain: &str) -> KeyEntry {
    KeyEntry {
        file: KeyFile::new(key.to_string()),
        domains: vec![DomainEntry {
            name: DomainName::new(domain.to_string()),
            info: DomainInfo::new(
                format!("ns1.{}.", domain),
                format!("admin.{}.", domain),
            ),
        }],
    }
}

fn config_of(entries: Vec<KeyEntry>) -> Keys {
    let mut keys = Keys::new();
    for e in entries {
        keys.push_entry(e).unwrap();
    }
    keys
}

#[test]
fn reconcile_removes_zone() {
    // Rewriting the configuration to an empty key table drops the zone and
    // schedules the key file for deletion.
    let old_keys = config_of(vec![entry("key1", "example.com")]);
    let new_keys = Keys::new();
    let mut zones = initialize_dns_zones(&old_keys, 5).unwrap();
    let (removed, added) = handle_file_change(&mut zones, &old_keys, &new_keys, 6).unwrap();
    assert_eq!(removed.len(), 1);
    assert_eq!(removed[0].as_str(), "key1");
    assert_eq!(added.len(), 0);
    let q = Question {
        qname: "_acme-challenge.example.com.".to_string(),
        qtype: RTYPE_SOA,
        qclass: CLASS_IN,
    };
    assert_eq!(handle_non_axfr(&zones, &q).rcode, RCODE_NXDOMAIN);
}

#[test]
fn reconcile_adds_zone_and_key() {
    let old_keys = config_of(vec![entry("key1", "example.com")]);
    let new_keys = config_of(vec![entry("key1", "example.com"), entry("key2", "other.com")]);
    let mut zones = initialize_dns_zones(&old_keys, 5).unwrap();
    let (removed, added) = handle_file_change(&mut zones, &old_keys, &new_keys, 6).unwrap();
    assert_eq!(removed.len(), 0);
    assert_eq!(added.len(), 1);
    assert_eq!(added[0].as_str(), "key2");
    let q = Question {
        qname: "_acme-challenge.other.com.".to_string(),
        qtype: RTYPE_SOA,
        qclass: CLASS_IN,
    };
    assert_eq!(handle_non_axfr(&zones, &q).rcode, RCODE_NOERROR);
}

#[test]
fn retained_domain_keeps_its_dynamic_records() {
    // A domain carried over unchanged keeps its zone, dynamic TXT records
    // included; its serial stays from the first build.
    let keys = config_of(vec![entry("key1", "example.com")]);
    let mut zones = initialize_dns_zones(&keys, 5).unwrap();
    let apex = "_acme-challenge.example.com.";
    handle_update_query(
        &mut zones,
        apex,
        &vec![UpdateRecord { class: CLASS_IN, ttl: 60, rdata: Rdata::Txt(b"tok".to_vec()) }],
    )
    .unwrap();
    let keys2 = config_of(vec![entry("key1", "example.com"), entry("key2", "other.com")]);
    handle_file_change(&mut zones, &keys, &keys2, 99).unwrap();
    let q = Question { qname: apex.to_string(), qtype: RTYPE_TXT, qclass: CLASS_IN };
    let a = handle_non_axfr(&zones, &q);
    assert_eq!(a.rcode, RCODE_NOERROR);
    assert_eq!(a.answer.len(), 1);
}

#[test]
fn changed_soa_data_rebuilds_the_zone() {
    let old_keys = config_of(vec![entry("key1", "example.com")]);
    let mut new_entry = entry("key1", "example.com");
    new_entry.domains[0].info =
        DomainInfo::new("ns2.example.com.".to_string(), "admin.example.com.".to_string());
    let new_keys = config_of(vec![new_entry]);
    let mut zones = initialize_dns_zones(&old_keys, 5).unwrap();
    handle_file_change(&mut zones, &old_keys, &new_keys, 42).unwrap();
    let q = Question {
        qname: "_acme-challenge.example.com.".to_string(),
        qtype: RTYPE_SOA,
        qclass: CLASS_IN,
    };
    let a = handle_non_axfr(&zones, &q);
    assert_eq!(a.answer.len(), 1);
    match &a.answer[0].data[0] {
        Rdata::Soa(soa) => {
            assert_eq!(soa.mname, "ns2.example.com.");
            assert_eq!(soa.serial, 42);
        },
        _ => panic!("expected SOA rdata"),
    }
}

#[test]
fn keys_change_computes_both_lists() {
    let olds = vec![KeyFile::new("a".to_string()), KeyFile::new("b".to_string())];
    let news = vec![KeyFile::new("b".to_string()), KeyFile::new("c".to_string())];
    let (removed, added) = handle_keys_change(&olds, &news);
    assert_eq!(removed.len(), 1);
    assert_eq!(removed[0].as_str(), "a");
    assert_eq!(added.len(), 1);
    assert_eq!(added[0].as_str(), "c");
}

#[test]
fn generated_key_file_decodes_to_the_stored_secret() {
    // Materializing a key with no backing file yields the base64 text to
    // persist; decoding it gives back exactly the stored secret.
    let mut store = KeyStore::new();
    let content = store.add_key(&KeyFile::new("key1".to_string()), None).unwrap().unwrap();
    let secret = store.get_key("key1").unwrap().secret().clone();
    assert_eq!(secret.len(), 64);
    let decoded = base64::engine::general_purpose::STANDARD.decode(&content).unwrap();
    assert_eq!(decoded, secret);
}

#[test]
fn loaded_key_file_restores_the_secret() {
    let secret: Vec<u8> = (0u8..64).collect();
    let content = base64::engine::general_purpose::STANDARD.encode(&secret).into_bytes();
    let mut store = KeyStore::new();
    let out = store.add_key(&KeyFile::new("key1".to_string()), Some(&content)).unwrap();
    assert!(out.is_none());
    assert_eq!(store.get_key("key1").unwrap().secret(), &secret);
}

#[test]
fn invalid_key_file_is_refused() {
    let mut store = KeyStore::new();
    let bad = b"not base64 at all!!".to_vec();
    let r = store.add_key(&KeyFile::new("key1".to_string()), Some(&bad));
    assert!(r.is_err());
    assert!(store.get_key("key1").is_none());
}

#[test]
fn removed_key_leaves_the_store() {
    let mut store = KeyStore::new();
    store.add_key(&KeyFile::new("key1".to_string()), None).unwrap();
    assert!(store.remove_key(&KeyFile::new("key1".to_string())));
    assert!(store.get_key("key1").is_none());
    assert!(!store.remove_key(&KeyFile::new("key1".to_string())));
}


#[test]
fn invalid_key_file_has_the_decoder_error_kind() {
    let mut store = KeyStore::new();
    let bad = b"not base64 at all!!".to_vec();
    let e = store.add_key(&KeyFile::new("key1".to_string()), Some(&bad)).unwrap_err();
    assert_eq!(e.kind, dnsr::error::ErrorKind::Base64);
}

#[test]
fn refused_reconcile_leaves_the_tree_unchanged() {
    // An invalid new domain name refuses the whole change; the tree stays
    // exactly as it was, removals included.
    let old_keys = config_of(vec![entry("key1", "example.com")]);
    let new_keys = config_of(vec![entry("key2", "bad..name")]);
    let mut zones = initialize_dns_zones(&old_keys, 5).unwrap();
    let r = handle_file_change(&mut zones, &old_keys, &new_keys, 6);
    assert!(r.is_err());
    let q = Question {
        qname: "_acme-challenge.example.com.".to_string(),
        qtype: RTYPE_SOA,
        qclass: CLASS_IN,
    };
    assert_eq!(handle_non_axfr(&zones, &q).rcode, RCODE_NOERROR);
}

#[test]
fn distinct_apex_check_spots_a_shared_domain() {
    let clean = config_of(vec![entry("key1", "example.com"), entry("key2", "other.com")]);
    assert!(domains_have_distinct_apexes(&clean.domains()));
    // The same domain under two keys maps both to one apex.
    let shared = config_of(vec![entry("key1", "example.com"), entry("key2", "example.com")]);
    assert!(!domains_have_distinct_apexes(&shared.domains()));
    // And so do two spellings of one domain.
    let dotted = config_of(vec![entry("key1", "example.com"), entry("key2", "example.com.")]);
    assert!(!domains_have_distinct_apexes(&dotted.domains()));
}
