use dnsr::config::Config;
use dnsr::key::DomainEntry;
use dnsr::key::DomainInfo;
use dnsr::key::DomainName;
use dnsr::key::KeyEntry;
use dnsr::key::KeyFile;
use dnsr::key::Keys;
use dnsr::service::handle_non_axfr;
use dnsr::service::Dnsr;
use dnsr::service::Header;
use dnsr::service::Question;
use dnsr::service::Request;
use dnsr::service::OPCODE_UPDATE;
use dnsr::service::RCODE_NOERROR;
use dnsr::service::RCODE_NOTZONE;
use dnsr::service::RCODE_REFUSED;
use dnsr::service::RCODE_SERVFAIL;
use dnsr::tsig::sign_message;
use dnsr::tsig::TsigRecord;
use dnsr::update::handle_update_query;
use dnsr::update::UpdateRecord;
use dnsr::watcher::initialize_dns_zones;
use dnsr::zone::Rdata;
use dnsr::zone::CLASS_IN;
use dnsr::zone::CLASS_NONE;
use dnsr::zone::RTYPE_SOA;
use dnsr::zone::RTYPE_TXT;

const APEX: &str = "_acme-challenge.example.com.";

fn one_key_config() -> Keys {
    let mut keys = Keys::new();
    keys.push_entry(KeyEntry {
        file: KeyFile::new("key1".to_string()),
        domains: vec![DomainEntry {
            name: DomainName::new("example.com".to_string()),
            info: DomainInfo::new("ns1.example.com.".to_string(), "admin.example.com.".to_string()),
        }],
    })
    .unwrap();
    keys
}

fn two_key_config() -> Keys {
    let mut keys = one_key_config();
    keys.push_entry(KeyEntry {
        file: KeyFile::new("key2".to_string()),
        domains: vec![DomainEntry {
            name: DomainName::new("other.com".to_string()),
            info: DomainInfo::new("ns1.other.com.".to_string(), "admin.other.com.".to_string()),
        }],
    })
    .unwrap();
    keys
}

fn txt_add(text: &[u8], ttl: u32) -> UpdateRecord {
    UpdateRecord { class: CLASS_IN, ttl, rdata: Rdata::Txt(text.to_vec()) }
}

fn txt_delete(text: &[u8]) -> UpdateRecord {
    UpdateRecord { class: CLASS_NONE, ttl: 0, rdata: Rdata::Txt(text.to_vec()) }
}

fn txt_values(dnsr_zones: &dnsr::zone::ZoneTree, owner: &str) -> Vec<Vec<u8>> {
    let q = Question { qname: owner.to_string(), qtype: RTYPE_TXT, qclass: CLASS_IN };
    let a = handle_non_axfr(dnsr_zones, &q);
    let mut out = Vec::new();
    for rr in &a.answer {
        for d in &rr.data {
            match d {
                Rdata::Txt(bytes) => out.push(bytes.clone()),
                _ => panic!("expected TXT rdata"),
            }
        }
    }
    out
}

#[test]
fn txt_add_then_query() {
    let keys = one_key_config();
    let mut zones = initialize_dns_zones(&keys, 7).unwrap();
    let records = vec![txt_add(b"proof-xyz", 60)];
    handle_update_query(&mut zones, APEX, &records).unwrap();
    let q = Question { qname: APEX.to_string(), qtype: RTYPE_TXT, qclass: CLASS_IN };
    let a = handle_non_axfr(&zones, &q);
    assert_eq!(a.rcode, RCODE_NOERROR);
    assert_eq!(a.answer.len(), 1);
    assert_eq!(a.answer[0].ttl, 60);
    assert_eq!(a.answer[0].data.len(), 1);
    match &a.answer[0].data[0] {
        Rdata::Txt(bytes) => assert_eq!(bytes, b"proof-xyz"),
        _ => panic!("expected TXT rdata"),
    }
    // The apex SOA survives the update untouched.
    let qs = Question { qname: APEX.to_string(), qtype: RTYPE_SOA, qclass: CLASS_IN };
    assert_eq!(handle_non_axfr(&zones, &qs).answer.len(), 1);
}

#[test]
fn same_add_twice_yields_same_rdata_set() {
    // Applying the same add-update twice leaves the same rdata set as
    // applying it once: duplicates are dropped on commit.
    let keys = one_key_config();
    let mut zones = initialize_dns_zones(&keys, 7).unwrap();
    let records = vec![txt_add(b"proof-xyz", 60)];
    handle_update_query(&mut zones, APEX, &records).unwrap();
    let once = txt_values(&zones, APEX);
    handle_update_query(&mut zones, APEX, &records).unwrap();
    let twice = txt_values(&zones, APEX);
    assert_eq!(once, vec![b"proof-xyz".to_vec()]);
    assert_eq!(once, twice);
}

#[test]
fn duplicate_rdata_in_one_update_is_deduplicated() {
    let keys = one_key_config();
    let mut zones = initialize_dns_zones(&keys, 7).unwrap();
    let records = vec![txt_add(b"v", 60), txt_add(b"v", 60), txt_add(b"w", 60)];
    handle_update_query(&mut zones, APEX, &records).unwrap();
    assert_eq!(txt_values(&zones, APEX), vec![b"v".to_vec(), b"w".to_vec()]);
}

#[test]
fn delete_removes_one_rdata() {
    let keys = one_key_config();
    let mut zones = initialize_dns_zones(&keys, 7).unwrap();
    handle_update_query(&mut zones, APEX, &vec![txt_add(b"a", 60), txt_add(b"b", 60)]).unwrap();
    handle_update_query(&mut zones, APEX, &vec![txt_delete(b"a")]).unwrap();
    assert_eq!(txt_values(&zones, APEX), vec![b"b".to_vec()]);
    // Deleting the last rdata removes the whole RRset.
    handle_update_query(&mut zones, APEX, &vec![txt_delete(b"b")]).unwrap();
    assert_eq!(txt_values(&zones, APEX), Vec::<Vec<u8>>::new());
}

#[test]
fn update_unknown_zone_is_notzone() {
    let keys = one_key_config();
    let mut zones = initialize_dns_zones(&keys, 7).unwrap();
    let r = handle_update_query(
        &mut zones,
        "_acme-challenge.nowhere.org.",
        &vec![txt_add(b"x", 60)],
    );
    assert_eq!(r, Err(dnsr::update::UpdateError::NotZone));
}

#[test]
fn non_txt_record_fails_the_transaction() {
    let keys = one_key_config();
    let mut zones = initialize_dns_zones(&keys, 7).unwrap();
    let soa_record = UpdateRecord {
        class: CLASS_IN,
        ttl: 60,
        rdata: Rdata::Soa(dnsr::zone::SoaData {
            mname: "ns1.example.com.".to_string(),
            rname: "admin.example.com.".to_string(),
            serial: 1,
            refresh: 1,
            retry: 1,
            expire: 1,
            minimum: 1,
        }),
    };
    let r = handle_update_query(&mut zones, APEX, &vec![txt_add(b"x", 60), soa_record]);
    assert_eq!(r, Err(dnsr::update::UpdateError::Unsupported));
    // The failed transaction changed nothing.
    assert_eq!(txt_values(&zones, APEX), Vec::<Vec<u8>>::new());
}

fn signed_update_request(dnsr: &Dnsr, key_name: &str, qname: &str, now: u64) -> Request {
    let key = dnsr.keystore.get_key(key_name).unwrap().clone();
    let signed_data = b"request octets per rfc 8945".to_vec();
    let mac = sign_message(&key, &signed_data);
    Request {
        header: Header {
            id: 31,
            qr: false,
            opcode: OPCODE_UPDATE,
            aa: false,
            tc: false,
            rd: false,
            ra: false,
            z: false,
            ad: false,
            cd: false,
            rcode: 0,
        },
        question: Question { qname: qname.to_string(), qtype: RTYPE_SOA, qclass: CLASS_IN },
        udp: false,
        tsig: Some(TsigRecord {
            key_name: key_name.to_string(),
            algorithm_sha512: true,
            time_signed: now,
            mac,
            original_id: 31,
            signed_data,
        }),
        authority: vec![txt_add(b"proof-xyz", 60)],
    }
}

#[test]
fn signed_update_applies_and_is_signed_back() {
    let now = 1_700_000_000u64;
    let mut dnsr = Dnsr::new(Config::new(None, one_key_config()));
    dnsr.zones = initialize_dns_zones(&one_key_config(), 7).unwrap();
    dnsr.keystore.add_key(&KeyFile::new("key1".to_string()), None).unwrap();
    let req = signed_update_request(&dnsr, "key1", APEX, now);
    let out = dnsr.call(&req, now);
    assert_eq!(out.frames.len(), 1);
    assert_eq!(out.frames[0].header.rcode, RCODE_NOERROR);
    assert!(out.sign_key.is_some());
    assert_eq!(out.sign_key.unwrap().name(), "key1");
    assert_eq!(txt_values(&dnsr.zones, APEX), vec![b"proof-xyz".to_vec()]);
}

#[test]
fn unauthorized_key_is_refused() {
    // key2 is configured for other.com only; its signed update for the
    // example.com challenge zone is refused and changes nothing.
    let now = 1_700_000_000u64;
    let mut dnsr = Dnsr::new(Config::new(None, two_key_config()));
    dnsr.zones = initialize_dns_zones(&two_key_config(), 7).unwrap();
    dnsr.keystore.add_key(&KeyFile::new("key1".to_string()), None).unwrap();
    dnsr.keystore.add_key(&KeyFile::new("key2".to_string()), None).unwrap();
    let req = signed_update_request(&dnsr, "key2", APEX, now);
    let out = dnsr.call(&req, now);
    assert_eq!(out.frames.len(), 1);
    assert_eq!(out.frames[0].header.rcode, RCODE_REFUSED);
    assert_eq!(txt_values(&dnsr.zones, APEX), Vec::<Vec<u8>>::new());
}

#[test]
fn unsigned_update_is_refused() {
    let now = 1_700_000_000u64;
    let mut dnsr = Dnsr::new(Config::new(None, one_key_config()));
    dnsr.zones = initialize_dns_zones(&one_key_config(), 7).unwrap();
    dnsr.keystore.add_key(&KeyFile::new("key1".to_string()), None).unwrap();
    let mut req = signed_update_request(&dnsr, "key1", APEX, now);
    // Materialize the key only to build the request shape, then strip it.
    req.tsig = None;
    let out = dnsr.call(&req, now);
    assert_eq!(out.frames.len(), 1);
    assert_eq!(out.frames[0].header.rcode, RCODE_REFUSED);
    assert_eq!(txt_values(&dnsr.zones, APEX), Vec::<Vec<u8>>::new());
}

#[test]
fn signed_update_for_unknown_zone_is_notzone() {
    let now = 1_700_000_000u64;
    let mut dnsr = Dnsr::new(Config::new(None, two_key_config()));
    // Only example.com's zone exists; other.com's key is authorized for
    // other.com, whose zone was never created.
    dnsr.zones = initialize_dns_zones(&one_key_config(), 7).unwrap();
    dnsr.keystore.add_key(&KeyFile::new("key2".to_string()), None).unwrap();
    let req = signed_update_request(&dnsr, "key2", "_acme-challenge.other.com.", now);
    let out = dnsr.call(&req, now);
    assert_eq!(out.frames[0].header.rcode, RCODE_NOTZONE);
}

#[test]
fn signed_update_with_bad_record_is_servfail() {
    let now = 1_700_000_000u64;
    let mut dnsr = Dnsr::new(Config::new(None, one_key_config()));
    dnsr.zones = initialize_dns_zones(&one_key_config(), 7).unwrap();
    dnsr.keystore.add_key(&KeyFile::new("key1".to_string()), None).unwrap();
    let mut req = signed_update_request(&dnsr, "key1", APEX, now);
    // A zero-TTL add lies outside the supported subset.
    req.authority = vec![txt_add(b"proof", 0)];
    let out = dnsr.call(&req, now);
    assert_eq!(out.frames[0].header.rcode, RCODE_SERVFAIL);
    assert_eq!(txt_values(&dnsr.zones, APEX), Vec::<Vec<u8>>::new());
}

#[test]
fn tampered_signature_is_rejected_by_the_service() {
    let now = 1_700_000_000u64;
    let mut dnsr = Dnsr::new(Config::new(None, one_key_config()));
    dnsr.zones = initialize_dns_zones(&one_key_config(), 7).unwrap();
    dnsr.keystore.add_key(&KeyFile::new("key1".to_string()), None).unwrap();
    let mut req = signed_update_request(&dnsr, "key1", APEX, now);
    if let Some(t) = req.tsig.as_mut() {
        t.mac[0] ^= 0x55;
    }
    let out = dnsr.call(&req, now);
    assert_eq!(out.frames.len(), 1);
    assert_eq!(out.frames[0].header.rcode, 9);
    assert_eq!(out.tsig_error, Some(16));
    assert!(out.sign_key.is_none());
    assert_eq!(txt_values(&dnsr.zones, APEX), Vec::<Vec<u8>>::new());
}


#[test]
fn badtime_rejection_is_signed_and_reports_the_error() {
    let now = 1_700_000_000u64;
    let mut dnsr = Dnsr::new(Config::new(None, one_key_config()));
    dnsr.zones = initialize_dns_zones(&one_key_config(), 7).unwrap();
    dnsr.keystore.add_key(&KeyFile::new("key1".to_string()), None).unwrap();
    // Signed correctly, but claiming a time far outside the window.
    let req = signed_update_request(&dnsr, "key1", APEX, now - 10_000);
    let out = dnsr.call(&req, now);
    assert_eq!(out.frames.len(), 1);
    assert_eq!(out.frames[0].header.rcode, 9);
    assert_eq!(out.tsig_error, Some(18));
    // The BADTIME response is to be signed, so the key is handed out.
    assert_eq!(out.sign_key.unwrap().name(), "key1");
    assert_eq!(txt_values(&dnsr.zones, APEX), Vec::<Vec<u8>>::new());
}
