use dnsr::config::Config;
use dnsr::key::DomainEntry;
use dnsr::key::DomainInfo;
use dnsr::key::DomainName;
use dnsr::key::KeyEntry;
use dnsr::key::KeyFile;
use dnsr::key::Keys;
use dnsr::service::answer_query;
use dnsr::service::handle_non_axfr;
use dnsr::service::Dnsr;
use dnsr::service::Header;
use dnsr::service::Question;
use dnsr::service::Request;
use dnsr::service::OPCODE_QUERY;
use dnsr::service::RCODE_NOERROR;
use dnsr::service::RCODE_NXDOMAIN;
use dnsr::watcher::initialize_dns_zones;
use dnsr::zone::Rdata;
use dnsr::zone::CLASS_IN;
use dnsr::zone::RTYPE_AXFR;
use dnsr::zone::RTYPE_SOA;
use dnsr::zone::RTYPE_TXT;

fn req_header(id: u16) -> Header {
    Header {
        id,
        qr: false,
        opcode: OPCODE_QUERY,
        aa: false,
        tc: false,
        rd: true,
        ra: false,
        z: false,
        ad: false,
        cd: false,
        rcode: 0,
    }
}

fn one_key_config() -> Keys {
    let mut keys = Keys::new();
    let entry = KeyEntry {
        file: KeyFile::new("key1".to_string()),
        domains: vec![DomainEntry {
            name: DomainName::new("example.com".to_string()),
            info: DomainInfo::new("ns1.example.com.".to_string(), "admin.example.com.".to_string()),
        }],
    };
    keys.push_entry(entry).unwrap();
    keys
}

#[test]
fn query_unknown_zone_is_nxdomain() {
    // Empty configuration: any query is NXDOMAIN with an empty answer.
    let keys = Keys::new();
    let zones = initialize_dns_zones(&keys, 1000).unwrap();
    let q = Question { qname: "example.com.".to_string(), qtype: 1, qclass: CLASS_IN };
    let a = handle_non_axfr(&zones, &q);
    assert_eq!(a.rcode, RCODE_NXDOMAIN);
    assert_eq!(a.answer.len(), 0);
}

#[test]
fn soa_at_apex() {
    let keys = one_key_config();
    let zones = initialize_dns_zones(&keys, 1000).unwrap();
    let q = Question {
        qname: "_acme-challenge.example.com.".to_string(),
        qtype: RTYPE_SOA,
        qclass: CLASS_IN,
    };
    let a = handle_non_axfr(&zones, &q);
    assert_eq!(a.rcode, RCODE_NOERROR);
    assert_eq!(a.answer.len(), 1);
    let rr = &a.answer[0];
    assert_eq!(rr.rtype, RTYPE_SOA);
    assert_eq!(rr.ttl, 3600);
    assert_eq!(rr.data.len(), 1);
    match &rr.data[0] {
        Rdata::Soa(soa) => {
            assert_eq!(soa.mname, "ns1.example.com.");
            assert_eq!(soa.rname, "admin.example.com.");
            assert_eq!(soa.refresh, 10800);
            assert_eq!(soa.retry, 3600);
            assert_eq!(soa.expire, 605800);
            assert_eq!(soa.minimum, 3600);
            assert_eq!(soa.serial, 1000);
        },
        _ => panic!("expected SOA rdata"),
    }
}

#[test]
fn axfr_empty_zone_two_soa_frames() {
    // A zone holding only its SOA transfers as exactly two messages, both
    // carrying that SOA RRset, both with AA set.
    let keys = one_key_config();
    let zones = initialize_dns_zones(&keys, 1000).unwrap();
    let q = Question {
        qname: "_acme-challenge.example.com.".to_string(),
        qtype: RTYPE_AXFR,
        qclass: CLASS_IN,
    };
    let frames = answer_query(&zones, &q, &req_header(77), false);
    assert_eq!(frames.len(), 2);
    for f in &frames {
        assert_eq!(f.header.id, 77);
        assert!(f.header.qr);
        assert!(f.header.aa);
        assert!(!f.header.tc);
        assert!(f.header.rd);
        assert!(!f.header.ra);
        assert!(!f.header.z && !f.header.ad && !f.header.cd);
        assert_eq!(f.header.opcode, OPCODE_QUERY);
        assert_eq!(f.header.rcode, RCODE_NOERROR);
        assert_eq!(f.answer.len(), 1);
        assert_eq!(f.answer[0].rtype, RTYPE_SOA);
        assert_eq!(f.answer[0].owner, "_acme-challenge.example.com.");
    }
}

#[test]
fn axfr_over_udp_falls_through() {
    // AXFR over UDP is handled as an ordinary query; the apex has no AXFR
    // RRset, so the answer is empty NOERROR (the name itself exists).
    let keys = one_key_config();
    let zones = initialize_dns_zones(&keys, 1000).unwrap();
    let q = Question {
        qname: "_acme-challenge.example.com.".to_string(),
        qtype: RTYPE_AXFR,
        qclass: CLASS_IN,
    };
    let frames = answer_query(&zones, &q, &req_header(5), true);
    assert_eq!(frames.len(), 1);
    assert_eq!(frames[0].header.rcode, RCODE_NOERROR);
    assert_eq!(frames[0].answer.len(), 0);
}

#[test]
fn query_other_class_is_nxdomain() {
    let keys = one_key_config();
    let zones = initialize_dns_zones(&keys, 1000).unwrap();
    let q = Question {
        qname: "_acme-challenge.example.com.".to_string(),
        qtype: RTYPE_SOA,
        qclass: 3,
    };
    let a = handle_non_axfr(&zones, &q);
    assert_eq!(a.rcode, RCODE_NXDOMAIN);
    assert_eq!(a.answer.len(), 0);
}

#[test]
fn unsigned_query_through_service() {
    // The full service answers an unsigned SOA query and signs nothing.
    let keys = one_key_config();
    let mut dnsr = Dnsr::new(Config::new(None, keys));
    let keys2 = one_key_config();
    dnsr.zones = initialize_dns_zones(&keys2, 42).unwrap();
    let req = Request {
        header: req_header(9),
        question: Question {
            qname: "_acme-challenge.example.com.".to_string(),
            qtype: RTYPE_SOA,
            qclass: CLASS_IN,
        },
        udp: true,
        tsig: None,
        authority: Vec::new(),
    };
    let out = dnsr.call(&req, 1_700_000_000);
    assert_eq!(out.frames.len(), 1);
    assert_eq!(out.frames[0].header.rcode, RCODE_NOERROR);
    assert_eq!(out.frames[0].header.id, 9);
    assert_eq!(out.frames[0].answer.len(), 1);
    assert!(out.sign_key.is_none());
    assert!(out.tsig_error.is_none());
}

#[test]
fn subdomain_query_is_served_by_suffix_match() {
    // A name under the apex is served by the zone; the name itself does not
    // exist in the zone, so the rcode is NXDOMAIN from the zone's answer.
    let keys = one_key_config();
    let zones = initialize_dns_zones(&keys, 1000).unwrap();
    let q = Question {
        qname: "sub._acme-challenge.example.com.".to_string(),
        qtype: RTYPE_TXT,
        qclass: CLASS_IN,
    };
    let a = handle_non_axfr(&zones, &q);
    assert_eq!(a.rcode, RCODE_NXDOMAIN);
}

#[test]
fn axfr_with_records_is_soa_framed() {
    // With a TXT RRset present the transfer is SOA, the TXT RRset, SOA:
    // the stream opens and closes with the apex SOA and nothing between
    // carries one.
    let keys = one_key_config();
    let mut zones = initialize_dns_zones(&keys, 1000).unwrap();
    let records = vec![dnsr::update::UpdateRecord {
        class: CLASS_IN,
        ttl: 60,
        rdata: Rdata::Txt(b"proof-xyz".to_vec()),
    }];
    dnsr::update::handle_update_query(&mut zones, "_acme-challenge.example.com.", &records)
        .unwrap();
    let q = Question {
        qname: "_acme-challenge.example.com.".to_string(),
        qtype: RTYPE_AXFR,
        qclass: CLASS_IN,
    };
    let frames = answer_query(&zones, &q, &req_header(8), false);
    assert_eq!(frames.len(), 3);
    assert_eq!(frames[0].answer.len(), 1);
    assert_eq!(frames[0].answer[0].rtype, RTYPE_SOA);
    assert_eq!(frames[1].answer.len(), 1);
    assert_eq!(frames[1].answer[0].rtype, RTYPE_TXT);
    assert_eq!(frames[2].answer.len(), 1);
    assert_eq!(frames[2].answer[0].rtype, RTYPE_SOA);
    for f in &frames {
        assert!(f.header.qr && f.header.aa && !f.header.tc && !f.header.ra);
        assert_eq!(f.header.id, 8);
    }
}
