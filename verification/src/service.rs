//! The request pipeline: query answering, AXFR streaming, and the service
//! entry point that wires TSIG authentication, scope validation and the
//! update processor together.
//!
//! `Dnsr::call` is the whole per-request behaviour: it verifies the TSIG
//! claims, refuses what fails, answers queries and AXFR transfers from the
//! zone tree, and applies authorized updates. Its contract carries the
//! pipeline's guarantees: every AXFR stream is SOA-framed with the mandated
//! header bits, and the zone tree changes only under a verified signature
//! whose key is configured for the updated name.

use vstd::prelude::*;

use crate::config::Config;
use crate::key::Key;
use crate::key::KeyStore;
use crate::names;
use crate::tsig;
use crate::tsig::TsigRecord;
use crate::tsig::TsigVerdict;
use crate::update;
use crate::update::UpdateRecord;
use crate::zone::Rrset;
use crate::zone::RrsetV;
use crate::zone::Zone;
use crate::zone::ZoneTree;
use crate::zone::ZoneV;
use crate::zone::CLASS_IN;
use crate::zone::RTYPE_AXFR;
use crate::zone::RTYPE_SOA;

verus! {

/// The QUERY opcode.
pub const OPCODE_QUERY: u8 = 0;

/// The UPDATE opcode.
pub const OPCODE_UPDATE: u8 = 5;

/// The NOERROR response code.
pub const RCODE_NOERROR: u8 = 0;

/// The SERVFAIL response code.
pub const RCODE_SERVFAIL: u8 = 2;

/// The NXDOMAIN response code.
pub const RCODE_NXDOMAIN: u8 = 3;

/// The REFUSED response code.
pub const RCODE_REFUSED: u8 = 5;

/// The NOTZONE response code.
pub const RCODE_NOTZONE: u8 = 10;

/// A message header, bit for bit as the wire carries it.
#[derive(Debug, Clone, Copy, PartialEq, Eq, Structural)]
pub struct Header {
    pub id: u16,
    pub qr: bool,
    pub opcode: u8,
    pub aa: bool,
    pub tc: bool,
    pub rd: bool,
    pub ra: bool,
    pub z: bool,
    pub ad: bool,
    pub cd: bool,
    pub rcode: u8,
}

/// The sole question of a request.
#[derive(Debug)]
pub struct Question {
    pub qname: String,
    pub qtype: u16,
    pub qclass: u16,
}

/// The mathematical value of a question.
pub struct QuestionV {
    pub qname: Seq<char>,
    pub qtype: u16,
    pub qclass: u16,
}

impl View for Question {
    type V = QuestionV;

    open spec fn view(&self) -> QuestionV {
        QuestionV { qname: self.qname@, qtype: self.qtype, qclass: self.qclass }
    }
}

/// The sections of one answer.
#[derive(Debug)]
pub struct Answer {
    pub rcode: u8,
    pub answer: Vec<Rrset>,
    pub authority: Vec<Rrset>,
    pub additional: Vec<Rrset>,
}

/// The mathematical value of an answer.
pub struct AnswerV {
    pub rcode: u8,
    pub answer: Seq<RrsetV>,
    pub authority: Seq<RrsetV>,
    pub additional: Seq<RrsetV>,
}

impl View for Answer {
    type V = AnswerV;

    open spec fn view(&self) -> AnswerV {
        AnswerV {
            rcode: self.rcode,
            answer: self.answer@.map_values(|r: Rrset| r@),
            authority: self.authority@.map_values(|r: Rrset| r@),
            additional: self.additional@.map_values(|r: Rrset| r@),
        }
    }
}

/// An answer of the given code with no records in any section.
pub open spec fn empty_answer(rcode: u8) -> AnswerV {
    AnswerV {
        rcode,
        answer: Seq::empty(),
        authority: Seq::empty(),
        additional: Seq::empty(),
    }
}

impl Answer {
    /// Builds a bare answer carrying only a response code.
    pub fn empty(rcode: u8) -> (r: Answer)
        ensures
            r@ == empty_answer(rcode),
    {
        let r = Answer { rcode, answer: Vec::new(), authority: Vec::new(), additional: Vec::new() };
        proof {
            assert(r@.answer =~= Seq::<RrsetV>::empty());
            assert(r@.authority =~= Seq::<RrsetV>::empty());
            assert(r@.additional =~= Seq::<RrsetV>::empty());
        }
        r
    }
}

/// One response message of a stream: its header and its answer section.
#[derive(Debug)]
pub struct Frame {
    pub header: Header,
    pub answer: Vec<Rrset>,
}

/// The mathematical value of a frame.
pub struct FrameV {
    pub header: Header,
    pub answer: Seq<RrsetV>,
}

impl View for Frame {
    type V = FrameV;

    open spec fn view(&self) -> FrameV {
        FrameV { header: self.header, answer: self.answer@.map_values(|r: Rrset| r@) }
    }
}

/// The header of an ordinary response: the ID and RD bit echo the request,
/// QR and AA are set, and everything else is clear.
pub open spec fn spec_response_header(req: Header, rcode: u8) -> Header {
    Header {
        id: req.id,
        qr: true,
        opcode: req.opcode,
        aa: true,
        tc: false,
        rd: req.rd,
        ra: false,
        z: false,
        ad: false,
        cd: false,
        rcode,
    }
}

/// The header bits every AXFR response message must carry: ID copied from
/// the request, QR set, opcode QUERY, AA set, TC clear, RD copied, and RA,
/// Z, AD, CD all clear.
pub open spec fn axfr_header_ok(h: Header, req: Header) -> bool {
    &&& h.id == req.id
    &&& h.qr
    &&& h.opcode == OPCODE_QUERY
    &&& h.aa
    &&& !h.tc
    &&& h.rd == req.rd
    &&& !h.ra
    &&& !h.z
    &&& !h.ad
    &&& !h.cd
}

/// Builds an ordinary response header.
pub fn mk_response_header(req: &Header, rcode: u8) -> (r: Header)
    ensures
        r == spec_response_header(*req, rcode),
{
    Header {
        id: req.id,
        qr: true,
        opcode: req.opcode,
        aa: true,
        tc: false,
        rd: req.rd,
        ra: false,
        z: false,
        ad: false,
        cd: false,
        rcode,
    }
}

/// Builds the header of one AXFR response message.
pub fn set_axfr_header(req: &Header, rcode: u8) -> (r: Header)
    ensures
        axfr_header_ok(r, *req),
        r.rcode == rcode,
{
    Header {
        id: req.id,
        qr: true,
        opcode: OPCODE_QUERY,
        aa: true,
        tc: false,
        rd: req.rd,
        ra: false,
        z: false,
        ad: false,
        cd: false,
        rcode,
    }
}

/// What a zone answers for one name and type: the matching RRset under
/// NOERROR; NOERROR with nothing when the name exists without the type; and
/// NXDOMAIN when the name does not exist in the zone.
pub open spec fn spec_query(z: ZoneV, qname: Seq<char>, qtype: u16) -> AnswerV {
    if z.has_rrset(qname, qtype) {
        AnswerV {
            rcode: RCODE_NOERROR,
            answer: seq![z.rrset_at(qname, qtype)],
            authority: Seq::empty(),
            additional: Seq::empty(),
        }
    } else if z.has_owner(qname) {
        empty_answer(RCODE_NOERROR)
    } else {
        empty_answer(RCODE_NXDOMAIN)
    }
}

/// What the tree answers for one question: NXDOMAIN outside class IN or
/// when no zone serves the name, else the serving zone's answer.
pub open spec fn spec_answer(zones: ZoneTree, q: QuestionV) -> AnswerV {
    if q.qclass != CLASS_IN {
        empty_answer(RCODE_NXDOMAIN)
    } else if !zones.serves(q.qname) {
        empty_answer(RCODE_NXDOMAIN)
    } else {
        spec_query(zones.best_zone(q.qname), q.qname, q.qtype)
    }
}

/// Answers one zone query.
pub fn query_zone(zone: &Zone, qname: &str, qtype: u16) -> (r: Answer)
    requires
        zone@.wf(),
    ensures
        r@ == spec_query(zone@, qname@, qtype),
{
    match zone.find_rrset(qname, qtype) {
        Some(rr) => {
            let mut answer: Vec<Rrset> = Vec::new();
            answer.push(rr.clone());
            let r = Answer {
                rcode: RCODE_NOERROR,
                answer,
                authority: Vec::new(),
                additional: Vec::new(),
            };
            proof {
                assert(r@.answer =~= seq![zone@.rrset_at(qname@, qtype)]);
                assert(r@.authority =~= Seq::<RrsetV>::empty());
                assert(r@.additional =~= Seq::<RrsetV>::empty());
            }
            r
        },
        None => {
            if zone.has_owner(qname) {
                Answer::empty(RCODE_NOERROR)
            } else {
                Answer::empty(RCODE_NXDOMAIN)
            }
        },
    }
}

/// Answers one non-AXFR question against the tree.
pub fn handle_non_axfr(zones: &ZoneTree, q: &Question) -> (r: Answer)
    requires
        zones.wf(),
    ensures
        r@ == spec_answer(*zones, q@),
{
    if q.qclass != CLASS_IN {
        return Answer::empty(RCODE_NXDOMAIN);
    }
    match zones.find_zone(q.qname.as_str()) {
        None => Answer::empty(RCODE_NXDOMAIN),
        Some(z) => {
            proof {
                crate::zone::lemma_found_is_best(*zones, q@.qname, z@);
                let a = choose|a: int| 0 <= a < zones@.len() && zones@[a].apex == z@.apex;
                assert(zones.zone_at(z@.apex) == zones@[a]);
                assert((zones@[a]).wf());
            }
            query_zone(z, q.qname.as_str(), q.qtype)
        },
    }
}

/// The zone's RRsets of a type other than SOA among the first `i`, in order.
pub open spec fn nonsoa_upto(rrsets: Seq<RrsetV>, i: int) -> Seq<RrsetV>
    decreases i,
{
    if i <= 0 {
        Seq::empty()
    } else if rrsets[i - 1].rtype == RTYPE_SOA {
        nonsoa_upto(rrsets, i - 1)
    } else {
        nonsoa_upto(rrsets, i - 1).push(rrsets[i - 1])
    }
}

/// The zone's RRsets of a type other than SOA, in order.
pub open spec fn nonsoa_rrsets(z: ZoneV) -> Seq<RrsetV> {
    nonsoa_upto(z.rrsets, z.rrsets.len() as int)
}

/// What an AXFR response stream must look like: every message carries the
/// mandated header bits; outside class IN or with no serving zone it is one
/// NXDOMAIN message; otherwise it opens and closes with a message holding
/// exactly the apex SOA RRset, and the messages between carry the zone's
/// other RRsets, one each, none of them SOA.
pub open spec fn axfr_frames_ok(
    zones: ZoneTree,
    q: QuestionV,
    reqh: Header,
    frames: Seq<FrameV>,
) -> bool {
    &&& (forall|i: int| 0 <= i < frames.len() ==> axfr_header_ok((#[trigger] frames[i]).header, reqh))
    &&& if q.qclass != CLASS_IN || !zones.serves(q.qname) {
        frames.len() == 1 && frames[0].header.rcode == RCODE_NXDOMAIN && frames[0].answer.len()
            == 0
    } else {
        let z = zones.best_zone(q.qname);
        let soa = z.rrset_at(z.apex, RTYPE_SOA);
        &&& frames.len() == 2 + nonsoa_rrsets(z).len()
        &&& frames[0].answer == seq![soa]
        &&& frames[0].header.rcode == RCODE_NOERROR
        &&& frames[frames.len() - 1].answer == seq![soa]
        &&& frames[frames.len() - 1].header.rcode == RCODE_NOERROR
        &&& (forall|i: int|
            1 <= i < frames.len() - 1 ==> (#[trigger] frames[i]).answer == seq![
                nonsoa_rrsets(z)[i - 1],
            ] && frames[i].header.rcode == RCODE_NOERROR)
        &&& (forall|i: int, k: int|
            1 <= i < frames.len() - 1 && 0 <= k < frames[i].answer.len() ==> (
            #[trigger] frames[i].answer[k]).rtype != RTYPE_SOA)
    }
}

/// Streams one AXFR transfer: SOA first, every other RRset one message
/// each, SOA last.
pub fn handle_axfr(zones: &ZoneTree, q: &Question, reqh: &Header) -> (r: Vec<Frame>)
    requires
        zones.wf(),
    ensures
        axfr_frames_ok(*zones, q@, *reqh, r@.map_values(|f: Frame| f@)),
{
    let mut frames: Vec<Frame> = Vec::new();
    if q.qclass != CLASS_IN {
        frames.push(Frame { header: set_axfr_header(reqh, RCODE_NXDOMAIN), answer: Vec::new() });
        proof {
            assert(r_map(frames@)[0].answer =~= Seq::<RrsetV>::empty());
        }
        return frames;
    }
    let zone = match zones.find_zone(q.qname.as_str()) {
        None => {
            frames.push(
                Frame { header: set_axfr_header(reqh, RCODE_NXDOMAIN), answer: Vec::new() },
            );
            proof {
                assert(r_map(frames@)[0].answer =~= Seq::<RrsetV>::empty());
            }
            return frames;
        },
        Some(z) => z,
    };
    proof {
        crate::zone::lemma_found_is_best(*zones, q@.qname, zone@);
        let a = choose|a: int| 0 <= a < zones@.len() && zones@[a].apex == zone@.apex;
        assert(zones.zone_at(zone@.apex) == zones@[a]);
        assert((zones@[a]).wf());
    }
    let ghost zv = zone@;
    let soa = match zone.find_rrset(zone.apex.as_str(), RTYPE_SOA) {
        Some(rr) => rr.clone(),
        None => {
            // A well-formed zone always has its apex SOA; this cannot occur.
            frames.push(
                Frame { header: set_axfr_header(reqh, RCODE_SERVFAIL), answer: Vec::new() },
            );
            return frames;
        },
    };
    let ghost soav = zv.rrset_at(zv.apex, RTYPE_SOA);
    let mut first_answer: Vec<Rrset> = Vec::new();
    first_answer.push(soa.clone());
    frames.push(Frame { header: set_axfr_header(reqh, RCODE_NOERROR), answer: first_answer });
    proof {
        assert(r_map(frames@)[0].answer =~= seq![soav]);
    }
    let mut j: usize = 0;
    while j < zone.rrsets.len()
        invariant
            zv == zone@,
            zv.wf(),
            0 <= j <= zone.rrsets@.len(),
            zv.rrsets.len() == zone.rrsets@.len(),
            r_map(frames@).len() == 1 + nonsoa_upto(zv.rrsets, j as int).len(),
            r_map(frames@)[0].answer == seq![soav],
            r_map(frames@)[0].header.rcode == RCODE_NOERROR,
            forall|i: int|
                0 <= i < r_map(frames@).len() ==> axfr_header_ok(
                    (#[trigger] r_map(frames@)[i]).header,
                    *reqh,
                ),
            forall|i: int|
                1 <= i < r_map(frames@).len() ==> (#[trigger] r_map(frames@)[i]).answer == seq![
                    nonsoa_upto(zv.rrsets, j as int)[i - 1],
                ] && r_map(frames@)[i].header.rcode == RCODE_NOERROR && r_map(
                    frames@,
                )[i].answer[0].rtype != RTYPE_SOA,
        decreases zone.rrsets@.len() - j,
    {
        let rr = &zone.rrsets[j];
        let ghost pre = r_map(frames@);
        if rr.rtype != RTYPE_SOA {
            let mut answer: Vec<Rrset> = Vec::new();
            answer.push(rr.clone());
            let f = Frame { header: set_axfr_header(reqh, RCODE_NOERROR), answer };
            let ghost fv = f@;
            proof {
                assert(fv.answer =~= seq![zv.rrsets[j as int]]);
            }
            frames.push(f);
            proof {
                assert(r_map(frames@) =~= pre.push(fv));
                assert(nonsoa_upto(zv.rrsets, j + 1) == nonsoa_upto(zv.rrsets, j as int).push(
                    zv.rrsets[j as int],
                ));
            }
        }
        j += 1;
    }
    let ghost mid = r_map(frames@);
    let mut last_answer: Vec<Rrset> = Vec::new();
    last_answer.push(soa);
    let lastf = Frame { header: set_axfr_header(reqh, RCODE_NOERROR), answer: last_answer };
    let ghost lastv = lastf@;
    proof {
        assert(lastv.answer =~= seq![soav]);
    }
    frames.push(lastf);
    proof {
        let full = r_map(frames@);
        assert(full =~= mid.push(lastv));
        assert(nonsoa_upto(zv.rrsets, zv.rrsets.len() as int) == nonsoa_rrsets(zv));
        assert(full[full.len() - 1].answer == seq![soav]);
        assert forall|i: int| 1 <= i < full.len() - 1 implies (#[trigger] full[i]).answer == seq![
            nonsoa_rrsets(zv)[i - 1],
        ] && full[i].header.rcode == RCODE_NOERROR by {
            assert(full[i] == mid[i]);
        }
        assert forall|i: int, k: int|
            1 <= i < full.len() - 1 && 0 <= k < full[i].answer.len() implies (
        #[trigger] full[i].answer[k]).rtype != RTYPE_SOA by {
            assert(full[i] == mid[i]);
            assert(mid[i].answer[0].rtype != RTYPE_SOA);
        }
    }
    frames
}

/// The views of a frame vector.
pub open spec fn r_map(frames: Seq<Frame>) -> Seq<FrameV> {
    frames.map_values(|f: Frame| f@)
}

/// What the query path of the service produces for one request: an AXFR
/// stream over a stream transport, one plain answer otherwise.
pub open spec fn query_frames_ok(
    zones: ZoneTree,
    q: QuestionV,
    reqh: Header,
    udp: bool,
    frames: Seq<FrameV>,
) -> bool {
    if q.qtype == RTYPE_AXFR && !udp {
        axfr_frames_ok(zones, q, reqh, frames)
    } else {
        let a = spec_answer(zones, q);
        frames.len() == 1 && frames[0].header == spec_response_header(reqh, a.rcode)
            && frames[0].answer == a.answer
    }
}

/// Answers the query path of one request: AXFR over a stream transport is
/// streamed, everything else gets a single message; AXFR over UDP falls
/// through to the ordinary path.
pub fn answer_query(zones: &ZoneTree, q: &Question, reqh: &Header, udp: bool) -> (r: Vec<Frame>)
    requires
        zones.wf(),
    ensures
        query_frames_ok(*zones, q@, *reqh, udp, r@.map_values(|f: Frame| f@)),
{
    if q.qtype == RTYPE_AXFR && !udp {
        handle_axfr(zones, q, reqh)
    } else {
        let answer = handle_non_axfr(zones, q);
        let header = mk_response_header(reqh, answer.rcode);
        let mut frames: Vec<Frame> = Vec::new();
        frames.push(Frame { header, answer: answer.answer });
        proof {
            assert(r_map(frames@)[0].answer =~= spec_answer(*zones, q@).answer);
        }
        frames
    }
}


/// One request as the listeners hand it in: header, sole question, the
/// transport, the TSIG claims if the message was signed, and the authority
/// records of an update.
pub struct Request {
    pub header: Header,
    pub question: Question,
    pub udp: bool,
    pub tsig: Option<TsigRecord>,
    pub authority: Vec<UpdateRecord>,
}

/// What one call produces: the response messages, the key to sign them
/// with (present when the request verified, and on a BADTIME rejection,
/// whose response must be signed), and the TSIG error to report if the
/// request was rejected.
pub struct CallOutcome {
    pub frames: Vec<Frame>,
    pub sign_key: Option<Key>,
    pub tsig_error: Option<u16>,
}

/// The server: the configuration, the zone tree and the TSIG key store.
#[derive(Debug)]
pub struct Dnsr {
    pub config: Config,
    pub zones: ZoneTree,
    pub keystore: KeyStore,
}

impl Dnsr {
    /// A server over the given configuration, with no zones and no keys
    /// materialized yet.
    pub fn new(config: Config) -> (r: Dnsr)
        ensures
            r.config == config,
            r.zones@ == Seq::<ZoneV>::empty(),
            r.zones.wf(),
            r.keystore.keys_seq() == Seq::<Key>::empty(),
            r.keystore.wf(),
    {
        Dnsr { config, zones: ZoneTree::new(), keystore: KeyStore::new() }
    }

    /// Serves one request.
    ///
    /// The request's TSIG claims are verified first; a failure is answered
    /// with NOTAUTH and the matching TSIG error, and nothing else happens.
    /// An update must be signed by a key the configuration lists for the
    /// updated name, else it is refused. Queries and transfers are answered
    /// from the zone tree. The response is to be signed exactly when the
    /// request verified, with the verified key — and on BADTIME, whose
    /// rejection RFC 8945 requires to be signed and to report the server's
    /// time.
    pub fn call(&mut self, req: &Request, now: u64) -> (r: CallOutcome)
        requires
            old(self).zones.wf(),
            old(self).keystore.wf(),
        ensures
            final(self).zones.wf(),
            final(self).keystore == old(self).keystore,
            final(self).config == old(self).config,
            r.frames@.len() >= 1,
            // The scope rule: the zone tree changes only for a verified
            // update whose key is configured for the updated name.
            final(self).zones@ != old(self).zones@ ==> (req.header.opcode == OPCODE_UPDATE && (
            req.tsig matches Some(t) && tsig::spec_request_verified(
                old(self).keystore,
                t,
                req.header.id,
                now,
            ) && old(self).config.keys.authorizes(
                t.key_name@,
                names::scope_of(req.question@.qname),
            ))),
            // A failed signature is rejected outright.
            (req.tsig matches Some(t) && !tsig::spec_request_verified(
                old(self).keystore,
                t,
                req.header.id,
                now,
            )) ==> (*final(self) == *old(self) && r.frames@.len() == 1 && r.frames@[0].header
                == spec_response_header(req.header, tsig::RCODE_NOTAUTH)
                && r.frames@[0].answer.len() == 0 && r.tsig_error is Some),
            // Which TSIG error a rejection reports, exactly as verification
            // fixed it; only a BADTIME rejection hands out the key, for the
            // signed time report its response must carry.
            (req.tsig matches Some(t) && (!t.algorithm_sha512 || !old(self).keystore.has_key(
                t.key_name@,
            ))) ==> (r.tsig_error == Some(tsig::TSIG_BADKEY) && r.sign_key is None),
            (req.tsig matches Some(t) && t.algorithm_sha512 && old(self).keystore.has_key(
                t.key_name@,
            ) && (!tsig::spec_mac_verifies(
                old(self).keystore.spec_get(t.key_name@),
                t.signed_data@,
                t.mac@,
            ) || t.original_id != req.header.id)) ==> (r.tsig_error == Some(tsig::TSIG_BADSIG)
                && r.sign_key is None),
            req.tsig matches Some(t) ==> ((t.algorithm_sha512 && old(self).keystore.has_key(
                t.key_name@,
            ) && tsig::spec_mac_verifies(
                old(self).keystore.spec_get(t.key_name@),
                t.signed_data@,
                t.mac@,
            ) && t.original_id == req.header.id && !tsig::time_in_window(t.time_signed, now)) ==> (
            r.tsig_error == Some(tsig::TSIG_BADTIME) && (r.sign_key matches Some(k)
                && k.spec_name() == t.key_name@ && k.spec_secret() == old(self).keystore.spec_get(
                t.key_name@,
            ).spec_secret()))),
            // The response is signed exactly under a key that authenticated
            // the message: the verified key, or the BADTIME rejection's.
            r.sign_key matches Some(k) ==> (req.tsig matches Some(t) && t.algorithm_sha512 && old(
                self,
            ).keystore.has_key(t.key_name@) && tsig::spec_mac_verifies(
                old(self).keystore.spec_get(t.key_name@),
                t.signed_data@,
                t.mac@,
            ) && t.original_id == req.header.id && k.spec_name() == t.key_name@ && k.spec_secret()
                == old(self).keystore.spec_get(t.key_name@).spec_secret()),
            (req.tsig matches Some(t) && tsig::spec_request_verified(
                old(self).keystore,
                t,
                req.header.id,
                now,
            )) ==> r.sign_key is Some,
            // The query path answers from the tree and changes nothing.
            ((req.tsig is None || (req.tsig matches Some(t) && tsig::spec_request_verified(
                old(self).keystore,
                t,
                req.header.id,
                now,
            ))) && req.header.opcode != OPCODE_UPDATE) ==> (*final(self) == *old(self)
                && query_frames_ok(
                old(self).zones,
                req.question@,
                req.header,
                req.udp,
                r.frames@.map_values(|f: Frame| f@),
            )),
            // An unsigned update is refused.
            (req.tsig is None && req.header.opcode == OPCODE_UPDATE) ==> (*final(self) == *old(
                self,
            ) && r.frames@.len() == 1 && r.frames@[0].header == spec_response_header(
                req.header,
                RCODE_REFUSED,
            ) && r.frames@[0].answer.len() == 0),
            // A verified update outside the key's scope is refused.
            (req.tsig matches Some(t) && tsig::spec_request_verified(
                old(self).keystore,
                t,
                req.header.id,
                now,
            ) && req.header.opcode == OPCODE_UPDATE && !old(self).config.keys.authorizes(
                t.key_name@,
                names::scope_of(req.question@.qname),
            )) ==> (*final(self) == *old(self) && r.frames@.len() == 1 && r.frames@[0].header
                == spec_response_header(req.header, RCODE_REFUSED) && r.frames@[0].answer.len()
                == 0),
            // A verified update in scope is processed.
            (req.tsig matches Some(t) && tsig::spec_request_verified(
                old(self).keystore,
                t,
                req.header.id,
                now,
            ) && req.header.opcode == OPCODE_UPDATE && old(self).config.keys.authorizes(
                t.key_name@,
                names::scope_of(req.question@.qname),
            )) ==> (r.frames@.len() == 1 && r.frames@[0].answer.len() == 0 && (
            if !old(self).zones.serves(req.question@.qname) {
                r.frames@[0].header == spec_response_header(req.header, RCODE_NOTZONE) && *final(self) == *old(self)
            } else if !update::records_ok(req.authority@.map_values(|x: UpdateRecord| x@)) {
                r.frames@[0].header == spec_response_header(req.header, RCODE_SERVFAIL) && *final(self) == *old(self)
            } else {
                r.frames@[0].header == spec_response_header(req.header, RCODE_NOERROR) && final(self).zones.has_apex(old(self).zones.best_zone(req.question@.qname).apex) && final(self).zones.zone_at(old(self).zones.best_zone(req.question@.qname).apex)
                    == update::spec_apply_update(
                    old(self).zones.best_zone(req.question@.qname),
                    req.question@.qname,
                    req.authority@.map_values(|x: UpdateRecord| x@),
                ) && (forall|a: Seq<char>|
                    a != old(self).zones.best_zone(req.question@.qname).apex
                        ==> #[trigger] final(self).zones.has_apex(a) == old(self).zones.has_apex(
                        a,
                    )) && (forall|a: Seq<char>|
                    a != old(self).zones.best_zone(req.question@.qname).apex && final(self).zones.has_apex(a) ==> #[trigger] final(self).zones.zone_at(a) == old(
                        self,
                    ).zones.zone_at(a))
            })),
    {
        let verdict = tsig::verify_request(&self.keystore, &req.tsig, req.header.id, now);
        match verdict {
            TsigVerdict::Rejected { rcode, tsig_error, key } => {
                let mut frames: Vec<Frame> = Vec::new();
                frames.push(
                    Frame { header: mk_response_header(&req.header, rcode), answer: Vec::new() },
                );
                proof {
                    assert(r_map(frames@)[0].answer =~= Seq::<RrsetV>::empty());
                }
                CallOutcome { frames, sign_key: key, tsig_error: Some(tsig_error) }
            },
            TsigVerdict::Unsigned => {
                if req.header.opcode == OPCODE_UPDATE {
                    let mut frames: Vec<Frame> = Vec::new();
                    frames.push(
                        Frame {
                            header: mk_response_header(&req.header, RCODE_REFUSED),
                            answer: Vec::new(),
                        },
                    );
                    proof {
                        assert(r_map(frames@)[0].answer =~= Seq::<RrsetV>::empty());
                    }
                    CallOutcome { frames, sign_key: None, tsig_error: None }
                } else {
                    let frames = answer_query(&self.zones, &req.question, &req.header, req.udp);
                    CallOutcome { frames, sign_key: None, tsig_error: None }
                }
            },
            TsigVerdict::Verified { key } => {
                if req.header.opcode == OPCODE_UPDATE {
                    if !tsig::validate_key_scope(
                        &self.config.keys,
                        key.name(),
                        req.question.qname.as_str(),
                    ) {
                        let mut frames: Vec<Frame> = Vec::new();
                        frames.push(
                            Frame {
                                header: mk_response_header(&req.header, RCODE_REFUSED),
                                answer: Vec::new(),
                            },
                        );
                        proof {
                            assert(r_map(frames@)[0].answer =~= Seq::<RrsetV>::empty());
                        }
                        CallOutcome { frames, sign_key: Some(key), tsig_error: None }
                    } else {
                        let rcode = match update::handle_update_query(
                            &mut self.zones,
                            req.question.qname.as_str(),
                            &req.authority,
                        ) {
                            Ok(()) => RCODE_NOERROR,
                            Err(update::UpdateError::NotZone) => RCODE_NOTZONE,
                            Err(update::UpdateError::Unsupported) => RCODE_SERVFAIL,
                        };
                        let mut frames: Vec<Frame> = Vec::new();
                        frames.push(
                            Frame {
                                header: mk_response_header(&req.header, rcode),
                                answer: Vec::new(),
                            },
                        );
                        proof {
                            assert(r_map(frames@)[0].answer =~= Seq::<RrsetV>::empty());
                        }
                        CallOutcome { frames, sign_key: Some(key), tsig_error: None }
                    }
                } else {
                    let frames = answer_query(&self.zones, &req.question, &req.header, req.udp);
                    CallOutcome { frames, sign_key: Some(key), tsig_error: None }
                }
            },
        }
    }
}

} // verus!
