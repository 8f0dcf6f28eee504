//! Zones and the zone tree.
//!
//! A zone holds the RRsets of one apex; the tree maps query names to zones
//! by longest-suffix match on label boundaries. Zones are built from the
//! configuration with a single SOA RRset at the apex and are mutated only by
//! the dynamic-update processor, which replaces whole RRsets; every mutation
//! keeps the zone invariant: an SOA RRset at the apex of every zone, and no
//! two RRsets sharing owner and record type.

use vstd::prelude::*;

use crate::error::Error;
use crate::error::ErrorKind;
use crate::key::DomainInfo;
use crate::key::DomainName;
use crate::names;

verus! {

/// The IN class.
pub const CLASS_IN: u16 = 1;

/// The NONE class, used by update deletions.
pub const CLASS_NONE: u16 = 254;

/// The ANY class.
pub const CLASS_ANY: u16 = 255;

/// The SOA record type.
pub const RTYPE_SOA: u16 = 6;

/// The TXT record type.
pub const RTYPE_TXT: u16 = 16;

/// The AXFR query type.
pub const RTYPE_AXFR: u16 = 252;

/// The TTL of the apex SOA RRset: one hour.
pub const SOA_TTL: u32 = 3600;

/// The SOA refresh interval seeded into new zones.
pub const SOA_REFRESH: u32 = 10800;

/// The SOA retry interval seeded into new zones.
pub const SOA_RETRY: u32 = 3600;

/// The SOA expire interval seeded into new zones.
pub const SOA_EXPIRE: u32 = 605800;

/// The SOA minimum TTL seeded into new zones.
pub const SOA_MINIMUM: u32 = 3600;

/// The mathematical value of one rdata.
pub enum RdataV {
    Soa {
        mname: Seq<char>,
        rname: Seq<char>,
        serial: u32,
        refresh: u32,
        retry: u32,
        expire: u32,
        minimum: u32,
    },
    Txt(Seq<u8>),
}

impl RdataV {
    /// The record type the rdata belongs to.
    pub open spec fn rtype(self) -> u16 {
        match self {
            RdataV::Soa { .. } => RTYPE_SOA,
            RdataV::Txt(_) => RTYPE_TXT,
        }
    }
}

/// The contents of one SOA record.
#[derive(Debug)]
pub struct SoaData {
    pub mname: String,
    pub rname: String,
    pub serial: u32,
    pub refresh: u32,
    pub retry: u32,
    pub expire: u32,
    pub minimum: u32,
}

/// One rdata value: this server stores SOA and TXT records only.
#[derive(Debug)]
pub enum Rdata {
    Soa(SoaData),
    Txt(Vec<u8>),
}

impl View for Rdata {
    type V = RdataV;

    open spec fn view(&self) -> RdataV {
        match self {
            Rdata::Soa(soa) => RdataV::Soa {
                mname: soa.mname@,
                rname: soa.rname@,
                serial: soa.serial,
                refresh: soa.refresh,
                retry: soa.retry,
                expire: soa.expire,
                minimum: soa.minimum,
            },
            Rdata::Txt(bytes) => RdataV::Txt(bytes@),
        }
    }
}

impl Rdata {
    /// The record type the rdata belongs to.
    pub fn rtype(&self) -> (r: u16)
        ensures
            r == self@.rtype(),
    {
        match self {
            Rdata::Soa(_) => RTYPE_SOA,
            Rdata::Txt(_) => RTYPE_TXT,
        }
    }
}

impl Clone for Rdata {
    fn clone(&self) -> (r: Rdata)
        ensures
            r@ == self@,
    {
        match self {
            Rdata::Soa(soa) => Rdata::Soa(
                SoaData {
                    mname: soa.mname.clone(),
                    rname: soa.rname.clone(),
                    serial: soa.serial,
                    refresh: soa.refresh,
                    retry: soa.retry,
                    expire: soa.expire,
                    minimum: soa.minimum,
                },
            ),
            Rdata::Txt(bytes) => {
                let mut out: Vec<u8> = Vec::new();
                let mut i: usize = 0;
                while i < bytes.len()
                    invariant
                        0 <= i <= bytes@.len(),
                        out@ =~= bytes@.subrange(0, i as int),
                    decreases bytes@.len() - i,
                {
                    out.push(bytes[i]);
                    i += 1;
                }
                assert(out@ =~= bytes@);
                Rdata::Txt(out)
            },
        }
    }
}

/// Whether two rdata values are equal.
pub fn rdata_eq(a: &Rdata, b: &Rdata) -> (r: bool)
    ensures
        r == (a@ == b@),
{
    match (a, b) {
        (Rdata::Soa(x), Rdata::Soa(y)) => names::str_eq(x.mname.as_str(), y.mname.as_str())
            && names::str_eq(x.rname.as_str(), y.rname.as_str()) && x.serial == y.serial
            && x.refresh == y.refresh && x.retry == y.retry && x.expire == y.expire && x.minimum
            == y.minimum,
        (Rdata::Txt(x), Rdata::Txt(y)) => crate::tsig::bytes_eq(x, y),
        _ => false,
    }
}

/// The mathematical value of one RRset.
pub struct RrsetV {
    pub owner: Seq<char>,
    pub rtype: u16,
    pub ttl: u32,
    pub data: Seq<RdataV>,
}

/// One RRset: the records sharing an owner name and a record type, with
/// their common TTL.
#[derive(Debug)]
pub struct Rrset {
    pub owner: String,
    pub rtype: u16,
    pub ttl: u32,
    pub data: Vec<Rdata>,
}

impl View for Rrset {
    type V = RrsetV;

    open spec fn view(&self) -> RrsetV {
        RrsetV {
            owner: self.owner@,
            rtype: self.rtype,
            ttl: self.ttl,
            data: self.data@.map_values(|d: Rdata| d@),
        }
    }
}

impl Clone for Rrset {
    fn clone(&self) -> (r: Rrset)
        ensures
            r@ == self@,
    {
        let mut data: Vec<Rdata> = Vec::new();
        let mut i: usize = 0;
        while i < self.data.len()
            invariant
                0 <= i <= self.data@.len(),
                data@.len() == i,
                forall|j: int| 0 <= j < i ==> (#[trigger] data@[j])@ == self.data@[j]@,
            decreases self.data@.len() - i,
        {
            data.push(self.data[i].clone());
            i += 1;
        }
        assert(data@.map_values(|d: Rdata| d@) =~= self.data@.map_values(|d: Rdata| d@));
        let r = Rrset { owner: self.owner.clone(), rtype: self.rtype, ttl: self.ttl, data };
        assert(r@ =~= self@);
        r
    }
}

/// The mathematical value of one zone.
pub struct ZoneV {
    pub apex: Seq<char>,
    pub rrsets: Seq<RrsetV>,
}

impl ZoneV {
    /// Whether an RRset with the given owner and type is present.
    pub open spec fn has_rrset(self, owner: Seq<char>, rtype: u16) -> bool {
        exists|i: int|
            0 <= i < self.rrsets.len() && self.rrsets[i].owner == owner && self.rrsets[i].rtype
                == rtype
    }

    /// The RRset with the given owner and type.
    pub open spec fn rrset_at(self, owner: Seq<char>, rtype: u16) -> RrsetV
        recommends
            self.has_rrset(owner, rtype),
    {
        self.rrsets[choose|i: int|
            0 <= i < self.rrsets.len() && self.rrsets[i].owner == owner && self.rrsets[i].rtype
                == rtype]
    }

    /// Whether any RRset has the given owner.
    pub open spec fn has_owner(self, owner: Seq<char>) -> bool {
        exists|i: int| 0 <= i < self.rrsets.len() && self.rrsets[i].owner == owner
    }

    /// Well-formed: the apex is absolute, no two RRsets share owner and
    /// type, every RRset is nonempty and carries rdata of its own type, and
    /// an SOA RRset stands at the apex.
    pub open spec fn wf(self) -> bool {
        &&& self.apex.len() > 0
        &&& self.apex[self.apex.len() - 1] == '.'
        &&& (forall|i: int, j: int|
            0 <= i < j < self.rrsets.len() ==> !(self.rrsets[i].owner == self.rrsets[j].owner
                && self.rrsets[i].rtype == self.rrsets[j].rtype))
        &&& (forall|i: int| 0 <= i < self.rrsets.len() ==> self.rrsets[i].data.len() > 0)
        &&& (forall|i: int|
            0 <= i < self.rrsets.len() ==> (#[trigger] self.rrsets[i].data).no_duplicates())
        &&& (forall|i: int, k: int|
            0 <= i < self.rrsets.len() && 0 <= k < self.rrsets[i].data.len()
                ==> (#[trigger] self.rrsets[i].data[k]).rtype() == self.rrsets[i].rtype)
        &&& self.has_rrset(self.apex, RTYPE_SOA)
    }
}

/// One zone: its apex name and its RRsets.
#[derive(Debug)]
pub struct Zone {
    pub apex: String,
    pub rrsets: Vec<Rrset>,
}

impl View for Zone {
    type V = ZoneV;

    open spec fn view(&self) -> ZoneV {
        ZoneV { apex: self.apex@, rrsets: self.rrsets@.map_values(|r: Rrset| r@) }
    }
}

impl Clone for Zone {
    fn clone(&self) -> (r: Zone)
        ensures
            r@ == self@,
    {
        let mut rrsets: Vec<Rrset> = Vec::new();
        let mut i: usize = 0;
        while i < self.rrsets.len()
            invariant
                0 <= i <= self.rrsets@.len(),
                rrsets@.len() == i,
                forall|j: int| 0 <= j < i ==> (#[trigger] rrsets@[j])@ == self.rrsets@[j]@,
            decreases self.rrsets@.len() - i,
        {
            rrsets.push(self.rrsets[i].clone());
            i += 1;
        }
        assert(rrsets@.map_values(|r: Rrset| r@) =~= self.rrsets@.map_values(|r: Rrset| r@));
        let r = Zone { apex: self.apex.clone(), rrsets };
        assert(r@ =~= self@);
        r
    }
}

impl Zone {
    /// Finds the RRset with the given owner and type, if any.
    pub fn find_rrset(&self, owner: &str, rtype: u16) -> (r: Option<&Rrset>)
        requires
            self@.wf(),
        ensures
            match r {
                Some(rr) => self@.has_rrset(owner@, rtype) && rr@ == self@.rrset_at(owner@, rtype)
                    && rr@.owner == owner@ && rr@.rtype == rtype,
                None => !self@.has_rrset(owner@, rtype),
            },
    {
        let mut i: usize = 0;
        while i < self.rrsets.len()
            invariant
                self@.wf(),
                0 <= i <= self.rrsets@.len(),
                forall|j: int|
                    0 <= j < i ==> !(self@.rrsets[j].owner == owner@ && self@.rrsets[j].rtype
                        == rtype),
        decreases self.rrsets@.len() - i,
        {
            let rr = &self.rrsets[i];
            if rr.rtype == rtype && names::str_eq(rr.owner.as_str(), owner) {
                proof {
                    assert(self@.rrsets[i as int].owner == owner@ && self@.rrsets[i as int].rtype
                        == rtype);
                    assert(self@.has_rrset(owner@, rtype));
                    let a = choose|a: int|
                        0 <= a < self@.rrsets.len() && self@.rrsets[a].owner == owner@
                            && self@.rrsets[a].rtype == rtype;
                    assert(self@.rrset_at(owner@, rtype) == self@.rrsets[a]);
                    if a < i {
                        assert(!(self@.rrsets[a].owner == self@.rrsets[i as int].owner
                            && self@.rrsets[a].rtype == self@.rrsets[i as int].rtype));
                    } else if a > i {
                        assert(!(self@.rrsets[i as int].owner == self@.rrsets[a].owner
                            && self@.rrsets[i as int].rtype == self@.rrsets[a].rtype));
                    }
                }
                return Some(rr);
            }
            i += 1;
        }
        None
    }

    /// Whether any RRset has the given owner.
    pub fn has_owner(&self, owner: &str) -> (r: bool)
        ensures
            r == self@.has_owner(owner@),
    {
        let mut i: usize = 0;
        while i < self.rrsets.len()
            invariant
                0 <= i <= self.rrsets@.len(),
                forall|j: int| 0 <= j < i ==> self@.rrsets[j].owner != owner@,
            decreases self.rrsets@.len() - i,
        {
            if names::str_eq(self.rrsets[i].owner.as_str(), owner) {
                proof {
                    assert(self@.rrsets[i as int].owner == owner@);
                    assert(self@.has_owner(owner@));
                }
                return true;
            }
            i += 1;
        }
        false
    }
}

/// The name-validity judgement of the `domain` crate's absolute-name parser.
pub uninterp spec fn dname_valid(s: Seq<char>) -> bool;

/// Relies on `domain::base::name::Name::<Vec<u8>>::vec_from_str`: whether
/// the text parses as an absolute domain name, a function of the text alone.
#[verifier::external_body]
pub fn check_dname(s: &str) -> (r: bool)
    ensures
        r == dname_valid(s@),
{
    domain::base::name::Name::<std::vec::Vec<u8>>::vec_from_str(s).is_ok()
}

/// The zone `build_zone` constructs for one configured domain.
pub open spec fn spec_build_zone(name: Seq<char>, info: crate::key::DomainInfoV, serial: u32) -> ZoneV {
    ZoneV {
        apex: names::apex_of(name),
        rrsets: seq![
            RrsetV {
                owner: names::apex_of(name),
                rtype: RTYPE_SOA,
                ttl: SOA_TTL,
                data: seq![
                    RdataV::Soa {
                        mname: info.mname,
                        rname: info.rname,
                        serial: serial,
                        refresh: SOA_REFRESH,
                        retry: SOA_RETRY,
                        expire: SOA_EXPIRE,
                        minimum: SOA_MINIMUM,
                    },
                ],
            },
        ],
    }
}

/// Builds the challenge zone for one configured domain: apex
/// `_acme-challenge.<name>.` carrying a single SOA RRset with the
/// configured MNAME and RNAME and the seeded timers, at the given serial.
/// Fails exactly when the apex is no valid domain name.
pub fn build_zone(name: &DomainName, info: &DomainInfo, serial: u32) -> (r: Result<Zone, Error>)
    ensures
        r matches Ok(z) ==> z@.wf() && z@ == spec_build_zone(name@, info@, serial),
        r is Ok <==> dname_valid(names::apex_of(name@)),
        r matches Err(e) ==> e.kind == ErrorKind::DomainStr,
{
    let apex = names::make_apex(name.as_str());
    if !check_dname(apex.as_str()) {
        return Err(Error::new(ErrorKind::DomainStr));
    }
    let soa = Rdata::Soa(
        SoaData {
            mname: info.mname().to_owned(),
            rname: info.rname().to_owned(),
            serial,
            refresh: SOA_REFRESH,
            retry: SOA_RETRY,
            expire: SOA_EXPIRE,
            minimum: SOA_MINIMUM,
        },
    );
    let mut data: Vec<Rdata> = Vec::new();
    data.push(soa);
    let rrset = Rrset { owner: apex.clone(), rtype: RTYPE_SOA, ttl: SOA_TTL, data };
    let mut rrsets: Vec<Rrset> = Vec::new();
    rrsets.push(rrset);
    let z = Zone { apex, rrsets };
    proof {
        assert(z@.rrsets =~= seq![z@.rrsets[0]]);
        assert(z@.rrsets[0].data =~= seq![
            RdataV::Soa {
                mname: info@.mname,
                rname: info@.rname,
                serial: serial,
                refresh: SOA_REFRESH,
                retry: SOA_RETRY,
                expire: SOA_EXPIRE,
                minimum: SOA_MINIMUM,
            },
        ]);
        assert(z@.apex.len() > 0 && z@.apex[z@.apex.len() - 1] == '.') by {
            reveal_strlit("_acme-challenge.");
            reveal_strlit(".");
            let a = names::apex_of(name@);
            assert(a[a.len() - 1] == '.');
        }
        assert(z@.has_rrset(z@.apex, RTYPE_SOA)) by {
            assert(z@.rrsets[0].owner == z@.apex && z@.rrsets[0].rtype == RTYPE_SOA);
        }
        assert(z@ =~= spec_build_zone(name@, info@, serial));
    }
    Ok(z)
}

/// The mapping from apex names to zones, looked up by longest suffix.
#[derive(Debug)]
pub struct ZoneTree {
    zones: Vec<Zone>,
}

impl View for ZoneTree {
    type V = Seq<ZoneV>;

    closed spec fn view(&self) -> Seq<ZoneV> {
        self.zones@.map_values(|z: Zone| z@)
    }
}

impl ZoneTree {
    /// Well-formed: every zone well-formed, and no two zones share an apex.
    pub open spec fn wf(self) -> bool {
        (forall|i: int| 0 <= i < self@.len() ==> (#[trigger] self@[i]).wf()) && (forall|
            i: int,
            j: int,
        |
            0 <= i < j < self@.len() ==> self@[i].apex != self@[j].apex)
    }

    /// Whether a zone with the given apex is present.
    pub open spec fn has_apex(self, apex: Seq<char>) -> bool {
        exists|i: int| 0 <= i < self@.len() && self@[i].apex == apex
    }

    /// The zone with the given apex.
    pub open spec fn zone_at(self, apex: Seq<char>) -> ZoneV
        recommends
            self.has_apex(apex),
    {
        self@[choose|i: int| 0 <= i < self@.len() && self@[i].apex == apex]
    }

    /// Whether some zone serves the given name.
    pub open spec fn serves(self, qname: Seq<char>) -> bool {
        exists|i: int| 0 <= i < self@.len() && names::name_under(qname, self@[i].apex)
    }

    /// The zone that serves `qname`: of the zones whose apex is a suffix of
    /// `qname` on a label boundary, the one with the longest apex.
    pub open spec fn best_zone(self, qname: Seq<char>) -> ZoneV
        recommends
            self.serves(qname),
    {
        self@[choose|i: int|
            0 <= i < self@.len() && names::name_under(qname, self@[i].apex) && (forall|j: int|
                0 <= j < self@.len() && names::name_under(qname, self@[j].apex)
                    ==> self@[j].apex.len() <= self@[i].apex.len())]
    }

    /// An empty tree.
    pub fn new() -> (r: ZoneTree)
        ensures
            r@ == Seq::<ZoneV>::empty(),
            r.wf(),
    {
        ZoneTree { zones: Vec::new() }
    }

    /// The zones, for walking. Iteration order carries no meaning.
    pub fn iter_zones(&self) -> (r: &Vec<Zone>)
        ensures
            r@.map_values(|z: Zone| z@) == self@,
    {
        &self.zones
    }

    /// Finds the zone serving `qname`: among the zones whose apex is a
    /// suffix of `qname` on a label boundary, the one with the longest apex.
    pub fn find_zone(&self, qname: &str) -> (r: Option<&Zone>)
        requires
            self.wf(),
        ensures
            match r {
                Some(z) => self.has_apex(z@.apex) && z@ == self.zone_at(z@.apex)
                    && names::name_under(qname@, z@.apex) && (forall|i: int|
                    0 <= i < self@.len() && names::name_under(qname@, self@[i].apex)
                        ==> self@[i].apex.len() <= z@.apex.len()),
                None => !self.serves(qname@),
            },
    {
        let mut best: Option<usize> = None;
        let mut i: usize = 0;
        while i < self.zones.len()
            invariant
                self.wf(),
                0 <= i <= self@.len(),
                self@.len() == self.zones@.len(),
                match best {
                    Some(b) => b < i && names::name_under(qname@, self@[b as int].apex) && (forall|
                        j: int,
                    |
                        0 <= j < i && names::name_under(qname@, self@[j].apex) ==> self@[j].apex.len()
                            <= self@[b as int].apex.len()),
                    None => forall|j: int| 0 <= j < i ==> !names::name_under(qname@, self@[j].apex),
                },
            decreases self@.len() - i,
        {
            if names::name_under_str(qname, self.zones[i].apex.as_str()) {
                proof {
                    assert(names::name_under(qname@, self@[i as int].apex));
                }
                match best {
                    Some(b) => {
                        if self.zones[i].apex.as_str().unicode_len()
                            > self.zones[b].apex.as_str().unicode_len() {
                            best = Some(i);
                        }
                    },
                    None => {
                        best = Some(i);
                    },
                }
            }
            i += 1;
        }
        match best {
            Some(b) => {
                let z = &self.zones[b];
                proof {
                    assert(self@[b as int].apex == z@.apex);
                    let a = choose|a: int| 0 <= a < self@.len() && self@[a].apex == z@.apex;
                    if a != b {
                        assert(self@[a].apex == self@[b as int].apex);
                    }
                }
                Some(z)
            },
            None => None,
        }
    }

    /// Whether a zone of the given apex exists in class `class`.
    pub fn has_zone(&self, apex: &str, class: u16) -> (r: bool)
        ensures
            r == (class == CLASS_IN && self.has_apex(apex@)),
    {
        if class != CLASS_IN {
            return false;
        }
        let mut i: usize = 0;
        while i < self.zones.len()
            invariant
                class == CLASS_IN,
                0 <= i <= self@.len(),
                self@.len() == self.zones@.len(),
                forall|j: int| 0 <= j < i ==> self@[j].apex != apex@,
            decreases self@.len() - i,
        {
            if names::str_eq(self.zones[i].apex.as_str(), apex) {
                proof {
                    assert(self@[i as int].apex == apex@);
                    assert(self.has_apex(apex@));
                }
                return true;
            }
            i += 1;
        }
        false
    }

    /// Inserts a zone; refused when a zone of the same apex exists.
    pub fn insert_zone(&mut self, zone: Zone) -> (r: Result<(), Error>)
        requires
            old(self).wf(),
            zone@.wf(),
        ensures
            final(self).wf(),
            r is Ok ==> !old(self).has_apex(zone@.apex) && final(self)@ == old(self)@.push(zone@),
            r is Ok ==> final(self).has_apex(zone@.apex) && final(self).zone_at(zone@.apex)
                == zone@,
            r is Ok ==> (forall|a: Seq<char>|
                a != zone@.apex ==> #[trigger] final(self).has_apex(a) == old(self).has_apex(a)),
            r is Ok ==> (forall|a: Seq<char>|
                a != zone@.apex && final(self).has_apex(a) ==> #[trigger] final(self).zone_at(a)
                    == old(self).zone_at(a)),
            r is Err ==> old(self).has_apex(zone@.apex) && *final(self) == *old(self) && (
            r matches Err(e) && e.kind == ErrorKind::DomainZone),
    {
        let mut i: usize = 0;
        while i < self.zones.len()
            invariant
                old(self).wf(),
                *self == *old(self),
                0 <= i <= self@.len(),
                self@.len() == self.zones@.len(),
                forall|j: int| 0 <= j < i ==> self@[j].apex != zone@.apex,
            decreases self@.len() - i,
        {
            if names::str_eq(self.zones[i].apex.as_str(), zone.apex.as_str()) {
                proof {
                    assert(old(self)@[i as int].apex == zone@.apex);
                }
                return Err(Error::new(ErrorKind::DomainZone));
            }
            i += 1;
        }
        proof {
            assert(!old(self).has_apex(zone@.apex)) by {
                if old(self).has_apex(zone@.apex) {
                    let a = choose|a: int|
                        0 <= a < old(self)@.len() && old(self)@[a].apex == zone@.apex;
                    assert(self@[a].apex != zone@.apex);
                }
            }
        }
        let ghost pre = self@;
        self.zones.push(zone);
        proof {
            assert(self@ =~= pre.push(zone@));
            assert forall|a: int, b: int| 0 <= a < b < self@.len() implies self@[a].apex
                != self@[b].apex by {
                if b < pre.len() {
                    assert(old(self)@[a].apex != old(self)@[b].apex);
                } else {
                    assert(self@[b] == zone@);
                    assert(pre[a].apex != zone@.apex);
                }
            }
            assert forall|a: int| 0 <= a < self@.len() implies (#[trigger] self@[a]).wf() by {
                if a < pre.len() {
                    assert((old(self)@[a]).wf());
                }
            }
            assert(self@[self@.len() - 1] == zone@);
            assert(self.has_apex(zone@.apex));
            assert(self.zone_at(zone@.apex) == zone@) by {
                let a = choose|a: int| 0 <= a < self@.len() && self@[a].apex == zone@.apex;
                if a < pre.len() {
                    assert(old(self)@[a].apex == zone@.apex);
                    assert(old(self).has_apex(zone@.apex));
                }
            }
            assert forall|a: Seq<char>| a != zone@.apex implies #[trigger] self.has_apex(a) == old(
                self,
            ).has_apex(a) by {
                if self.has_apex(a) {
                    let i2 = choose|i2: int| 0 <= i2 < self@.len() && self@[i2].apex == a;
                    assert(i2 < pre.len());
                    assert(old(self)@[i2].apex == a);
                }
                if old(self).has_apex(a) {
                    let i2 = choose|i2: int| 0 <= i2 < old(self)@.len() && old(self)@[i2].apex == a;
                    assert(self@[i2].apex == a);
                }
            }
            assert forall|a: Seq<char>| a != zone@.apex && self.has_apex(a) implies #[trigger] self
                .zone_at(a) == old(self).zone_at(a) by {
                let i2 = choose|i2: int| 0 <= i2 < self@.len() && self@[i2].apex == a;
                assert(self.zone_at(a) == self@[i2]);
                assert(i2 < pre.len());
                assert(old(self)@[i2].apex == a);
                assert(old(self).has_apex(a));
                let j2 = choose|j2: int| 0 <= j2 < old(self)@.len() && old(self)@[j2].apex == a;
                assert(old(self).zone_at(a) == old(self)@[j2]);
                if i2 != j2 {
                    if i2 < j2 {
                        assert(old(self)@[i2].apex != old(self)@[j2].apex);
                    } else {
                        assert(old(self)@[j2].apex != old(self)@[i2].apex);
                    }
                }
            }
        }
        Ok(())
    }

    /// Removes the zone of the given apex; refused when none exists.
    pub fn remove_zone(&mut self, apex: &str) -> (r: Result<(), Error>)
        requires
            old(self).wf(),
        ensures
            final(self).wf(),
            r is Ok ==> old(self).has_apex(apex@) && !final(self).has_apex(apex@) && (forall|
                a: Seq<char>,
            | a != apex@ ==> #[trigger] final(self).has_apex(a) == old(self).has_apex(a)) && (
            forall|a: Seq<char>|
                a != apex@ && final(self).has_apex(a) ==> #[trigger] final(self).zone_at(a) == old(
                    self,
                ).zone_at(a)),
            r is Err ==> !old(self).has_apex(apex@) && *final(self) == *old(self) && (
            r matches Err(e) && e.kind == ErrorKind::DomainZone),
    {
        let mut i: usize = 0;
        while i < self.zones.len()
            invariant
                old(self).wf(),
                *self == *old(self),
                0 <= i <= self@.len(),
                self@.len() == self.zones@.len(),
                forall|j: int| 0 <= j < i ==> self@[j].apex != apex@,
            decreases self@.len() - i,
        {
            if names::str_eq(self.zones[i].apex.as_str(), apex) {
                let ghost pre = self@;
                proof {
                    assert(pre[i as int].apex == apex@);
                    assert(old(self).has_apex(apex@));
                }
                self.zones.remove(i);
                proof {
                    assert(self@ =~= pre.subrange(0, i as int) + pre.subrange(
                        i as int + 1,
                        pre.len() as int,
                    ));
                    assert forall|a: int| 0 <= a < self@.len() implies self@[a] == (if a < i {
                        pre[a]
                    } else {
                        pre[a + 1]
                    }) by {}
                    assert forall|a: int| 0 <= a < self@.len() implies self@[a].apex != apex@ by {
                        if a < i {
                            assert(pre[a].apex != pre[i as int].apex);
                        } else {
                            assert(pre[i as int].apex != pre[a + 1].apex);
                        }
                    }
                    assert(!self.has_apex(apex@)) by {
                        if self.has_apex(apex@) {
                            let a = choose|a: int| 0 <= a < self@.len() && self@[a].apex == apex@;
                            assert(self@[a].apex != apex@);
                        }
                    }
                    assert forall|n: Seq<char>| n != apex@ implies #[trigger] self.has_apex(n)
                        == old(self).has_apex(n) by {
                        if self.has_apex(n) {
                            let a = choose|a: int| 0 <= a < self@.len() && self@[a].apex == n;
                            if a < i {
                                assert(old(self)@[a].apex == n);
                            } else {
                                assert(old(self)@[a + 1].apex == n);
                            }
                            assert(old(self).has_apex(n));
                        }
                        if old(self).has_apex(n) {
                            let a = choose|a: int|
                                0 <= a < old(self)@.len() && old(self)@[a].apex == n;
                            assert(a != i);
                            if a < i {
                                assert(self@[a].apex == n);
                            } else {
                                assert(self@[a - 1].apex == n);
                            }
                            assert(self.has_apex(n));
                        }
                    }
                    assert forall|n: Seq<char>| n != apex@ && self.has_apex(n) implies #[trigger] self
                        .zone_at(n) == old(self).zone_at(n) by {
                        let a = choose|a: int| 0 <= a < self@.len() && self@[a].apex == n;
                        assert(self.zone_at(n) == self@[a]);
                        assert(old(self).has_apex(n));
                        let b = choose|b: int| 0 <= b < old(self)@.len() && old(self)@[b].apex == n;
                        assert(old(self).zone_at(n) == pre[b]);
                        assert(b != i);
                        if a < i {
                            if a != b {
                                if a < b {
                                    assert(pre[a].apex != pre[b].apex);
                                } else {
                                    assert(pre[b].apex != pre[a].apex);
                                }
                            }
                        } else {
                            if a + 1 != b {
                                if a + 1 < b {
                                    assert(pre[a + 1].apex != pre[b].apex);
                                } else {
                                    assert(pre[b].apex != pre[a + 1].apex);
                                }
                            }
                        }
                    }
                }
                return Ok(());
            }
            i += 1;
        }
        proof {
            assert(!old(self).has_apex(apex@)) by {
                if old(self).has_apex(apex@) {
                    let a = choose|a: int|
                        0 <= a < old(self)@.len() && old(self)@[a].apex == apex@;
                    assert(self@[a].apex != apex@);
                }
            }
        }
        Err(Error::new(ErrorKind::DomainZone))
    }

    /// Replaces the zone of the given apex with a new zone of that same
    /// apex: the atomic commit of a zone mutation. Other zones stay as they
    /// are, so a reader sees the zone wholly before or wholly after.
    pub fn update_zone(&mut self, apex: &str, zone: Zone) -> (r: Result<(), Error>)
        requires
            old(self).wf(),
            zone@.wf(),
            zone@.apex == apex@,
        ensures
            final(self).wf(),
            r is Ok ==> old(self).has_apex(apex@) && final(self).has_apex(apex@)
                && final(self).zone_at(apex@) == zone@ && (forall|a: Seq<char>|
                a != apex@ ==> #[trigger] final(self).has_apex(a) == old(self).has_apex(a)) && (
            forall|a: Seq<char>|
                a != apex@ && final(self).has_apex(a) ==> #[trigger] final(self).zone_at(a) == old(
                    self,
                ).zone_at(a)),
            r is Err ==> !old(self).has_apex(apex@) && *final(self) == *old(self) && (
            r matches Err(e) && e.kind == ErrorKind::DomainZone),
    {
        let mut i: usize = 0;
        while i < self.zones.len()
            invariant
                old(self).wf(),
                *self == *old(self),
                zone@.wf(),
                zone@.apex == apex@,
                0 <= i <= self@.len(),
                self@.len() == self.zones@.len(),
                forall|j: int| 0 <= j < i ==> self@[j].apex != apex@,
            decreases self@.len() - i,
        {
            if names::str_eq(self.zones[i].apex.as_str(), apex) {
                let ghost pre = self@;
                proof {
                    assert(pre[i as int].apex == apex@);
                    assert(old(self).has_apex(apex@));
                }
                self.zones.set(i, zone);
                proof {
                    assert(self@ =~= pre.update(i as int, zone@));
                    assert forall|a: int| 0 <= a < self@.len() implies self@[a] == (if a == i {
                        zone@
                    } else {
                        pre[a]
                    }) by {}
                    assert forall|a: int, b: int| 0 <= a < b < self@.len() implies self@[a].apex
                        != self@[b].apex by {
                        assert(pre[a].apex != pre[b].apex);
                    }
                    assert forall|a: int| 0 <= a < self@.len() implies (
                    #[trigger] self@[a]).wf() by {
                        if a != i {
                            assert((old(self)@[a]).wf());
                        }
                    }
                    assert(self.has_apex(apex@)) by {
                        assert(self@[i as int].apex == apex@);
                    }
                    assert(self.zone_at(apex@) == zone@) by {
                        let a = choose|a: int| 0 <= a < self@.len() && self@[a].apex == apex@;
                        if a != i {
                            assert(pre[a].apex == apex@);
                            assert(pre[a].apex != pre[i as int].apex);
                        }
                    }
                    assert forall|n: Seq<char>| n != apex@ implies #[trigger] self.has_apex(n)
                        == old(self).has_apex(n) by {
                        if self.has_apex(n) {
                            let a = choose|a: int| 0 <= a < self@.len() && self@[a].apex == n;
                            assert(a != i);
                            assert(old(self)@[a].apex == n);
                        }
                        if old(self).has_apex(n) {
                            let a = choose|a: int|
                                0 <= a < old(self)@.len() && old(self)@[a].apex == n;
                            assert(a != i);
                            assert(self@[a].apex == n);
                        }
                    }
                    assert forall|n: Seq<char>| n != apex@ && self.has_apex(n) implies #[trigger] self
                        .zone_at(n) == old(self).zone_at(n) by {
                        let a = choose|a: int| 0 <= a < self@.len() && self@[a].apex == n;
                        assert(a != i);
                        assert(self.zone_at(n) == self@[a]);
                        assert(old(self)@[a].apex == n);
                        assert(old(self).has_apex(n));
                        let b = choose|b: int| 0 <= b < old(self)@.len() && old(self)@[b].apex == n;
                        assert(old(self).zone_at(n) == pre[b]);
                        if a != b {
                            if a < b {
                                assert(pre[a].apex != pre[b].apex);
                            } else {
                                assert(pre[b].apex != pre[a].apex);
                            }
                        }
                    }
                }
                return Ok(());
            }
            i += 1;
        }
        proof {
            assert(!old(self).has_apex(apex@)) by {
                if old(self).has_apex(apex@) {
                    let a = choose|a: int|
                        0 <= a < old(self)@.len() && old(self)@[a].apex == apex@;
                    assert(self@[a].apex != apex@);
                }
            }
        }
        Err(Error::new(ErrorKind::DomainZone))
    }
}


/// Two suffixes of one name that lie on label boundaries and have the same
/// length are the same name.
pub proof fn lemma_suffix_len_unique(q: Seq<char>, a: Seq<char>, b: Seq<char>)
    requires
        names::name_under(q, a),
        names::name_under(q, b),
        a.len() == b.len(),
    ensures
        a == b,
{
    if a.len() == q.len() {
        assert(q == a);
        assert(q == b);
    } else {
        assert(a == q.subrange(q.len() - a.len(), q.len() as int));
        assert(b == q.subrange(q.len() - b.len(), q.len() as int));
    }
}

/// A zone of the tree that matches a query name and whose apex is at least
/// as long as every other match is the zone `best_zone` names.
pub proof fn lemma_found_is_best(tree: ZoneTree, q: Seq<char>, z: ZoneV)
    requires
        tree.wf(),
        tree.has_apex(z.apex),
        z == tree.zone_at(z.apex),
        names::name_under(q, z.apex),
        forall|i: int|
            0 <= i < tree@.len() && names::name_under(q, tree@[i].apex) ==> tree@[i].apex.len()
                <= z.apex.len(),
    ensures
        tree.serves(q),
        z == tree.best_zone(q),
{
    let b = choose|b: int| 0 <= b < tree@.len() && tree@[b].apex == z.apex;
    assert(tree.zone_at(z.apex) == tree@[b]);
    assert(names::name_under(q, tree@[b].apex));
    assert(tree.serves(q));
    assert(0 <= b < tree@.len() && names::name_under(q, tree@[b].apex) && (forall|j: int|
        0 <= j < tree@.len() && names::name_under(q, tree@[j].apex) ==> tree@[j].apex.len()
            <= tree@[b].apex.len()));
    let c = choose|i: int|
        0 <= i < tree@.len() && names::name_under(q, tree@[i].apex) && (forall|j: int|
            0 <= j < tree@.len() && names::name_under(q, tree@[j].apex) ==> tree@[j].apex.len()
                <= tree@[i].apex.len());
    assert(tree.best_zone(q) == tree@[c]);
    assert(tree@[c].apex.len() <= tree@[b].apex.len());
    assert(tree@[b].apex.len() <= tree@[c].apex.len());
    lemma_suffix_len_unique(q, tree@[b].apex, tree@[c].apex);
    if b != c {
        if b < c {
            assert(tree@[b].apex != tree@[c].apex);
        } else {
            assert(tree@[c].apex != tree@[b].apex);
        }
    }
}

} // verus!
