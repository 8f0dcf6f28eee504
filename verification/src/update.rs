//! The dynamic-update processor (RFC 2136, restricted to what ACME DNS-01
//! needs).
//!
//! An update names a zone and carries records in its authority section.
//! Prerequisites are ignored. Only TXT rdata may be added or deleted: a
//! record of class IN with nonzero TTL and nonempty rdata adds, a record of
//! class NONE with zero TTL deletes, and anything else fails the whole
//! transaction. The processor builds a working list of the owner's RRsets
//! keyed by record type and TTL, applies every record, and commits the list
//! back into the zone in one step, deduplicating rdata. The commit replaces
//! whole RRsets, so a reader of the tree sees the zone before or after the
//! update, never in between.

use vstd::prelude::*;

use crate::error::Error;
use crate::error::ErrorKind;
use crate::names;
use crate::zone::rdata_eq;
use crate::zone::Rdata;
use crate::zone::RdataV;
use crate::zone::Rrset;
use crate::zone::RrsetV;
use crate::zone::Zone;
use crate::zone::ZoneV;
use crate::zone::ZoneTree;
use crate::zone::CLASS_IN;
use crate::zone::CLASS_NONE;
use crate::zone::RTYPE_SOA;
use crate::zone::RTYPE_TXT;

verus! {

/// One record of an update's authority section. Its record type is the
/// type of its rdata.
pub struct UpdateRecord {
    pub class: u16,
    pub ttl: u32,
    pub rdata: Rdata,
}

/// The mathematical value of one update record.
pub struct UpdateRecordV {
    pub class: u16,
    pub ttl: u32,
    pub rdata: RdataV,
}

impl View for UpdateRecord {
    type V = UpdateRecordV;

    open spec fn view(&self) -> UpdateRecordV {
        UpdateRecordV { class: self.class, ttl: self.ttl, rdata: self.rdata@ }
    }
}

/// Whether the rdata is a nonempty TXT value.
pub open spec fn txt_nonempty(d: RdataV) -> bool {
    match d {
        RdataV::Txt(b) => b.len() > 0,
        _ => false,
    }
}

/// Whether one record is acceptable: a TXT add with nonzero TTL, or a TXT
/// delete of class NONE with zero TTL.
pub open spec fn record_ok(r: UpdateRecordV) -> bool {
    ||| (r.class == CLASS_IN && r.ttl > 0 && txt_nonempty(r.rdata))
    ||| (r.class == CLASS_NONE && r.ttl == 0 && r.rdata is Txt)
}

/// Whether every record of the update is acceptable.
pub open spec fn records_ok(recs: Seq<UpdateRecordV>) -> bool {
    forall|i: int| 0 <= i < recs.len() ==> record_ok(#[trigger] recs[i])
}

/// The RRsets of the first `i` with the given owner, in order: the initial
/// working list of the update.
pub open spec fn owned_upto(rrsets: Seq<RrsetV>, owner: Seq<char>, i: int) -> Seq<RrsetV>
    decreases i,
{
    if i <= 0 {
        Seq::empty()
    } else if rrsets[i - 1].owner == owner {
        owned_upto(rrsets, owner, i - 1).push(rrsets[i - 1])
    } else {
        owned_upto(rrsets, owner, i - 1)
    }
}

/// The initial working list: the zone's RRsets owned by `owner`.
pub open spec fn init_entries(z: ZoneV, owner: Seq<char>) -> Seq<RrsetV> {
    owned_upto(z.rrsets, owner, z.rrsets.len() as int)
}

/// Whether the working list holds an entry of the given type and TTL.
pub open spec fn has_entry(entries: Seq<RrsetV>, rtype: u16, ttl: u32) -> bool {
    exists|i: int| 0 <= i < entries.len() && entries[i].rtype == rtype && entries[i].ttl == ttl
}

/// The index of the entry with the given type and TTL.
pub open spec fn entry_idx(entries: Seq<RrsetV>, rtype: u16, ttl: u32) -> int
    recommends
        has_entry(entries, rtype, ttl),
{
    choose|i: int| 0 <= i < entries.len() && entries[i].rtype == rtype && entries[i].ttl == ttl
}

/// `data` with its first occurrence of `d` removed.
pub open spec fn remove_first(data: Seq<RdataV>, d: RdataV) -> Seq<RdataV>
    decreases data.len(),
{
    if data.len() == 0 {
        Seq::empty()
    } else if data[0] == d {
        data.drop_first()
    } else {
        seq![data[0]] + remove_first(data.drop_first(), d)
    }
}

/// One record applied to the working list: an add appends its rdata to the
/// entry of its type and TTL, creating the entry if absent; a delete
/// removes the first occurrence of its rdata from every entry of its type.
pub open spec fn apply_record(entries: Seq<RrsetV>, owner: Seq<char>, r: UpdateRecordV) -> Seq<
    RrsetV,
> {
    if r.class == CLASS_IN {
        if has_entry(entries, r.rdata.rtype(), r.ttl) {
            let i = entry_idx(entries, r.rdata.rtype(), r.ttl);
            entries.update(
                i,
                RrsetV {
                    owner: entries[i].owner,
                    rtype: entries[i].rtype,
                    ttl: entries[i].ttl,
                    data: entries[i].data.push(r.rdata),
                },
            )
        } else {
            entries.push(
                RrsetV { owner, rtype: r.rdata.rtype(), ttl: r.ttl, data: seq![r.rdata] },
            )
        }
    } else {
        entries.map_values(
            |e: RrsetV|
                if e.rtype == r.rdata.rtype() {
                    RrsetV {
                        owner: e.owner,
                        rtype: e.rtype,
                        ttl: e.ttl,
                        data: remove_first(e.data, r.rdata),
                    }
                } else {
                    e
                },
        )
    }
}

/// The first `i` records applied to the working list, in order.
pub open spec fn apply_upto(
    entries: Seq<RrsetV>,
    owner: Seq<char>,
    recs: Seq<UpdateRecordV>,
    i: int,
) -> Seq<RrsetV>
    decreases i,
{
    if i <= 0 {
        entries
    } else {
        apply_record(apply_upto(entries, owner, recs, i - 1), owner, recs[i - 1])
    }
}

/// The working list after the whole update.
pub open spec fn final_entries(z: ZoneV, owner: Seq<char>, recs: Seq<UpdateRecordV>) -> Seq<
    RrsetV,
> {
    apply_upto(init_entries(z, owner), owner, recs, recs.len() as int)
}

/// The first `i` elements with later duplicates dropped: each element is
/// kept only where it does not already occur earlier.
pub open spec fn dedup_upto(s: Seq<RdataV>, i: int) -> Seq<RdataV>
    decreases i,
{
    if i <= 0 {
        Seq::empty()
    } else if s.subrange(0, i - 1).contains(s[i - 1]) {
        dedup_upto(s, i - 1)
    } else {
        dedup_upto(s, i - 1).push(s[i - 1])
    }
}

/// The sequence with duplicates dropped, keeping first occurrences.
pub open spec fn dedup(s: Seq<RdataV>) -> Seq<RdataV> {
    dedup_upto(s, s.len() as int)
}

/// The RRsets of the first `i` without those of the given owner and type.
pub open spec fn remove_upto(rrsets: Seq<RrsetV>, owner: Seq<char>, rtype: u16, i: int) -> Seq<
    RrsetV,
>
    decreases i,
{
    if i <= 0 {
        Seq::empty()
    } else if rrsets[i - 1].owner == owner && rrsets[i - 1].rtype == rtype {
        remove_upto(rrsets, owner, rtype, i - 1)
    } else {
        remove_upto(rrsets, owner, rtype, i - 1).push(rrsets[i - 1])
    }
}

/// The index of the RRset with the given owner and type.
pub open spec fn rrset_idx(z: ZoneV, owner: Seq<char>, rtype: u16) -> int
    recommends
        z.has_rrset(owner, rtype),
{
    choose|i: int|
        0 <= i < z.rrsets.len() && z.rrsets[i].owner == owner && z.rrsets[i].rtype == rtype
}

/// The zone with the RRset of the given owner and type replaced by the
/// given TTL and data; empty data removes the RRset, and a missing RRset is
/// created.
pub open spec fn zset(z: ZoneV, owner: Seq<char>, rtype: u16, ttl: u32, data: Seq<RdataV>) -> ZoneV {
    if data.len() == 0 {
        ZoneV { apex: z.apex, rrsets: remove_upto(z.rrsets, owner, rtype, z.rrsets.len() as int) }
    } else if z.has_rrset(owner, rtype) {
        ZoneV {
            apex: z.apex,
            rrsets: z.rrsets.update(
                rrset_idx(z, owner, rtype),
                RrsetV { owner, rtype, ttl, data },
            ),
        }
    } else {
        ZoneV { apex: z.apex, rrsets: z.rrsets.push(RrsetV { owner, rtype, ttl, data }) }
    }
}

/// The first `i` working entries committed into the zone, in order: each
/// replaces the RRset of its type at the owner, deduplicated.
pub open spec fn commit_upto(z: ZoneV, owner: Seq<char>, entries: Seq<RrsetV>, i: int) -> ZoneV
    decreases i,
{
    if i <= 0 {
        z
    } else {
        let prev = commit_upto(z, owner, entries, i - 1);
        zset(prev, owner, entries[i - 1].rtype, entries[i - 1].ttl, dedup(entries[i - 1].data))
    }
}

/// What the whole update does to the zone.
pub open spec fn spec_apply_update(z: ZoneV, owner: Seq<char>, recs: Seq<UpdateRecordV>) -> ZoneV {
    commit_upto(z, owner, final_entries(z, owner, recs), final_entries(z, owner, recs).len() as int)
}


/// Duplicate removal keeps exactly the members of its input, keeps first
/// occurrences only, and never empties a nonempty prefix.
proof fn lemma_dedup_upto_props(s: Seq<RdataV>, i: int)
    requires
        0 <= i <= s.len(),
    ensures
        dedup_upto(s, i).no_duplicates(),
        forall|x: RdataV| dedup_upto(s, i).contains(x) == s.subrange(0, i).contains(x),
        i > 0 ==> dedup_upto(s, i).len() > 0,
    decreases i,
{
    if i > 0 {
        lemma_dedup_upto_props(s, i - 1);
        assert forall|x: RdataV| s.subrange(0, i - 1).contains(x) implies s.subrange(
            0,
            i,
        ).contains(x) by {
            let k = choose|k: int| 0 <= k < i - 1 && (#[trigger] s.subrange(0, i - 1)[k]) == x;
            assert(s.subrange(0, i)[k] == x);
        }
        if s.subrange(0, i - 1).contains(s[i - 1]) {
            assert(dedup_upto(s, i) == dedup_upto(s, i - 1));
            assert forall|x: RdataV| s.subrange(0, i).contains(x) implies s.subrange(
                0,
                i - 1,
            ).contains(x) by {
                let k = choose|k: int| 0 <= k < i && (#[trigger] s.subrange(0, i)[k]) == x;
                if k < i - 1 {
                    assert(s.subrange(0, i - 1)[k] == x);
                } else {
                    assert(x == s[i - 1]);
                }
            }
            assert forall|x: RdataV| dedup_upto(s, i).contains(x) == s.subrange(0, i).contains(
                x,
            ) by {
                assert(dedup_upto(s, i - 1).contains(x) == s.subrange(0, i - 1).contains(x));
            }
        } else {
            let prev = dedup_upto(s, i - 1);
            assert(dedup_upto(s, i) == prev.push(s[i - 1]));
            assert(!prev.contains(s[i - 1]));
            assert(prev.push(s[i - 1])[prev.len() as int] == s[i - 1]);
            assert forall|a: int, b: int|
                0 <= a < prev.push(s[i - 1]).len() && 0 <= b < prev.push(s[i - 1]).len() && a
                    != b implies (#[trigger] prev.push(s[i - 1])[a]) != (#[trigger] prev.push(
                s[i - 1],
            )[b]) by {
                if a < prev.len() && b < prev.len() {
                    assert(prev[a] != prev[b]);
                } else if a < prev.len() {
                    if prev[a] == s[i - 1] {
                        assert(prev.contains(s[i - 1]));
                    }
                } else {
                    if prev[b] == s[i - 1] {
                        assert(prev.contains(s[i - 1]));
                    }
                }
            }
            assert forall|x: RdataV| dedup_upto(s, i).contains(x) implies s.subrange(
                0,
                i,
            ).contains(x) by {
                let k = choose|k: int|
                    0 <= k < prev.push(s[i - 1]).len() && (#[trigger] prev.push(s[i - 1])[k]) == x;
                if k < prev.len() {
                    assert(prev[k] == x);
                    assert(prev.contains(x));
                    assert(s.subrange(0, i - 1).contains(x));
                } else {
                    assert(x == s[i - 1]);
                    assert(s.subrange(0, i)[i - 1] == x);
                }
            }
            assert forall|x: RdataV| s.subrange(0, i).contains(x) implies dedup_upto(
                s,
                i,
            ).contains(x) by {
                let k = choose|k: int| 0 <= k < i && (#[trigger] s.subrange(0, i)[k]) == x;
                if k < i - 1 {
                    assert(s.subrange(0, i - 1)[k] == x);
                    assert(s.subrange(0, i - 1).contains(x));
                    assert(prev.contains(x));
                    let m = choose|m: int| 0 <= m < prev.len() && (#[trigger] prev[m]) == x;
                    assert(prev.push(s[i - 1])[m] == x);
                } else {
                    assert(x == s[i - 1]);
                    assert(prev.push(s[i - 1])[prev.len() as int] == x);
                }
            }
        }
    }
}

/// The facts of `lemma_dedup_upto_props` for the whole sequence.
proof fn lemma_dedup_props(s: Seq<RdataV>)
    ensures
        dedup(s).no_duplicates(),
        forall|x: RdataV| dedup(s).contains(x) <==> s.contains(x),
        s.len() > 0 ==> dedup(s).len() > 0,
{
    lemma_dedup_upto_props(s, s.len() as int);
    assert(s.subrange(0, s.len() as int) =~= s);
}

/// A sequence without duplicates is its own deduplication.
proof fn lemma_dedup_of_clean(s: Seq<RdataV>, i: int)
    requires
        s.no_duplicates(),
        0 <= i <= s.len(),
    ensures
        dedup_upto(s, i) =~= s.subrange(0, i),
    decreases i,
{
    if i > 0 {
        lemma_dedup_of_clean(s, i - 1);
        let prefix = s.subrange(0, i - 1);
        assert(!prefix.contains(s[i - 1])) by {
            if prefix.contains(s[i - 1]) {
                let k = choose|k: int| 0 <= k < prefix.len() && prefix[k] == s[i - 1];
                assert(s[k] == s[i - 1]);
            }
        }
    }
}

/// Removing the first occurrence of `d`, found at index `p`, drops exactly
/// the element at `p`.
proof fn lemma_remove_first_at(data: Seq<RdataV>, d: RdataV, p: int)
    requires
        0 <= p < data.len(),
        data[p] == d,
        forall|q: int| 0 <= q < p ==> data[q] != d,
    ensures
        remove_first(data, d) =~= data.subrange(0, p) + data.subrange(p + 1, data.len() as int),
    decreases p,
{
    if p == 0 {
        assert(remove_first(data, d) == data.drop_first());
        assert(data.drop_first() =~= data.subrange(0, 0) + data.subrange(1, data.len() as int));
    } else {
        assert(data[0] != d);
        let rest = data.drop_first();
        assert(rest[p - 1] == d);
        assert forall|q: int| 0 <= q < p - 1 implies rest[q] != d by {
            assert(rest[q] == data[q + 1]);
        }
        lemma_remove_first_at(rest, d, p - 1);
        assert(remove_first(data, d) == seq![data[0]] + remove_first(rest, d));
        assert(seq![data[0]] + (rest.subrange(0, p - 1) + rest.subrange(p, rest.len() as int))
            =~= data.subrange(0, p) + data.subrange(p + 1, data.len() as int));
    }
}

/// Whether one record is acceptable.
pub fn record_ok_exec(r: &UpdateRecord) -> (b: bool)
    ensures
        b == record_ok(r@),
{
    match &r.rdata {
        Rdata::Txt(bytes) => (r.class == CLASS_IN && r.ttl > 0 && bytes.len() > 0) || (r.class
            == CLASS_NONE && r.ttl == 0),
        _ => false,
    }
}

/// Deduplicates a data list, keeping first occurrences.
fn dedup_data(data: &Vec<Rdata>) -> (r: Vec<Rdata>)
    ensures
        r@.map_values(|d: Rdata| d@) == dedup(data@.map_values(|d: Rdata| d@)),
{
    let ghost dv = data@.map_values(|d: Rdata| d@);
    let mut out: Vec<Rdata> = Vec::new();
    let mut i: usize = 0;
    while i < data.len()
        invariant
            0 <= i <= data@.len(),
            dv == data@.map_values(|d: Rdata| d@),
            dv.len() == data@.len(),
            out@.map_values(|d: Rdata| d@) == dedup_upto(dv, i as int),
        decreases data@.len() - i,
    {
        let mut seen = false;
        let mut j: usize = 0;
        while j < i
            invariant
                0 <= j <= i < data@.len(),
                dv == data@.map_values(|d: Rdata| d@),
                dv.len() == data@.len(),
                seen == (exists|k: int| 0 <= k < j && dv[k] == dv[i as int]),
            decreases i - j,
        {
            if rdata_eq(&data[j], &data[i]) {
                proof {
                    assert(dv[j as int] == dv[i as int]);
                }
                seen = true;
            }
            j += 1;
        }
        proof {
            assert(seen == dv.subrange(0, i as int).contains(dv[i as int])) by {
                if seen {
                    let k = choose|k: int| 0 <= k < i && dv[k] == dv[i as int];
                    assert(dv.subrange(0, i as int)[k] == dv[i as int]);
                }
                if dv.subrange(0, i as int).contains(dv[i as int]) {
                    let k = choose|k: int|
                        0 <= k < i && dv.subrange(0, i as int)[k] == dv[i as int];
                    assert(dv[k] == dv[i as int]);
                }
            }
        }
        if !seen {
            let ghost pre = out@.map_values(|d: Rdata| d@);
            out.push(data[i].clone());
            proof {
                assert(out@.map_values(|d: Rdata| d@) =~= pre.push(dv[i as int]));
            }
        }
        i += 1;
    }
    proof {
        assert(out@.map_values(|d: Rdata| d@) == dedup_upto(dv, dv.len() as int));
    }
    out
}


/// The per-RRset part of the zone invariant: nonempty, duplicate-free data
/// of the RRset's own type.
pub open spec fn rrset_ok(rr: RrsetV) -> bool {
    &&& rr.data.len() > 0
    &&& rr.data.no_duplicates()
    &&& forall|k: int| 0 <= k < rr.data.len() ==> (#[trigger] rr.data[k]).rtype() == rr.rtype
}

/// An element that does not match the removal key survives the removal.
proof fn lemma_remove_upto_keeps(
    rrsets: Seq<RrsetV>,
    owner: Seq<char>,
    rtype: u16,
    i: int,
    k: int,
)
    requires
        0 <= k < i <= rrsets.len(),
        !(rrsets[k].owner == owner && rrsets[k].rtype == rtype),
    ensures
        exists|a: int|
            0 <= a < remove_upto(rrsets, owner, rtype, i).len() && (#[trigger] remove_upto(
                rrsets,
                owner,
                rtype,
                i,
            )[a]) == rrsets[k],
    decreases i,
{
    if k == i - 1 {
        assert(remove_upto(rrsets, owner, rtype, i) == remove_upto(rrsets, owner, rtype, i
            - 1).push(rrsets[k]));
        let n = remove_upto(rrsets, owner, rtype, i).len() - 1;
        assert(remove_upto(rrsets, owner, rtype, i)[n] == rrsets[k]);
    } else {
        lemma_remove_upto_keeps(rrsets, owner, rtype, i - 1, k);
        let a = choose|a: int|
            0 <= a < remove_upto(rrsets, owner, rtype, i - 1).len() && (#[trigger] remove_upto(
                rrsets,
                owner,
                rtype,
                i - 1,
            )[a]) == rrsets[k];
        if rrsets[i - 1].owner == owner && rrsets[i - 1].rtype == rtype {
            assert(remove_upto(rrsets, owner, rtype, i)[a] == rrsets[k]);
        } else {
            assert(remove_upto(rrsets, owner, rtype, i)[a] == rrsets[k]);
        }
    }
}

/// Replaces the RRset of the given owner and type in the zone: empty data
/// removes it, otherwise it is overwritten or created with the given TTL.
/// The zone invariant is preserved; the caller may not empty the apex SOA.
fn set_rrset(z: &mut Zone, owner: &str, rtype: u16, ttl: u32, data: Vec<Rdata>)
    requires
        old(z)@.wf(),
        forall|k: int| 0 <= k < data@.len() ==> (#[trigger] data@[k])@.rtype() == rtype,
        data@.map_values(|d: Rdata| d@).no_duplicates(),
        (owner@ == old(z)@.apex && rtype == RTYPE_SOA) ==> data@.len() > 0,
    ensures
        final(z)@ == zset(old(z)@, owner@, rtype, ttl, data@.map_values(|d: Rdata| d@)),
        final(z)@.wf(),
{
    let ghost zv = z@;
    let ghost dv = data@.map_values(|d: Rdata| d@);
    proof {
        assert(dv.len() == data@.len());
    }
    if data.len() == 0 {
        let mut kept: Vec<Rrset> = Vec::new();
        let mut j: usize = 0;
        while j < z.rrsets.len()
            invariant
                *z == *old(z),
                zv == z@,
                zv.wf(),
                0 <= j <= z.rrsets@.len(),
                zv.rrsets.len() == z.rrsets@.len(),
                kept@.map_values(|r: Rrset| r@) == remove_upto(zv.rrsets, owner@, rtype, j as int),
                forall|a: int, b: int|
                    0 <= a < b < kept@.len() ==> !((#[trigger] kept@[a])@.owner == (
                    #[trigger] kept@[b])@.owner && kept@[a]@.rtype == kept@[b]@.rtype),
                forall|a: int| 0 <= a < kept@.len() ==> rrset_ok((#[trigger] kept@[a])@),
                forall|a: int, k: int|
                    0 <= a < kept@.len() && j <= k < zv.rrsets.len() ==> !((
                    #[trigger] kept@[a])@.owner == (#[trigger] zv.rrsets[k]).owner
                        && kept@[a]@.rtype == zv.rrsets[k].rtype),
            decreases z.rrsets@.len() - j,
        {
            let rr = &z.rrsets[j];
            let matches_remove = rr.rtype == rtype && names::str_eq(rr.owner.as_str(), owner);
            let ghost pre = kept@.map_values(|r: Rrset| r@);
            if !matches_remove {
                kept.push(rr.clone());
                proof {
                    assert(kept@.map_values(|r: Rrset| r@) =~= pre.push(zv.rrsets[j as int]));
                    assert(rrset_ok(zv.rrsets[j as int]));
                }
            }
            j += 1;
        }
        let ghost keptv = kept@.map_values(|r: Rrset| r@);
        proof {
            assert(keptv == remove_upto(zv.rrsets, owner@, rtype, zv.rrsets.len() as int));
        }
        z.rrsets = kept;
        proof {
            assert(z@.rrsets == keptv);
            assert(z@.apex == zv.apex);
            assert(z@ =~= zset(zv, owner@, rtype, ttl, dv));
            // The apex SOA RRset is not the one removed, so it was kept.
            assert(zv.has_rrset(zv.apex, RTYPE_SOA));
            let k = choose|i: int|
                0 <= i < zv.rrsets.len() && zv.rrsets[i].owner == zv.apex && zv.rrsets[i].rtype
                    == RTYPE_SOA;
            assert(zv.rrsets[k].owner == zv.apex && zv.rrsets[k].rtype == RTYPE_SOA);
            assert(!(zv.rrsets[k].owner == owner@ && zv.rrsets[k].rtype == rtype));
            lemma_remove_upto_keeps(zv.rrsets, owner@, rtype, zv.rrsets.len() as int, k);
            let w = choose|a: int|
                0 <= a < remove_upto(zv.rrsets, owner@, rtype, zv.rrsets.len() as int).len() && (
                #[trigger] remove_upto(zv.rrsets, owner@, rtype, zv.rrsets.len() as int)[a])
                    == zv.rrsets[k];
            assert(z@.rrsets[w].owner == z@.apex && z@.rrsets[w].rtype == RTYPE_SOA);
            assert(z@.has_rrset(z@.apex, RTYPE_SOA));
            assert(z@.wf());
        }
    } else {
        let mut i: usize = 0;
        let mut found: Option<usize> = None;
        while i < z.rrsets.len()
            invariant
                *z == *old(z),
                zv == z@,
                zv.wf(),
                0 <= i <= z.rrsets@.len(),
                zv.rrsets.len() == z.rrsets@.len(),
                match found {
                    Some(f) => f < i && zv.rrsets[f as int].owner == owner@ && zv.rrsets[
                        f as int
                    ].rtype == rtype,
                    None => forall|j: int|
                        0 <= j < i ==> !(zv.rrsets[j].owner == owner@ && zv.rrsets[j].rtype
                            == rtype),
                },
            decreases z.rrsets@.len() - i,
        {
            if found.is_none() {
                let rr = &z.rrsets[i];
                if rr.rtype == rtype && names::str_eq(rr.owner.as_str(), owner) {
                    found = Some(i);
                }
            }
            i += 1;
        }
        let replacement = Rrset { owner: owner.to_owned(), rtype, ttl, data };
        let ghost rv = replacement@;
        proof {
            assert(rv =~= (RrsetV { owner: owner@, rtype, ttl, data: dv }));
            assert(rrset_ok(rv));
        }
        match found {
            Some(f) => {
                proof {
                    assert(zv.has_rrset(owner@, rtype));
                }
                z.rrsets.set(f, replacement);
                proof {
                    assert(z@.rrsets =~= zv.rrsets.update(f as int, rv));
                    let c = rrset_idx(zv, owner@, rtype);
                    assert(zv.rrsets[c].owner == owner@ && zv.rrsets[c].rtype == rtype);
                    if c != f {
                        if c < f {
                            assert(!(zv.rrsets[c].owner == zv.rrsets[f as int].owner
                                && zv.rrsets[c].rtype == zv.rrsets[f as int].rtype));
                        } else {
                            assert(!(zv.rrsets[f as int].owner == zv.rrsets[c].owner
                                && zv.rrsets[f as int].rtype == zv.rrsets[c].rtype));
                        }
                    }
                    assert(z@ =~= zset(zv, owner@, rtype, ttl, dv));
                    assert forall|a: int, b: int| 0 <= a < b < z@.rrsets.len() implies !((
                    #[trigger] z@.rrsets[a]).owner == (#[trigger] z@.rrsets[b]).owner
                        && z@.rrsets[a].rtype == z@.rrsets[b].rtype) by {
                        assert(!(zv.rrsets[a].owner == zv.rrsets[b].owner && zv.rrsets[a].rtype
                            == zv.rrsets[b].rtype));
                    }
                    assert forall|a: int| 0 <= a < z@.rrsets.len() implies rrset_ok(
                        #[trigger] z@.rrsets[a],
                    ) by {
                        if a != f {
                            assert(rrset_ok(zv.rrsets[a]));
                        }
                    }
                    assert(z@.has_rrset(z@.apex, RTYPE_SOA)) by {
                        let k = choose|k: int|
                            0 <= k < zv.rrsets.len() && zv.rrsets[k].owner == zv.apex
                                && zv.rrsets[k].rtype == RTYPE_SOA;
                        if k == f {
                            assert(zv.rrsets[f as int].owner == owner@);
                            assert(zv.rrsets[f as int].rtype == rtype);
                            assert(owner@ == zv.apex && rtype == RTYPE_SOA);
                            assert(z@.rrsets[k].owner == zv.apex && z@.rrsets[k].rtype
                                == RTYPE_SOA);
                        } else {
                            assert(z@.rrsets[k].owner == zv.apex && z@.rrsets[k].rtype
                                == RTYPE_SOA);
                        }
                    }
                    assert(z@.wf());
                }
            },
            None => {
                proof {
                    assert(!zv.has_rrset(owner@, rtype)) by {
                        if zv.has_rrset(owner@, rtype) {
                            let a = choose|a: int|
                                0 <= a < zv.rrsets.len() && zv.rrsets[a].owner == owner@
                                    && zv.rrsets[a].rtype == rtype;
                            assert(!(zv.rrsets[a].owner == owner@ && zv.rrsets[a].rtype == rtype));
                        }
                    }
                }
                z.rrsets.push(replacement);
                proof {
                    assert(z@.rrsets =~= zv.rrsets.push(rv));
                    assert(z@ =~= zset(zv, owner@, rtype, ttl, dv));
                    assert forall|a: int, b: int| 0 <= a < b < z@.rrsets.len() implies !((
                    #[trigger] z@.rrsets[a]).owner == (#[trigger] z@.rrsets[b]).owner
                        && z@.rrsets[a].rtype == z@.rrsets[b].rtype) by {
                        if b < zv.rrsets.len() {
                            assert(!(zv.rrsets[a].owner == zv.rrsets[b].owner && zv.rrsets[a].rtype
                                == zv.rrsets[b].rtype));
                        } else {
                            assert(z@.rrsets[b] == rv);
                            if zv.rrsets[a].owner == owner@ && zv.rrsets[a].rtype == rtype {
                                assert(zv.has_rrset(owner@, rtype));
                            }
                        }
                    }
                    assert forall|a: int| 0 <= a < z@.rrsets.len() implies rrset_ok(
                        #[trigger] z@.rrsets[a],
                    ) by {
                        if a < zv.rrsets.len() {
                            assert(rrset_ok(zv.rrsets[a]));
                        }
                    }
                    assert(z@.has_rrset(z@.apex, RTYPE_SOA)) by {
                        let k = choose|k: int|
                            0 <= k < zv.rrsets.len() && zv.rrsets[k].owner == zv.apex
                                && zv.rrsets[k].rtype == RTYPE_SOA;
                        assert(z@.rrsets[k].owner == zv.apex && z@.rrsets[k].rtype == RTYPE_SOA);
                    }
                    assert(z@.wf());
                }
            },
        }
    }
}


/// Removing an absent element changes nothing.
proof fn lemma_remove_first_absent(data: Seq<RdataV>, d: RdataV)
    requires
        forall|q: int| 0 <= q < data.len() ==> data[q] != d,
    ensures
        remove_first(data, d) =~= data,
    decreases data.len(),
{
    if data.len() > 0 {
        assert(data[0] != d);
        assert forall|q: int| 0 <= q < data.drop_first().len() implies data.drop_first()[q]
            != d by {
            assert(data.drop_first()[q] == data[q + 1]);
        }
        lemma_remove_first_absent(data.drop_first(), d);
        assert(remove_first(data, d) == seq![data[0]] + remove_first(data.drop_first(), d));
    }
}

/// Applies a whole update to one zone: validates the records, builds the
/// working list of the owner's RRsets, applies adds and deletes, and
/// commits the deduplicated result. Fails exactly when a record is not
/// acceptable, and then changes nothing.
pub fn apply_update(zone: &Zone, owner: &str, records: &Vec<UpdateRecord>) -> (r: Result<
    Zone,
    Error,
>)
    requires
        zone@.wf(),
    ensures
        r is Ok <==> records_ok(records@.map_values(|x: UpdateRecord| x@)),
        r matches Ok(nz) ==> nz@ == spec_apply_update(
            zone@,
            owner@,
            records@.map_values(|x: UpdateRecord| x@),
        ) && nz@.wf() && nz@.apex == zone@.apex,
        r matches Err(e) ==> e.kind == ErrorKind::DomainZone,
{
    let ghost rv = records@.map_values(|x: UpdateRecord| x@);
    proof {
        assert(rv.len() == records@.len());
    }
    // Validate every record up front: one bad record fails the transaction.
    let mut v: usize = 0;
    while v < records.len()
        invariant
            0 <= v <= records@.len(),
            rv == records@.map_values(|x: UpdateRecord| x@),
            rv.len() == records@.len(),
            forall|j: int| 0 <= j < v ==> record_ok(#[trigger] rv[j]),
        decreases records@.len() - v,
    {
        if !record_ok_exec(&records[v]) {
            proof {
                assert(!record_ok(rv[v as int]));
            }
            return Err(Error::new(ErrorKind::DomainZone));
        }
        v += 1;
    }
    // The working list: the owner's RRsets, in zone order.
    let mut entries: Vec<Rrset> = Vec::new();
    let mut j: usize = 0;
    while j < zone.rrsets.len()
        invariant
            zone@.wf(),
            0 <= j <= zone.rrsets@.len(),
            zone@.rrsets.len() == zone.rrsets@.len(),
            entries@.map_values(|r: Rrset| r@) == owned_upto(zone@.rrsets, owner@, j as int),
            forall|a: int, b: int|
                0 <= a < b < entries@.len() ==> !((#[trigger] entries@[a])@.rtype == (
                #[trigger] entries@[b])@.rtype && entries@[a]@.ttl == entries@[b]@.ttl),
            forall|a: int| 0 <= a < entries@.len() ==> rrset_ok((#[trigger] entries@[a])@),
            forall|a: int, k: int|
                0 <= a < entries@.len() && j <= k < zone@.rrsets.len() && (
                #[trigger] zone@.rrsets[k]).owner == owner@ ==> !((
                #[trigger] entries@[a])@.rtype == zone@.rrsets[k].rtype),
        decreases zone.rrsets@.len() - j,
    {
        let rr = &zone.rrsets[j];
        let ghost pre = entries@.map_values(|r: Rrset| r@);
        if names::str_eq(rr.owner.as_str(), owner) {
            entries.push(rr.clone());
            proof {
                assert(entries@.map_values(|r: Rrset| r@) =~= pre.push(zone@.rrsets[j as int]));
                assert(rrset_ok(zone@.rrsets[j as int]));
                assert forall|a: int, b: int| 0 <= a < b < entries@.len() implies !((
                #[trigger] entries@[a])@.rtype == (#[trigger] entries@[b])@.rtype && entries@[a]@.ttl
                    == entries@[b]@.ttl) by {
                    if b == entries@.len() - 1 {
                        assert(entries@[b]@ == zone@.rrsets[j as int]);
                        assert(entries@[a]@ == pre[a]);
                    }
                }
            }
        }
        j += 1;
    }
    // Apply every record to the working list.
    let mut i: usize = 0;
    while i < records.len()
        invariant
            0 <= i <= records@.len(),
            rv == records@.map_values(|x: UpdateRecord| x@),
            rv.len() == records@.len(),
            records_ok(rv),
            entries@.map_values(|r: Rrset| r@) == apply_upto(
                init_entries(zone@, owner@),
                owner@,
                rv,
                i as int,
            ),
            forall|a: int, b: int|
                0 <= a < b < entries@.len() ==> !((#[trigger] entries@[a])@.rtype == (
                #[trigger] entries@[b])@.rtype && entries@[a]@.ttl == entries@[b]@.ttl),
            forall|a: int, k: int|
                0 <= a < entries@.len() && 0 <= k < (#[trigger] entries@[a])@.data.len() ==> (
                #[trigger] entries@[a]@.data[k]).rtype() == entries@[a]@.rtype,
            forall|a: int|
                0 <= a < entries@.len() && (#[trigger] entries@[a])@.rtype == RTYPE_SOA
                    ==> entries@[a]@.data.len() > 0,
        decreases records@.len() - i,
    {
        let ghost pre = entries@.map_values(|r: Rrset| r@);
        let rec = &records[i];
        proof {
            assert(rv[i as int] == rec@);
            assert(record_ok(rv[i as int]));
        }
        let rec_rtype = rec.rdata.rtype();
        if rec.class == CLASS_IN {
            // Add: find the entry keyed by this type and TTL.
            let mut found: Option<usize> = None;
            let mut m: usize = 0;
            while m < entries.len()
                invariant
                    0 <= m <= entries@.len(),
                    rec_rtype == rec@.rdata.rtype(),
                    pre == entries@.map_values(|r: Rrset| r@),
                    pre.len() == entries@.len(),
                    match found {
                        Some(f) => f < m && pre[f as int].rtype == rec_rtype && pre[f as int].ttl
                            == rec@.ttl,
                        None => forall|a: int|
                            0 <= a < m ==> !(pre[a].rtype == rec_rtype && pre[a].ttl == rec@.ttl),
                    },
                decreases entries@.len() - m,
            {
                if found.is_none() && entries[m].rtype == rec_rtype && entries[m].ttl == rec.ttl {
                    found = Some(m);
                }
                m += 1;
            }
            match found {
                Some(f) => {
                    proof {
                        assert(has_entry(pre, rec@.rdata.rtype(), rec@.ttl));
                    }
                    let mut e = entries[f].clone();
                    e.data.push(rec.rdata.clone());
                    let ghost ev = e@;
                    entries.set(f, e);
                    proof {
                        let c = entry_idx(pre, rec@.rdata.rtype(), rec@.ttl);
                        assert(pre[c].rtype == rec@.rdata.rtype() && pre[c].ttl == rec@.ttl);
                        if c != f {
                            if c < f {
                                assert(!(pre[c].rtype == pre[f as int].rtype && pre[c].ttl
                                    == pre[f as int].ttl));
                            } else {
                                assert(!(pre[f as int].rtype == pre[c].rtype && pre[f as int].ttl
                                    == pre[c].ttl));
                            }
                        }
                        assert(ev.data =~= pre[f as int].data.push(rec@.rdata));
                        assert(ev =~= (RrsetV {
                            owner: pre[f as int].owner,
                            rtype: pre[f as int].rtype,
                            ttl: pre[f as int].ttl,
                            data: pre[f as int].data.push(rec@.rdata),
                        }));
                        assert(entries@.map_values(|r: Rrset| r@) =~= apply_record(
                            pre,
                            owner@,
                            rv[i as int],
                        ));
                    }
                },
                None => {
                    proof {
                        assert(!has_entry(pre, rec@.rdata.rtype(), rec@.ttl)) by {
                            if has_entry(pre, rec@.rdata.rtype(), rec@.ttl) {
                                let a = choose|a: int|
                                    0 <= a < pre.len() && pre[a].rtype == rec@.rdata.rtype()
                                        && pre[a].ttl == rec@.ttl;
                                assert(!(pre[a].rtype == rec_rtype && pre[a].ttl == rec@.ttl));
                            }
                        }
                    }
                    let mut data: Vec<Rdata> = Vec::new();
                    data.push(rec.rdata.clone());
                    let e = Rrset { owner: owner.to_owned(), rtype: rec_rtype, ttl: rec.ttl, data };
                    let ghost ev = e@;
                    entries.push(e);
                    proof {
                        assert(ev.data =~= seq![rec@.rdata]);
                        assert(ev =~= (RrsetV {
                            owner: owner@,
                            rtype: rec@.rdata.rtype(),
                            ttl: rec@.ttl,
                            data: seq![rec@.rdata],
                        }));
                        assert(entries@.map_values(|r: Rrset| r@) =~= apply_record(
                            pre,
                            owner@,
                            rv[i as int],
                        ));
                    }
                },
            }
        } else {
            // Delete: remove the first occurrence of the rdata from every
            // entry of its type.
            let mut m: usize = 0;
            while m < entries.len()
                invariant
                    0 <= m <= entries@.len(),
                    rec_rtype == rec@.rdata.rtype(),
                    rv == records@.map_values(|x: UpdateRecord| x@),
                    rv.len() == records@.len(),
                    0 <= i < records@.len(),
                    rec@ == rv[i as int],
                    pre.len() == entries@.len(),
                    forall|a: int|
                        m <= a < entries@.len() ==> (#[trigger] entries@[a])@ == pre[a],
                    forall|a: int|
                        0 <= a < m ==> (#[trigger] entries@[a])@ == (if pre[a].rtype == rec@.rdata.rtype() {
                            RrsetV {
                                owner: pre[a].owner,
                                rtype: pre[a].rtype,
                                ttl: pre[a].ttl,
                                data: remove_first(pre[a].data, rec@.rdata),
                            }
                        } else {
                            pre[a]
                        }),
                decreases entries@.len() - m,
            {
                if entries[m].rtype == rec_rtype {
                    let e = &entries[m];
                    let mut pos: Option<usize> = None;
                    let mut q: usize = 0;
                    while q < e.data.len()
                        invariant
                            0 <= q <= e.data@.len(),
                            e@.data.len() == e.data@.len(),
                            match pos {
                                Some(pp) => pp < q && e@.data[pp as int] == rec@.rdata && (forall|
                                    t: int,
                                | 0 <= t < pp ==> e@.data[t] != rec@.rdata),
                                None => forall|t: int| 0 <= t < q ==> e@.data[t] != rec@.rdata,
                            },
                        decreases e.data@.len() - q,
                    {
                        if pos.is_none() && rdata_eq(&e.data[q], &rec.rdata) {
                            pos = Some(q);
                        }
                        q += 1;
                    }
                    match pos {
                        Some(pp) => {
                            proof {
                                assert forall|t: int| 0 <= t < pp implies e@.data[t]
                                    != rec@.rdata by {}
                            }
                            let mut e2 = entries[m].clone();
                            let ghost edv = e2@.data;
                            e2.data.remove(pp);
                            let ghost ev = e2@;
                            entries.set(m, e2);
                            proof {
                                lemma_remove_first_at(pre[m as int].data, rec@.rdata, pp as int);
                                assert(ev.data =~= pre[m as int].data.subrange(0, pp as int)
                                    + pre[m as int].data.subrange(
                                    pp as int + 1,
                                    pre[m as int].data.len() as int,
                                ));
                                assert(ev.data =~= remove_first(pre[m as int].data, rec@.rdata));
                                assert(ev =~= (RrsetV {
                                    owner: pre[m as int].owner,
                                    rtype: pre[m as int].rtype,
                                    ttl: pre[m as int].ttl,
                                    data: remove_first(pre[m as int].data, rec@.rdata),
                                }));
                            }
                        },
                        None => {
                            proof {
                                lemma_remove_first_absent(pre[m as int].data, rec@.rdata);
                                assert((entries@[m as int])@ =~= (RrsetV {
                                    owner: pre[m as int].owner,
                                    rtype: pre[m as int].rtype,
                                    ttl: pre[m as int].ttl,
                                    data: remove_first(pre[m as int].data, rec@.rdata),
                                }));
                            }
                        },
                    }
                }
                m += 1;
            }
            proof {
                assert(entries@.map_values(|r: Rrset| r@) =~= apply_record(
                    pre,
                    owner@,
                    rv[i as int],
                ));
            }
        }
        i += 1;
        proof {
            // The working-list side facts survive one record.
            let post = entries@.map_values(|r: Rrset| r@);
            assert(post == apply_record(pre, owner@, rv[i - 1]));
            assert(rv[i - 1].rdata.rtype() == crate::zone::RTYPE_TXT);
            assert forall|a: int, b: int| 0 <= a < b < entries@.len() implies !((
            #[trigger] entries@[a])@.rtype == (#[trigger] entries@[b])@.rtype && entries@[a]@.ttl
                == entries@[b]@.ttl) by {
                if rv[i - 1].class == CLASS_IN {
                    if has_entry(pre, rv[i - 1].rdata.rtype(), rv[i - 1].ttl) {
                        assert(post[a].rtype == pre[a].rtype && post[a].ttl == pre[a].ttl);
                        assert(post[b].rtype == pre[b].rtype && post[b].ttl == pre[b].ttl);
                    } else {
                        if b < pre.len() {
                        } else {
                            assert(post[b].rtype == rv[i - 1].rdata.rtype() && post[b].ttl == rv[i
                                - 1].ttl);
                            if pre[a].rtype == post[b].rtype && pre[a].ttl == post[b].ttl {
                                assert(has_entry(pre, rv[i - 1].rdata.rtype(), rv[i - 1].ttl));
                            }
                        }
                    }
                } else {
                    assert(post[a].rtype == pre[a].rtype && post[a].ttl == pre[a].ttl);
                    assert(post[b].rtype == pre[b].rtype && post[b].ttl == pre[b].ttl);
                }
            }
            assert forall|a: int, k: int|
                0 <= a < entries@.len() && 0 <= k < (#[trigger] entries@[a])@.data.len() implies (
            #[trigger] entries@[a]@.data[k]).rtype() == entries@[a]@.rtype by {
                if rv[i - 1].class == CLASS_IN {
                    if has_entry(pre, rv[i - 1].rdata.rtype(), rv[i - 1].ttl) {
                        let c = entry_idx(pre, rv[i - 1].rdata.rtype(), rv[i - 1].ttl);
                        if a == c {
                            assert(post[a].data == pre[a].data.push(rv[i - 1].rdata));
                            if k < pre[a].data.len() {
                                assert(pre[a].data[k].rtype() == pre[a].rtype);
                            } else {
                                assert(post[a].data[k] == rv[i - 1].rdata);
                                assert(pre[c].rtype == rv[i - 1].rdata.rtype());
                            }
                        } else {
                            assert(post[a] == pre[a]);
                            assert(pre[a].data[k].rtype() == pre[a].rtype);
                        }
                    } else {
                        if a < pre.len() {
                            assert(post[a] == pre[a]);
                            assert(pre[a].data[k].rtype() == pre[a].rtype);
                        } else {
                            assert(post[a].data =~= seq![rv[i - 1].rdata]);
                        }
                    }
                } else {
                    if pre[a].rtype == rv[i - 1].rdata.rtype() {
                        assert(post[a].data == remove_first(pre[a].data, rv[i - 1].rdata));
                        lemma_remove_first_elems(pre[a].data, rv[i - 1].rdata);
                        let t = choose|t: int|
                            0 <= t < pre[a].data.len() && (#[trigger] pre[a].data[t]) == post[
                                a
                            ].data[k];
                        assert(pre[a].data[t].rtype() == pre[a].rtype);
                    } else {
                        assert(post[a] == pre[a]);
                        assert(pre[a].data[k].rtype() == pre[a].rtype);
                    }
                }
            }
            assert forall|a: int|
                0 <= a < entries@.len() && (#[trigger] entries@[a])@.rtype
                    == RTYPE_SOA implies entries@[a]@.data.len() > 0 by {
                if rv[i - 1].class == CLASS_IN {
                    if has_entry(pre, rv[i - 1].rdata.rtype(), rv[i - 1].ttl) {
                        let c = entry_idx(pre, rv[i - 1].rdata.rtype(), rv[i - 1].ttl);
                        if a == c {
                            assert(post[a].data.len() == pre[a].data.len() + 1);
                        } else {
                            assert(post[a] == pre[a]);
                        }
                    } else {
                        if a < pre.len() {
                            assert(post[a] == pre[a]);
                        } else {
                            assert(post[a].rtype == rv[i - 1].rdata.rtype());
                        }
                    }
                } else {
                    if pre[a].rtype == rv[i - 1].rdata.rtype() {
                        assert(post[a].rtype == pre[a].rtype);
                        assert(pre[a].rtype == crate::zone::RTYPE_TXT);
                    } else {
                        assert(post[a] == pre[a]);
                    }
                }
            }
        }
    }
    proof {
        assert(records_ok(rv));
        assert(entries@.map_values(|r: Rrset| r@) == final_entries(zone@, owner@, rv));
    }
    // Commit: replace the owner's RRsets, deduplicating each data list.
    let ghost fe = entries@.map_values(|r: Rrset| r@);
    let mut nz = zone.clone();
    let mut c: usize = 0;
    while c < entries.len()
        invariant
            zone@.wf(),
            0 <= c <= entries@.len(),
            fe == entries@.map_values(|r: Rrset| r@),
            fe.len() == entries@.len(),
            forall|a: int, k: int|
                0 <= a < entries@.len() && 0 <= k < (#[trigger] entries@[a])@.data.len() ==> (
                #[trigger] entries@[a]@.data[k]).rtype() == entries@[a]@.rtype,
            forall|a: int|
                0 <= a < entries@.len() && (#[trigger] entries@[a])@.rtype == RTYPE_SOA
                    ==> entries@[a]@.data.len() > 0,
            nz@ == commit_upto(zone@, owner@, fe, c as int),
            nz@.wf(),
            nz@.apex == zone@.apex,
        decreases entries@.len() - c,
    {
        let e = &entries[c];
        let dd = dedup_data(&e.data);
        proof {
            let ev = fe[c as int];
            lemma_dedup_props(ev.data);
            assert(dd@.map_values(|d: Rdata| d@) == dedup(ev.data));
            assert forall|k: int| 0 <= k < dd@.len() implies (#[trigger] dd@[k])@.rtype()
                == e@.rtype by {
                let ddv = dd@.map_values(|d: Rdata| d@);
                assert(ddv[k] == dd@[k]@);
                assert(ddv.contains(ddv[k]));
                assert(ev.data.contains(ddv[k]));
                let t = choose|t: int| 0 <= t < ev.data.len() && ev.data[t] == ddv[k];
                assert(ev.data[t].rtype() == ev.rtype);
            }
            if owner@ == nz@.apex && e@.rtype == RTYPE_SOA {
                assert(ev.data.len() > 0);
                assert(dedup(ev.data).len() > 0);
            }
        }
        set_rrset(&mut nz, owner, e.rtype, e.ttl, dd);
        c += 1;
    }
    proof {
        assert(nz@ == spec_apply_update(zone@, owner@, rv));
    }
    Ok(nz)
}

/// Every element of a first-occurrence removal is an element of the input.
proof fn lemma_remove_first_elems(data: Seq<RdataV>, d: RdataV)
    ensures
        forall|k: int|
            0 <= k < remove_first(data, d).len() ==> (exists|t: int|
                0 <= t < data.len() && (#[trigger] data[t]) == (#[trigger] remove_first(
                    data,
                    d,
                )[k])),
        remove_first(data, d).len() >= data.len() - 1,
    decreases data.len(),
{
    if data.len() > 0 {
        if data[0] == d {
            assert forall|k: int| 0 <= k < remove_first(data, d).len() implies (exists|t: int|
                0 <= t < data.len() && (#[trigger] data[t]) == (#[trigger] remove_first(
                    data,
                    d,
                )[k])) by {
                assert(remove_first(data, d)[k] == data.drop_first()[k]);
                assert(data[k + 1] == remove_first(data, d)[k]);
            }
        } else {
            lemma_remove_first_elems(data.drop_first(), d);
            assert(remove_first(data, d) == seq![data[0]] + remove_first(data.drop_first(), d));
            assert forall|k: int| 0 <= k < remove_first(data, d).len() implies (exists|t: int|
                0 <= t < data.len() && (#[trigger] data[t]) == (#[trigger] remove_first(
                    data,
                    d,
                )[k])) by {
                if k == 0 {
                    assert(data[0] == remove_first(data, d)[0]);
                } else {
                    let rest = remove_first(data.drop_first(), d);
                    assert(remove_first(data, d)[k] == rest[k - 1]);
                    let t = choose|t: int|
                        0 <= t < data.drop_first().len() && (#[trigger] data.drop_first()[t])
                            == rest[k - 1];
                    assert(data[t + 1] == remove_first(data, d)[k]);
                }
            }
        }
    }
}

/// Why an update was refused.
#[derive(Debug, Clone, Copy, PartialEq, Eq, Structural)]
pub enum UpdateError {
    /// The named zone is not served here.
    NotZone,
    /// A record of the authority section is outside the supported subset.
    Unsupported,
}

/// Processes one update against the tree: locates the zone serving the
/// update's name, applies the records, and commits the new zone in place of
/// the old. On any failure the tree is unchanged.
pub fn handle_update_query(
    zones: &mut ZoneTree,
    qname: &str,
    records: &Vec<UpdateRecord>,
) -> (r: Result<(), UpdateError>)
    requires
        old(zones).wf(),
    ensures
        final(zones).wf(),
        r is Err ==> *final(zones) == *old(zones),
        r matches Err(e) ==> ((e == UpdateError::NotZone) <==> !old(zones).serves(qname@)),
        r is Ok <==> (old(zones).serves(qname@) && records_ok(
            records@.map_values(|x: UpdateRecord| x@),
        )),
        r is Ok ==> final(zones).has_apex(old(zones).best_zone(qname@).apex)
            && final(zones).zone_at(old(zones).best_zone(qname@).apex) == spec_apply_update(
            old(zones).best_zone(qname@),
            qname@,
            records@.map_values(|x: UpdateRecord| x@),
        ),
        r is Ok ==> (forall|a: Seq<char>|
            a != old(zones).best_zone(qname@).apex ==> #[trigger] final(zones).has_apex(a)
                == old(zones).has_apex(a)),
        r is Ok ==> (forall|a: Seq<char>|
            a != old(zones).best_zone(qname@).apex && final(zones).has_apex(a)
                ==> #[trigger] final(zones).zone_at(a) == old(zones).zone_at(a)),
    {
    let zc = match zones.find_zone(qname) {
        None => {
            return Err(UpdateError::NotZone);
        },
        Some(z) => z.clone(),
    };
    proof {
        crate::zone::lemma_found_is_best(*zones, qname@, zc@);
        assert(zc@.wf()) by {
            let a = choose|a: int| 0 <= a < zones@.len() && zones@[a].apex == zc@.apex;
            assert(zones.zone_at(zc@.apex) == zones@[a]);
            assert((zones@[a]).wf());
        }
    }
    let apex = zc.apex.clone();
    let nz = match apply_update(&zc, qname, records) {
        Ok(nz) => nz,
        Err(_) => {
            return Err(UpdateError::Unsupported);
        },
    };
    match zones.update_zone(apex.as_str(), nz) {
        Ok(()) => Ok(()),
        Err(_) => Err(UpdateError::Unsupported),
    }
}


/// Deduplication looks only at the first `i` elements.
proof fn lemma_dedup_upto_prefix(s1: Seq<RdataV>, s2: Seq<RdataV>, i: int)
    requires
        0 <= i <= s1.len(),
        i <= s2.len(),
        s1.subrange(0, i) == s2.subrange(0, i),
    ensures
        dedup_upto(s1, i) == dedup_upto(s2, i),
    decreases i,
{
    if i > 0 {
        assert(s1.subrange(0, i - 1) =~= s2.subrange(0, i - 1)) by {
            assert forall|k: int| 0 <= k < i - 1 implies (#[trigger] s1.subrange(0, i - 1)[k])
                == s2.subrange(0, i - 1)[k] by {
                assert(s1.subrange(0, i)[k] == s2.subrange(0, i)[k]);
            }
        }
        lemma_dedup_upto_prefix(s1, s2, i - 1);
        assert(s1.subrange(0, i)[i - 1] == s1[i - 1]);
        assert(s2.subrange(0, i)[i - 1] == s2[i - 1]);
        assert(s1[i - 1] == s2[i - 1]);
    }
}

/// Appending only elements already present does not change the
/// deduplication.
proof fn lemma_dedup_absorbs(s: Seq<RdataV>, t: Seq<RdataV>)
    requires
        forall|k: int| 0 <= k < t.len() ==> s.contains(#[trigger] t[k]),
    ensures
        dedup(s + t) == dedup(s),
    decreases t.len(),
{
    if t.len() == 0 {
        assert(s + t =~= s);
    } else {
        let shorter = t.drop_last();
        assert forall|k: int| 0 <= k < shorter.len() implies s.contains(#[trigger] shorter[k]) by {
            assert(shorter[k] == t[k]);
        }
        lemma_dedup_absorbs(s, shorter);
        let full = s + t;
        let n = full.len() as int;
        assert(full[n - 1] == t[t.len() - 1]);
        assert(s.contains(full[n - 1]));
        assert(full.subrange(0, n - 1).contains(full[n - 1])) by {
            let k = choose|k: int| 0 <= k < s.len() && s[k] == full[n - 1];
            assert(full.subrange(0, n - 1)[k] == full[n - 1]);
        }
        assert(dedup_upto(full, n) == dedup_upto(full, n - 1));
        assert((s + shorter).subrange(0, n - 1) =~= full.subrange(0, n - 1));
        assert(n - 1 == (s + shorter).len());
        lemma_dedup_upto_prefix(s + shorter, full, n - 1);
        assert(dedup(s + shorter) == dedup_upto(full, n - 1));
    }
}

/// Re-adding rdata a second time changes nothing: the deduplicated data of
/// an RRset to which some additions were applied and committed is a fixed
/// point under applying and committing those same additions again.
pub proof fn lemma_readd_fixed_point(d0: Seq<RdataV>, adds: Seq<RdataV>)
    ensures
        dedup(dedup(d0 + adds) + adds) == dedup(d0 + adds),
{
    let once = dedup(d0 + adds);
    lemma_dedup_props(d0 + adds);
    assert forall|k: int| 0 <= k < adds.len() implies once.contains(#[trigger] adds[k]) by {
        assert((d0 + adds)[d0.len() + k] == adds[k]);
        assert((d0 + adds).contains(adds[k]));
    }
    lemma_dedup_absorbs(once, adds);
    lemma_dedup_of_clean(once, once.len() as int);
    assert(once.subrange(0, once.len() as int) =~= once);
}


/// The elements surviving a removal are exactly the non-matching elements,
/// and they keep their distinct owner-and-type keys.
proof fn lemma_remove_upto_props(rrsets: Seq<RrsetV>, owner: Seq<char>, rtype: u16, i: int)
    requires
        0 <= i <= rrsets.len(),
        forall|a: int, b: int|
            0 <= a < b < rrsets.len() ==> !((#[trigger] rrsets[a]).owner == (
            #[trigger] rrsets[b]).owner && rrsets[a].rtype == rrsets[b].rtype),
    ensures
        forall|b: int|
            0 <= b < remove_upto(rrsets, owner, rtype, i).len() ==> (exists|j: int|
                0 <= j < i && (#[trigger] remove_upto(rrsets, owner, rtype, i)[b]) == rrsets[j]
                    && !(rrsets[j].owner == owner && rrsets[j].rtype == rtype)),
        forall|a: int, b: int|
            0 <= a < b < remove_upto(rrsets, owner, rtype, i).len() ==> !((
            #[trigger] remove_upto(rrsets, owner, rtype, i)[a]).owner == (#[trigger] remove_upto(
                rrsets,
                owner,
                rtype,
                i,
            )[b]).owner && remove_upto(rrsets, owner, rtype, i)[a].rtype == remove_upto(
                rrsets,
                owner,
                rtype,
                i,
            )[b].rtype),
        forall|j: int|
            0 <= j < i && !((#[trigger] rrsets[j]).owner == owner && rrsets[j].rtype == rtype)
                ==> (exists|b: int|
                0 <= b < remove_upto(rrsets, owner, rtype, i).len() && (#[trigger] remove_upto(
                    rrsets,
                    owner,
                    rtype,
                    i,
                )[b]) == rrsets[j]),
    decreases i,
{
    if i > 0 {
        lemma_remove_upto_props(rrsets, owner, rtype, i - 1);
        let prev = remove_upto(rrsets, owner, rtype, i - 1);
        let cur = remove_upto(rrsets, owner, rtype, i);
        if rrsets[i - 1].owner == owner && rrsets[i - 1].rtype == rtype {
            assert(cur == prev);
            assert forall|j: int|
                0 <= j < i && !((#[trigger] rrsets[j]).owner == owner && rrsets[j].rtype
                    == rtype) implies (exists|b: int|
                0 <= b < cur.len() && (#[trigger] cur[b]) == rrsets[j]) by {
                assert(j < i - 1);
            }
        } else {
            assert(cur == prev.push(rrsets[i - 1]));
            assert forall|b: int| 0 <= b < cur.len() implies (exists|j: int|
                0 <= j < i && (#[trigger] cur[b]) == rrsets[j] && !(rrsets[j].owner == owner
                    && rrsets[j].rtype == rtype)) by {
                if b < prev.len() {
                    assert(cur[b] == prev[b]);
                    let j = choose|j: int|
                        0 <= j < i - 1 && (#[trigger] prev[b]) == rrsets[j] && !(rrsets[j].owner
                            == owner && rrsets[j].rtype == rtype);
                    assert(cur[b] == rrsets[j]);
                } else {
                    assert(cur[b] == rrsets[i - 1]);
                }
            }
            assert forall|a: int, b: int| 0 <= a < b < cur.len() implies !((
            #[trigger] cur[a]).owner == (#[trigger] cur[b]).owner && cur[a].rtype
                == cur[b].rtype) by {
                if b == cur.len() - 1 {
                    assert(cur[b] == rrsets[i - 1]);
                    assert(cur[a] == prev[a]);
                    let j = choose|j: int|
                        0 <= j < i - 1 && (#[trigger] prev[a]) == rrsets[j] && !(rrsets[j].owner
                            == owner && rrsets[j].rtype == rtype);
                    assert(!((rrsets[j]).owner == (rrsets[i - 1]).owner && rrsets[j].rtype
                        == rrsets[i - 1].rtype));
                } else {
                    assert(cur[a] == prev[a] && cur[b] == prev[b]);
                }
            }
            assert forall|j: int|
                0 <= j < i && !((#[trigger] rrsets[j]).owner == owner && rrsets[j].rtype
                    == rtype) implies (exists|b: int|
                0 <= b < cur.len() && (#[trigger] cur[b]) == rrsets[j]) by {
                if j < i - 1 {
                    let b = choose|b: int| 0 <= b < prev.len() && (#[trigger] prev[b]) == rrsets[j];
                    assert(cur[b] == rrsets[j]);
                } else {
                    assert(cur[cur.len() - 1] == rrsets[j]);
                }
            }
        }
    }
}

/// The removal case of `lemma_zset_props`.
#[verifier::rlimit(80)]
proof fn lemma_zset_props_remove(z: ZoneV, owner: Seq<char>, rtype: u16, ttl: u32, data: Seq<RdataV>)
    requires
        z.wf(),
        forall|k: int| 0 <= k < data.len() ==> (#[trigger] data[k]).rtype() == rtype,
        data.no_duplicates(),
        (owner == z.apex && rtype == RTYPE_SOA) ==> data.len() > 0,
        data.len() == 0,
    ensures
        zset(z, owner, rtype, ttl, data).apex == z.apex,
        zset(z, owner, rtype, ttl, data).wf(),
        zset(z, owner, rtype, ttl, data).has_rrset(owner, rtype) == (data.len() > 0),
        data.len() > 0 ==> zset(z, owner, rtype, ttl, data).rrset_at(owner, rtype) == (RrsetV {
            owner,
            rtype,
            ttl,
            data,
        }),
        forall|o2: Seq<char>, rt2: u16|
            !(o2 == owner && rt2 == rtype) ==> #[trigger] zset(z, owner, rtype, ttl, data)
                .has_rrset(o2, rt2) == z.has_rrset(o2, rt2),
        forall|o2: Seq<char>, rt2: u16|
            !(o2 == owner && rt2 == rtype) && z.has_rrset(o2, rt2) ==> #[trigger] zset(
                z,
                owner,
                rtype,
                ttl,
                data,
            ).rrset_at(o2, rt2) == z.rrset_at(o2, rt2),
{
    let zs = zset(z, owner, rtype, ttl, data);

        let n = z.rrsets.len() as int;
        lemma_remove_upto_props(z.rrsets, owner, rtype, n);
        let kept = remove_upto(z.rrsets, owner, rtype, n);
        assert(zs.rrsets == kept);
        assert(!zs.has_rrset(owner, rtype)) by {
            if zs.has_rrset(owner, rtype) {
                let b = choose|b: int|
                    0 <= b < kept.len() && kept[b].owner == owner && kept[b].rtype == rtype;
                let j = choose|j: int|
                    0 <= j < n && (#[trigger] kept[b]) == z.rrsets[j] && !(z.rrsets[j].owner
                        == owner && z.rrsets[j].rtype == rtype);
            }
        }
        assert forall|o2: Seq<char>, rt2: u16|
            !(o2 == owner && rt2 == rtype) implies #[trigger] zs.has_rrset(o2, rt2)
            == z.has_rrset(o2, rt2) by {
            if zs.has_rrset(o2, rt2) {
                let b = choose|b: int|
                    0 <= b < kept.len() && kept[b].owner == o2 && kept[b].rtype == rt2;
                let j = choose|j: int|
                    0 <= j < n && (#[trigger] kept[b]) == z.rrsets[j] && !(z.rrsets[j].owner
                        == owner && z.rrsets[j].rtype == rtype);
                assert(z.rrsets[j].owner == o2 && z.rrsets[j].rtype == rt2);
                assert(z.has_rrset(o2, rt2));
            }
            if z.has_rrset(o2, rt2) {
                let j = choose|j: int|
                    0 <= j < n && z.rrsets[j].owner == o2 && z.rrsets[j].rtype == rt2;
                assert(!((z.rrsets[j]).owner == owner && z.rrsets[j].rtype == rtype));
                let b = choose|b: int| 0 <= b < kept.len() && (#[trigger] kept[b]) == z.rrsets[j];
                assert(kept[b].owner == o2 && kept[b].rtype == rt2);
                assert(zs.has_rrset(o2, rt2));
            }
        }
        assert forall|o2: Seq<char>, rt2: u16|
            !(o2 == owner && rt2 == rtype) && z.has_rrset(o2, rt2) implies #[trigger] zs.rrset_at(
            o2,
            rt2,
        ) == z.rrset_at(o2, rt2) by {
            assert(zs.has_rrset(o2, rt2));
            let b = choose|b: int|
                0 <= b < zs.rrsets.len() && zs.rrsets[b].owner == o2 && zs.rrsets[b].rtype == rt2;
            assert(zs.rrset_at(o2, rt2) == zs.rrsets[b]);
            let j = choose|j: int|
                0 <= j < n && (#[trigger] kept[b]) == z.rrsets[j] && !(z.rrsets[j].owner == owner
                    && z.rrsets[j].rtype == rtype);
            let c = choose|c: int|
                0 <= c < z.rrsets.len() && z.rrsets[c].owner == o2 && z.rrsets[c].rtype == rt2;
            assert(z.rrset_at(o2, rt2) == z.rrsets[c]);
            if j != c {
                if j < c {
                    assert(!((z.rrsets[j]).owner == (z.rrsets[c]).owner && z.rrsets[j].rtype
                        == z.rrsets[c].rtype));
                } else {
                    assert(!((z.rrsets[c]).owner == (z.rrsets[j]).owner && z.rrsets[c].rtype
                        == z.rrsets[j].rtype));
                }
            }
        }
        assert(zs.wf()) by {
            assert(zs.has_rrset(zs.apex, RTYPE_SOA)) by {
                assert(!(z.apex == owner && RTYPE_SOA == rtype));
                assert(z.has_rrset(z.apex, RTYPE_SOA));
                assert(zs.has_rrset(z.apex, RTYPE_SOA));
            }
            assert forall|b: int| 0 <= b < zs.rrsets.len() implies (#[trigger] zs.rrsets[b]).data.len()
                > 0 && zs.rrsets[b].data.no_duplicates() && (forall|k: int|
                0 <= k < zs.rrsets[b].data.len() ==> (#[trigger] zs.rrsets[b].data[k]).rtype()
                    == zs.rrsets[b].rtype) by {
                let j = choose|j: int|
                    0 <= j < n && (#[trigger] kept[b]) == z.rrsets[j] && !(z.rrsets[j].owner
                        == owner && z.rrsets[j].rtype == rtype);
                assert(z.rrsets[j].data.len() > 0);
                assert((z.rrsets[j]).data.no_duplicates());
                assert forall|k: int|
                    0 <= k < zs.rrsets[b].data.len() implies (#[trigger] zs.rrsets[b].data[
                    k]).rtype() == zs.rrsets[b].rtype by {
                    assert((z.rrsets[j]).data[k].rtype() == z.rrsets[j].rtype);
                }
            }
        }
    }

/// The replacement case of `lemma_zset_props`.
#[verifier::rlimit(80)]
proof fn lemma_zset_props_update(z: ZoneV, owner: Seq<char>, rtype: u16, ttl: u32, data: Seq<RdataV>)
    requires
        z.wf(),
        forall|k: int| 0 <= k < data.len() ==> (#[trigger] data[k]).rtype() == rtype,
        data.no_duplicates(),
        (owner == z.apex && rtype == RTYPE_SOA) ==> data.len() > 0,
        data.len() > 0,
        z.has_rrset(owner, rtype),
    ensures
        zset(z, owner, rtype, ttl, data).apex == z.apex,
        zset(z, owner, rtype, ttl, data).wf(),
        zset(z, owner, rtype, ttl, data).has_rrset(owner, rtype) == (data.len() > 0),
        data.len() > 0 ==> zset(z, owner, rtype, ttl, data).rrset_at(owner, rtype) == (RrsetV {
            owner,
            rtype,
            ttl,
            data,
        }),
        forall|o2: Seq<char>, rt2: u16|
            !(o2 == owner && rt2 == rtype) ==> #[trigger] zset(z, owner, rtype, ttl, data)
                .has_rrset(o2, rt2) == z.has_rrset(o2, rt2),
        forall|o2: Seq<char>, rt2: u16|
            !(o2 == owner && rt2 == rtype) && z.has_rrset(o2, rt2) ==> #[trigger] zset(
                z,
                owner,
                rtype,
                ttl,
                data,
            ).rrset_at(o2, rt2) == z.rrset_at(o2, rt2),
{
    let zs = zset(z, owner, rtype, ttl, data);

        let c = rrset_idx(z, owner, rtype);
        assert(z.rrsets[c].owner == owner && z.rrsets[c].rtype == rtype);
        let nv = RrsetV { owner, rtype, ttl, data };
        assert(zs.rrsets == z.rrsets.update(c, nv));
        assert forall|a: int| 0 <= a < zs.rrsets.len() implies zs.rrsets[a] == (if a == c {
            nv
        } else {
            z.rrsets[a]
        }) by {}
        assert(zs.has_rrset(owner, rtype)) by {
            assert(zs.rrsets[c].owner == owner && zs.rrsets[c].rtype == rtype);
        }
        assert(zs.rrset_at(owner, rtype) == nv) by {
            let b = choose|b: int|
                0 <= b < zs.rrsets.len() && zs.rrsets[b].owner == owner && zs.rrsets[b].rtype
                    == rtype;
            if b != c {
                if b < c {
                    assert(!((z.rrsets[b]).owner == (z.rrsets[c]).owner && z.rrsets[b].rtype
                        == z.rrsets[c].rtype));
                } else {
                    assert(!((z.rrsets[c]).owner == (z.rrsets[b]).owner && z.rrsets[c].rtype
                        == z.rrsets[b].rtype));
                }
            }
        }
        assert forall|o2: Seq<char>, rt2: u16|
            !(o2 == owner && rt2 == rtype) implies #[trigger] zs.has_rrset(o2, rt2)
            == z.has_rrset(o2, rt2) by {
            if zs.has_rrset(o2, rt2) {
                let b = choose|b: int|
                    0 <= b < zs.rrsets.len() && zs.rrsets[b].owner == o2 && zs.rrsets[b].rtype
                        == rt2;
                assert(b != c);
                assert(z.rrsets[b].owner == o2 && z.rrsets[b].rtype == rt2);
            }
            if z.has_rrset(o2, rt2) {
                let b = choose|b: int|
                    0 <= b < z.rrsets.len() && z.rrsets[b].owner == o2 && z.rrsets[b].rtype == rt2;
                assert(b != c);
                assert(zs.rrsets[b].owner == o2 && zs.rrsets[b].rtype == rt2);
            }
        }
        assert forall|o2: Seq<char>, rt2: u16|
            !(o2 == owner && rt2 == rtype) && z.has_rrset(o2, rt2) implies #[trigger] zs.rrset_at(
            o2,
            rt2,
        ) == z.rrset_at(o2, rt2) by {
            assert(zs.has_rrset(o2, rt2));
            let b = choose|b: int|
                0 <= b < zs.rrsets.len() && zs.rrsets[b].owner == o2 && zs.rrsets[b].rtype == rt2;
            assert(zs.rrset_at(o2, rt2) == zs.rrsets[b]);
            assert(b != c);
            let d = choose|d: int|
                0 <= d < z.rrsets.len() && z.rrsets[d].owner == o2 && z.rrsets[d].rtype == rt2;
            assert(z.rrset_at(o2, rt2) == z.rrsets[d]);
            if b != d {
                if b < d {
                    assert(!((z.rrsets[b]).owner == (z.rrsets[d]).owner && z.rrsets[b].rtype
                        == z.rrsets[d].rtype));
                } else {
                    assert(!((z.rrsets[d]).owner == (z.rrsets[b]).owner && z.rrsets[d].rtype
                        == z.rrsets[b].rtype));
                }
            }
        }
        assert(zs.wf()) by {
            assert forall|a: int, b: int| 0 <= a < b < zs.rrsets.len() implies !((
            #[trigger] zs.rrsets[a]).owner == (#[trigger] zs.rrsets[b]).owner && zs.rrsets[a].rtype
                == zs.rrsets[b].rtype) by {
                assert(!((z.rrsets[a]).owner == (z.rrsets[b]).owner && z.rrsets[a].rtype
                    == z.rrsets[b].rtype));
            }
            assert(zs.has_rrset(zs.apex, RTYPE_SOA)) by {
                if z.apex == owner && RTYPE_SOA == rtype {
                    assert(zs.rrsets[c].owner == z.apex && zs.rrsets[c].rtype == RTYPE_SOA);
                } else {
                    assert(z.has_rrset(z.apex, RTYPE_SOA));
                    assert(zs.has_rrset(z.apex, RTYPE_SOA));
                }
            }
            assert forall|b: int| 0 <= b < zs.rrsets.len() implies (#[trigger] zs.rrsets[b]).data.len()
                > 0 && zs.rrsets[b].data.no_duplicates() && (forall|k: int|
                0 <= k < zs.rrsets[b].data.len() ==> (#[trigger] zs.rrsets[b].data[k]).rtype()
                    == zs.rrsets[b].rtype) by {
                if b != c {
                    assert(z.rrsets[b].data.len() > 0);
                    assert((z.rrsets[b]).data.no_duplicates());
                    assert forall|k: int|
                        0 <= k < zs.rrsets[b].data.len() implies (#[trigger] zs.rrsets[b].data[
                    k]).rtype() == zs.rrsets[b].rtype by {
                        assert((z.rrsets[b]).data[k].rtype() == z.rrsets[b].rtype);
                    }
                }
            }
        }
    }

/// The insertion case of `lemma_zset_props`.
#[verifier::rlimit(80)]
proof fn lemma_zset_props_push(z: ZoneV, owner: Seq<char>, rtype: u16, ttl: u32, data: Seq<RdataV>)
    requires
        z.wf(),
        forall|k: int| 0 <= k < data.len() ==> (#[trigger] data[k]).rtype() == rtype,
        data.no_duplicates(),
        (owner == z.apex && rtype == RTYPE_SOA) ==> data.len() > 0,
        data.len() > 0,
        !z.has_rrset(owner, rtype),
    ensures
        zset(z, owner, rtype, ttl, data).apex == z.apex,
        zset(z, owner, rtype, ttl, data).wf(),
        zset(z, owner, rtype, ttl, data).has_rrset(owner, rtype) == (data.len() > 0),
        data.len() > 0 ==> zset(z, owner, rtype, ttl, data).rrset_at(owner, rtype) == (RrsetV {
            owner,
            rtype,
            ttl,
            data,
        }),
        forall|o2: Seq<char>, rt2: u16|
            !(o2 == owner && rt2 == rtype) ==> #[trigger] zset(z, owner, rtype, ttl, data)
                .has_rrset(o2, rt2) == z.has_rrset(o2, rt2),
        forall|o2: Seq<char>, rt2: u16|
            !(o2 == owner && rt2 == rtype) && z.has_rrset(o2, rt2) ==> #[trigger] zset(
                z,
                owner,
                rtype,
                ttl,
                data,
            ).rrset_at(o2, rt2) == z.rrset_at(o2, rt2),
{
    let zs = zset(z, owner, rtype, ttl, data);

        let nv = RrsetV { owner, rtype, ttl, data };
        assert(zs.rrsets == z.rrsets.push(nv));
        let n = z.rrsets.len() as int;
        assert(zs.rrsets[n] == nv);
        assert(zs.has_rrset(owner, rtype)) by {
            assert(zs.rrsets[n].owner == owner && zs.rrsets[n].rtype == rtype);
        }
        assert forall|a: int| 0 <= a < n implies zs.rrsets[a] == z.rrsets[a] by {}
        assert(zs.rrset_at(owner, rtype) == nv) by {
            let b = choose|b: int|
                0 <= b < zs.rrsets.len() && zs.rrsets[b].owner == owner && zs.rrsets[b].rtype
                    == rtype;
            if b < n {
                assert(z.rrsets[b].owner == owner && z.rrsets[b].rtype == rtype);
                assert(z.has_rrset(owner, rtype));
            }
        }
        assert forall|o2: Seq<char>, rt2: u16|
            !(o2 == owner && rt2 == rtype) implies #[trigger] zs.has_rrset(o2, rt2)
            == z.has_rrset(o2, rt2) by {
            if zs.has_rrset(o2, rt2) {
                let b = choose|b: int|
                    0 <= b < zs.rrsets.len() && zs.rrsets[b].owner == o2 && zs.rrsets[b].rtype
                        == rt2;
                assert(b < n);
                assert(z.rrsets[b].owner == o2 && z.rrsets[b].rtype == rt2);
            }
            if z.has_rrset(o2, rt2) {
                let b = choose|b: int|
                    0 <= b < z.rrsets.len() && z.rrsets[b].owner == o2 && z.rrsets[b].rtype == rt2;
                assert(zs.rrsets[b].owner == o2 && zs.rrsets[b].rtype == rt2);
            }
        }
        assert forall|o2: Seq<char>, rt2: u16|
            !(o2 == owner && rt2 == rtype) && z.has_rrset(o2, rt2) implies #[trigger] zs.rrset_at(
            o2,
            rt2,
        ) == z.rrset_at(o2, rt2) by {
            assert(zs.has_rrset(o2, rt2));
            let b = choose|b: int|
                0 <= b < zs.rrsets.len() && zs.rrsets[b].owner == o2 && zs.rrsets[b].rtype == rt2;
            assert(zs.rrset_at(o2, rt2) == zs.rrsets[b]);
            assert(b < n);
            let d = choose|d: int|
                0 <= d < z.rrsets.len() && z.rrsets[d].owner == o2 && z.rrsets[d].rtype == rt2;
            assert(z.rrset_at(o2, rt2) == z.rrsets[d]);
            if b != d {
                if b < d {
                    assert(!((z.rrsets[b]).owner == (z.rrsets[d]).owner && z.rrsets[b].rtype
                        == z.rrsets[d].rtype));
                } else {
                    assert(!((z.rrsets[d]).owner == (z.rrsets[b]).owner && z.rrsets[d].rtype
                        == z.rrsets[b].rtype));
                }
            }
        }
        assert(zs.wf()) by {
            assert forall|a: int, b: int| 0 <= a < b < zs.rrsets.len() implies !((
            #[trigger] zs.rrsets[a]).owner == (#[trigger] zs.rrsets[b]).owner && zs.rrsets[a].rtype
                == zs.rrsets[b].rtype) by {
                if b < n {
                    assert(!((z.rrsets[a]).owner == (z.rrsets[b]).owner && z.rrsets[a].rtype
                        == z.rrsets[b].rtype));
                } else {
                    assert(zs.rrsets[b] == nv);
                    if z.rrsets[a].owner == owner && z.rrsets[a].rtype == rtype {
                        assert(z.has_rrset(owner, rtype));
                    }
                }
            }
            assert(zs.has_rrset(zs.apex, RTYPE_SOA)) by {
                if z.apex == owner && RTYPE_SOA == rtype {
                    assert(zs.rrsets[n].owner == z.apex && zs.rrsets[n].rtype == RTYPE_SOA);
                } else {
                    assert(z.has_rrset(z.apex, RTYPE_SOA));
                    assert(zs.has_rrset(z.apex, RTYPE_SOA));
                }
            }
            assert forall|b: int| 0 <= b < zs.rrsets.len() implies (#[trigger] zs.rrsets[b]).data.len()
                > 0 && zs.rrsets[b].data.no_duplicates() && (forall|k: int|
                0 <= k < zs.rrsets[b].data.len() ==> (#[trigger] zs.rrsets[b].data[k]).rtype()
                    == zs.rrsets[b].rtype) by {
                if b < n {
                    assert(z.rrsets[b].data.len() > 0);
                    assert((z.rrsets[b]).data.no_duplicates());
                    assert forall|k: int|
                        0 <= k < zs.rrsets[b].data.len() implies (#[trigger] zs.rrsets[b].data[
                    k]).rtype() == zs.rrsets[b].rtype by {
                        assert((z.rrsets[b]).data[k].rtype() == z.rrsets[b].rtype);
                    }
                }
            }
        }
  
}

/// What replacing one RRset does to a well-formed zone: the named RRset is
/// now the given one (or gone, on empty data), every other RRset is
/// untouched, and the zone stays well-formed.
proof fn lemma_zset_props(z: ZoneV, owner: Seq<char>, rtype: u16, ttl: u32, data: Seq<RdataV>)
    requires
        z.wf(),
        forall|k: int| 0 <= k < data.len() ==> (#[trigger] data[k]).rtype() == rtype,
        data.no_duplicates(),
        (owner == z.apex && rtype == RTYPE_SOA) ==> data.len() > 0,
    ensures
        zset(z, owner, rtype, ttl, data).apex == z.apex,
        zset(z, owner, rtype, ttl, data).wf(),
        zset(z, owner, rtype, ttl, data).has_rrset(owner, rtype) == (data.len() > 0),
        data.len() > 0 ==> zset(z, owner, rtype, ttl, data).rrset_at(owner, rtype) == (RrsetV {
            owner,
            rtype,
            ttl,
            data,
        }),
        forall|o2: Seq<char>, rt2: u16|
            !(o2 == owner && rt2 == rtype) ==> #[trigger] zset(z, owner, rtype, ttl, data)
                .has_rrset(o2, rt2) == z.has_rrset(o2, rt2),
        forall|o2: Seq<char>, rt2: u16|
            !(o2 == owner && rt2 == rtype) && z.has_rrset(o2, rt2) ==> #[trigger] zset(
                z,
                owner,
                rtype,
                ttl,
                data,
            ).rrset_at(o2, rt2) == z.rrset_at(o2, rt2),
{
    if data.len() == 0 {
        lemma_zset_props_remove(z, owner, rtype, ttl, data);
    } else if z.has_rrset(owner, rtype) {
        lemma_zset_props_update(z, owner, rtype, ttl, data);
    } else {
        lemma_zset_props_push(z, owner, rtype, ttl, data);
    }
}


/// The largest index below `k` holding an entry of the given type, or -1.
pub open spec fn last_of_rtype(entries: Seq<RrsetV>, rt: u16, k: int) -> int
    decreases k,
{
    if k <= 0 {
        -1
    } else if entries[k - 1].rtype == rt {
        k - 1
    } else {
        last_of_rtype(entries, rt, k - 1)
    }
}

/// What one working-list entry must satisfy for the commit to keep the
/// zone invariant.
pub open spec fn entry_commit_ok(apex: Seq<char>, owner: Seq<char>, e: RrsetV) -> bool {
    (forall|d: int| 0 <= d < e.data.len() ==> (#[trigger] e.data[d]).rtype() == e.rtype) && ((
    owner == apex && e.rtype == RTYPE_SOA) ==> e.data.len() > 0)
}

/// What committing the first `k` entries leaves in the zone: at the owner,
/// each record type holds the deduplicated data of its last entry (or is
/// gone when that deduplicates to nothing, or is untouched when no entry
/// has the type); every other owner is untouched; the zone stays
/// well-formed.
#[verifier::rlimit(80)]
proof fn lemma_commit_props(z: ZoneV, owner: Seq<char>, entries: Seq<RrsetV>, k: int)
    requires
        z.wf(),
        0 <= k <= entries.len(),
        forall|a: int|
            0 <= a < entries.len() ==> entry_commit_ok(z.apex, owner, #[trigger] entries[a]),
    ensures
        commit_upto(z, owner, entries, k).apex == z.apex,
        commit_upto(z, owner, entries, k).wf(),
        forall|rt: u16|
            last_of_rtype(entries, rt, k) < 0 ==> (#[trigger] commit_upto(
                z,
                owner,
                entries,
                k,
            ).has_rrset(owner, rt) == z.has_rrset(owner, rt) && (z.has_rrset(owner, rt)
                ==> commit_upto(z, owner, entries, k).rrset_at(owner, rt) == z.rrset_at(
                owner,
                rt,
            ))),
        forall|rt: u16|
            last_of_rtype(entries, rt, k) >= 0 ==> (#[trigger] commit_upto(
                z,
                owner,
                entries,
                k,
            ).has_rrset(owner, rt) == (dedup(entries[last_of_rtype(entries, rt, k)].data).len()
                > 0) && (dedup(entries[last_of_rtype(entries, rt, k)].data).len() > 0
                ==> commit_upto(z, owner, entries, k).rrset_at(owner, rt) == (RrsetV {
                owner,
                rtype: rt,
                ttl: entries[last_of_rtype(entries, rt, k)].ttl,
                data: dedup(entries[last_of_rtype(entries, rt, k)].data),
            }))),
        forall|o2: Seq<char>, rt2: u16|
            o2 != owner ==> (#[trigger] commit_upto(z, owner, entries, k).has_rrset(o2, rt2)
                == z.has_rrset(o2, rt2) && (z.has_rrset(o2, rt2) ==> commit_upto(
                z,
                owner,
                entries,
                k,
            ).rrset_at(o2, rt2) == z.rrset_at(o2, rt2))),
    decreases k,
{
    if k > 0 {
        lemma_commit_props(z, owner, entries, k - 1);
        let prev = commit_upto(z, owner, entries, k - 1);
        let e = entries[k - 1];
        let dd = dedup(e.data);
        let cur = commit_upto(z, owner, entries, k);
        assert(cur == zset(prev, owner, e.rtype, e.ttl, dd));
        lemma_dedup_props(e.data);
        assert(entry_commit_ok(z.apex, owner, e));
        assert forall|d: int| 0 <= d < dd.len() implies (#[trigger] dd[d]).rtype()
            == e.rtype by {
            assert(dd.contains(dd[d]));
            assert(e.data.contains(dd[d]));
            let j = choose|j: int| 0 <= j < e.data.len() && e.data[j] == dd[d];
            assert(e.data[j].rtype() == e.rtype);
        }
        if owner == prev.apex && e.rtype == RTYPE_SOA {
            assert(e.data.len() > 0);
        }
        lemma_zset_props(prev, owner, e.rtype, e.ttl, dd);
        assert forall|rt: u16| last_of_rtype(entries, rt, k) < 0 implies (#[trigger] cur.has_rrset(
            owner,
            rt,
        ) == z.has_rrset(owner, rt) && (z.has_rrset(owner, rt) ==> cur.rrset_at(owner, rt)
            == z.rrset_at(owner, rt))) by {
            assert(rt != e.rtype);
            assert(last_of_rtype(entries, rt, k - 1) < 0);
            assert(prev.has_rrset(owner, rt) == z.has_rrset(owner, rt));
        }
        assert forall|rt: u16| last_of_rtype(entries, rt, k) >= 0 implies (#[trigger] cur
            .has_rrset(owner, rt) == (dedup(entries[last_of_rtype(entries, rt, k)].data).len()
            > 0) && (dedup(entries[last_of_rtype(entries, rt, k)].data).len() > 0
            ==> cur.rrset_at(owner, rt) == (RrsetV {
            owner,
            rtype: rt,
            ttl: entries[last_of_rtype(entries, rt, k)].ttl,
            data: dedup(entries[last_of_rtype(entries, rt, k)].data),
        }))) by {
            if rt == e.rtype {
                assert(last_of_rtype(entries, rt, k) == k - 1);
            } else {
                assert(last_of_rtype(entries, rt, k) == last_of_rtype(entries, rt, k - 1));
                assert(cur.has_rrset(owner, rt) == prev.has_rrset(owner, rt));
                if prev.has_rrset(owner, rt) {
                    assert(cur.rrset_at(owner, rt) == prev.rrset_at(owner, rt));
                }
            }
        }
        assert forall|o2: Seq<char>, rt2: u16| o2 != owner implies (#[trigger] cur.has_rrset(
            o2,
            rt2,
        ) == z.has_rrset(o2, rt2) && (z.has_rrset(o2, rt2) ==> cur.rrset_at(o2, rt2)
            == z.rrset_at(o2, rt2))) by {
            assert(cur.has_rrset(o2, rt2) == prev.has_rrset(o2, rt2));
            assert(prev.has_rrset(o2, rt2) == z.has_rrset(o2, rt2));
            if z.has_rrset(o2, rt2) {
                assert(cur.rrset_at(o2, rt2) == prev.rrset_at(o2, rt2));
            }
        }
    }
}


/// The initial working list holds exactly the owner's RRsets: each element
/// is one of them, every one of them appears, and no record type repeats.
proof fn lemma_owned_upto_props(rrsets: Seq<RrsetV>, owner: Seq<char>, i: int)
    requires
        0 <= i <= rrsets.len(),
        forall|a: int, b: int|
            0 <= a < b < rrsets.len() ==> !((#[trigger] rrsets[a]).owner == (
            #[trigger] rrsets[b]).owner && rrsets[a].rtype == rrsets[b].rtype),
    ensures
        forall|a: int|
            0 <= a < owned_upto(rrsets, owner, i).len() ==> (exists|j: int|
                0 <= j < i && (#[trigger] owned_upto(rrsets, owner, i)[a]) == rrsets[j]
                    && rrsets[j].owner == owner),
        forall|a: int, b: int|
            0 <= a < b < owned_upto(rrsets, owner, i).len() ==> (#[trigger] owned_upto(
                rrsets,
                owner,
                i,
            )[a]).rtype != (#[trigger] owned_upto(rrsets, owner, i)[b]).rtype,
        forall|j: int|
            0 <= j < i && (#[trigger] rrsets[j]).owner == owner ==> (exists|a: int|
                0 <= a < owned_upto(rrsets, owner, i).len() && (#[trigger] owned_upto(
                    rrsets,
                    owner,
                    i,
                )[a]) == rrsets[j]),
    decreases i,
{
    if i > 0 {
        lemma_owned_upto_props(rrsets, owner, i - 1);
        let prev = owned_upto(rrsets, owner, i - 1);
        let cur = owned_upto(rrsets, owner, i);
        if rrsets[i - 1].owner == owner {
            assert(cur == prev.push(rrsets[i - 1]));
            assert forall|a: int| 0 <= a < cur.len() implies (exists|j: int|
                0 <= j < i && (#[trigger] cur[a]) == rrsets[j] && rrsets[j].owner == owner) by {
                if a < prev.len() {
                    assert(cur[a] == prev[a]);
                    let j = choose|j: int|
                        0 <= j < i - 1 && (#[trigger] prev[a]) == rrsets[j] && rrsets[j].owner
                            == owner;
                    assert(cur[a] == rrsets[j]);
                } else {
                    assert(cur[a] == rrsets[i - 1]);
                }
            }
            assert forall|a: int, b: int| 0 <= a < b < cur.len() implies (
            #[trigger] cur[a]).rtype != (#[trigger] cur[b]).rtype by {
                if b == cur.len() - 1 {
                    assert(cur[b] == rrsets[i - 1]);
                    assert(cur[a] == prev[a]);
                    let j = choose|j: int|
                        0 <= j < i - 1 && (#[trigger] prev[a]) == rrsets[j] && rrsets[j].owner
                            == owner;
                    assert(!((rrsets[j]).owner == (rrsets[i - 1]).owner && rrsets[j].rtype
                        == rrsets[i - 1].rtype));
                } else {
                    assert(cur[a] == prev[a] && cur[b] == prev[b]);
                }
            }
            assert forall|j: int|
                0 <= j < i && (#[trigger] rrsets[j]).owner == owner implies (exists|a: int|
                0 <= a < cur.len() && (#[trigger] cur[a]) == rrsets[j]) by {
                if j < i - 1 {
                    let a = choose|a: int| 0 <= a < prev.len() && (#[trigger] prev[a]) == rrsets[j];
                    assert(cur[a] == rrsets[j]);
                } else {
                    assert(cur[cur.len() - 1] == rrsets[j]);
                }
            }
        } else {
            assert(cur == prev);
            assert forall|j: int|
                0 <= j < i && (#[trigger] rrsets[j]).owner == owner implies (exists|a: int|
                0 <= a < cur.len() && (#[trigger] cur[a]) == rrsets[j]) by {
                assert(j < i - 1);
            }
        }
    }
}

/// Where an entry's type occurs exactly once, the last occurrence is that
/// one place.
proof fn lemma_last_unique(entries: Seq<RrsetV>, rt: u16, k: int, i: int)
    requires
        0 <= i < k <= entries.len(),
        entries[i].rtype == rt,
        forall|j: int| 0 <= j < k && j != i ==> (#[trigger] entries[j]).rtype != rt,
    ensures
        last_of_rtype(entries, rt, k) == i,
    decreases k,
{
    if k - 1 > i {
        lemma_last_unique(entries, rt, k - 1, i);
    }
}


/// The rdata values of the first `k` records, in order.
pub open spec fn adds_seq(recs: Seq<UpdateRecordV>, k: int) -> Seq<RdataV>
    decreases k,
{
    if k <= 0 {
        Seq::empty()
    } else {
        adds_seq(recs, k - 1).push(recs[k - 1].rdata)
    }
}

/// Whether every record is a nonempty TXT add at the single TTL `t`.
pub open spec fn adds_at(recs: Seq<UpdateRecordV>, t: u32) -> bool {
    forall|i: int|
        0 <= i < recs.len() ==> (#[trigger] recs[i]).class == CLASS_IN && recs[i].ttl == t
            && txt_nonempty(recs[i].rdata)
}

/// What applying add records of one type and TTL does to the working
/// list: they accumulate in the matching entry, or in one new entry when
/// none matches.
proof fn lemma_apply_adds(
    init: Seq<RrsetV>,
    owner: Seq<char>,
    recs: Seq<UpdateRecordV>,
    t: u32,
    k: int,
)
    requires
        adds_at(recs, t),
        0 <= k <= recs.len(),
        forall|a: int, b: int|
            0 <= a < b < init.len() ==> (#[trigger] init[a]).rtype != (#[trigger] init[b]).rtype,
    ensures
        has_entry(init, RTYPE_TXT, t) ==> apply_upto(init, owner, recs, k) == init.update(
            entry_idx(init, RTYPE_TXT, t),
            RrsetV {
                owner: init[entry_idx(init, RTYPE_TXT, t)].owner,
                rtype: init[entry_idx(init, RTYPE_TXT, t)].rtype,
                ttl: init[entry_idx(init, RTYPE_TXT, t)].ttl,
                data: init[entry_idx(init, RTYPE_TXT, t)].data + adds_seq(recs, k),
            },
        ),
        !has_entry(init, RTYPE_TXT, t) && k == 0 ==> apply_upto(init, owner, recs, k) == init,
        !has_entry(init, RTYPE_TXT, t) && k > 0 ==> apply_upto(init, owner, recs, k) == init.push(
            RrsetV { owner, rtype: RTYPE_TXT, ttl: t, data: adds_seq(recs, k) },
        ),
    decreases k,
{
    if k == 0 {
        if has_entry(init, RTYPE_TXT, t) {
            let c = entry_idx(init, RTYPE_TXT, t);
            assert(init[c].data + adds_seq(recs, 0) =~= init[c].data);
            assert(init.update(
                c,
                RrsetV {
                    owner: init[c].owner,
                    rtype: init[c].rtype,
                    ttl: init[c].ttl,
                    data: init[c].data,
                },
            ) =~= init) by {
                assert forall|a: int| 0 <= a < init.len() implies init.update(
                    c,
                    RrsetV {
                        owner: init[c].owner,
                        rtype: init[c].rtype,
                        ttl: init[c].ttl,
                        data: init[c].data,
                    },
                )[a] == init[a] by {
                    if a == c {
                        assert((RrsetV {
                            owner: init[c].owner,
                            rtype: init[c].rtype,
                            ttl: init[c].ttl,
                            data: init[c].data,
                        }) == init[c]);
                    }
                }
            }
        }
    } else {
        lemma_apply_adds(init, owner, recs, t, k - 1);
        let prev = apply_upto(init, owner, recs, k - 1);
        let cur = apply_upto(init, owner, recs, k);
        let r = recs[k - 1];
        assert(r.class == CLASS_IN && r.ttl == t && txt_nonempty(r.rdata));
        assert(r.rdata.rtype() == RTYPE_TXT);
        assert(cur == apply_record(prev, owner, r));
        if has_entry(init, RTYPE_TXT, t) {
            let c = entry_idx(init, RTYPE_TXT, t);
            assert(init[c].rtype == RTYPE_TXT && init[c].ttl == t);
            assert(prev[c].rtype == RTYPE_TXT && prev[c].ttl == t);
            assert(has_entry(prev, RTYPE_TXT, t));
            let c2 = entry_idx(prev, RTYPE_TXT, t);
            assert(prev[c2].rtype == RTYPE_TXT && prev[c2].ttl == t);
            if c2 != c {
                assert(prev[c2] == init[c2]);
                assert(init[c2].rtype == RTYPE_TXT);
                if c2 < c {
                    assert(init[c2].rtype != init[c].rtype);
                } else {
                    assert(init[c].rtype != init[c2].rtype);
                }
            }
            assert(cur == prev.update(
                c,
                RrsetV {
                    owner: prev[c].owner,
                    rtype: prev[c].rtype,
                    ttl: prev[c].ttl,
                    data: prev[c].data.push(r.rdata),
                },
            ));
            assert(prev[c].data =~= init[c].data + adds_seq(recs, k - 1));
            assert(prev[c].data.push(r.rdata) =~= init[c].data + adds_seq(recs, k));
            assert(cur =~= init.update(
                c,
                RrsetV {
                    owner: init[c].owner,
                    rtype: init[c].rtype,
                    ttl: init[c].ttl,
                    data: init[c].data + adds_seq(recs, k),
                },
            ));
        } else {
            if k == 1 {
                assert(prev == init);
                assert(!has_entry(prev, RTYPE_TXT, t));
                assert(cur == prev.push(
                    RrsetV { owner, rtype: RTYPE_TXT, ttl: t, data: seq![r.rdata] },
                ));
                assert(seq![r.rdata] =~= adds_seq(recs, 1));
            } else {
                let n = init.len() as int;
                assert(prev == init.push(
                    RrsetV { owner, rtype: RTYPE_TXT, ttl: t, data: adds_seq(recs, k - 1) },
                ));
                assert(prev[n].rtype == RTYPE_TXT && prev[n].ttl == t);
                assert(has_entry(prev, RTYPE_TXT, t));
                let c2 = entry_idx(prev, RTYPE_TXT, t);
                assert(prev[c2].rtype == RTYPE_TXT && prev[c2].ttl == t);
                if c2 != n {
                    assert(prev[c2] == init[c2]);
                    assert(has_entry(init, RTYPE_TXT, t)) by {
                        assert(init[c2].rtype == RTYPE_TXT && init[c2].ttl == t);
                    }
                }
                assert(cur == prev.update(
                    n,
                    RrsetV {
                        owner: prev[n].owner,
                        rtype: prev[n].rtype,
                        ttl: prev[n].ttl,
                        data: prev[n].data.push(r.rdata),
                    },
                ));
                assert(prev[n].data.push(r.rdata) =~= adds_seq(recs, k));
                assert(cur =~= init.push(
                    RrsetV { owner, rtype: RTYPE_TXT, ttl: t, data: adds_seq(recs, k) },
                ));
            }
        }
    }
}


/// Replacing an RRset with exactly what it already holds changes nothing.
proof fn lemma_zset_noop(z: ZoneV, owner: Seq<char>, rtype: u16, ttl: u32, data: Seq<RdataV>)
    requires
        z.wf(),
        data.len() > 0,
        z.has_rrset(owner, rtype),
        z.rrset_at(owner, rtype) == (RrsetV { owner, rtype, ttl, data }),
    ensures
        zset(z, owner, rtype, ttl, data) == z,
{
    let c = rrset_idx(z, owner, rtype);
    assert(z.rrsets[c].owner == owner && z.rrsets[c].rtype == rtype);
    assert(z.rrset_at(owner, rtype) == z.rrsets[c]);
    assert(zset(z, owner, rtype, ttl, data).rrsets == z.rrsets.update(
        c,
        RrsetV { owner, rtype, ttl, data },
    ));
    assert(z.rrsets.update(c, RrsetV { owner, rtype, ttl, data }) =~= z.rrsets);
    assert(zset(z, owner, rtype, ttl, data) =~= z);
}

/// Committing entries that already stand in the zone, deduplicated,
/// changes nothing.
proof fn lemma_commit_noop(z: ZoneV, owner: Seq<char>, entries: Seq<RrsetV>, k: int)
    requires
        z.wf(),
        0 <= k <= entries.len(),
        forall|a: int|
            0 <= a < entries.len() ==> z.has_rrset(owner, (#[trigger] entries[a]).rtype)
                && dedup(entries[a].data).len() > 0 && z.rrset_at(owner, entries[a].rtype)
                == (RrsetV {
                owner,
                rtype: entries[a].rtype,
                ttl: entries[a].ttl,
                data: dedup(entries[a].data),
            }),
    ensures
        commit_upto(z, owner, entries, k) == z,
    decreases k,
{
    if k > 0 {
        lemma_commit_noop(z, owner, entries, k - 1);
        let e = entries[k - 1];
        lemma_zset_noop(z, owner, e.rtype, e.ttl, dedup(e.data));
    }
}


/// The accumulated rdata values are the records' rdata, in order.
proof fn lemma_adds_seq_index(recs: Seq<UpdateRecordV>, k: int)
    requires
        0 <= k <= recs.len(),
    ensures
        adds_seq(recs, k).len() == k,
        forall|j: int| 0 <= j < k ==> adds_seq(recs, k)[j] == (#[trigger] recs[j]).rdata,
    decreases k,
{
    if k > 0 {
        lemma_adds_seq_index(recs, k - 1);
    }
}

/// Where no entry has the type, there is no last occurrence.
proof fn lemma_last_none(entries: Seq<RrsetV>, rt: u16, k: int)
    requires
        0 <= k <= entries.len(),
        forall|j: int| 0 <= j < k ==> (#[trigger] entries[j]).rtype != rt,
    ensures
        last_of_rtype(entries, rt, k) < 0,
    decreases k,
{
    if k > 0 {
        lemma_last_none(entries, rt, k - 1);
    }
}

/// A second pass of the same adds over an already-updated zone is a
/// no-op: the zone's TXT RRset at the owner already holds the
/// deduplication of everything the adds bring.
#[verifier::rlimit(80)]
proof fn lemma_second_pass_noop(
    z1: ZoneV,
    owner: Seq<char>,
    recs: Seq<UpdateRecordV>,
    t: u32,
    d0c: Seq<RdataV>,
)
    requires
        z1.wf(),
        adds_at(recs, t),
        recs.len() > 0,
        z1.has_rrset(owner, RTYPE_TXT),
        z1.rrset_at(owner, RTYPE_TXT) == (RrsetV {
            owner,
            rtype: RTYPE_TXT,
            ttl: t,
            data: dedup(d0c + adds_seq(recs, recs.len() as int)),
        }),
    ensures
        spec_apply_update(z1, owner, recs) == z1,
{
    let n = recs.len() as int;
    let a_seq = adds_seq(recs, n);
    let big = dedup(d0c + a_seq);
    let m = z1.rrsets.len() as int;
    let init2 = init_entries(z1, owner);
    lemma_owned_upto_props(z1.rrsets, owner, m);
    // Every entry of the working list is the zone's RRset of its type.
    assert forall|a: int| 0 <= a < init2.len() implies z1.has_rrset(
        owner,
        (#[trigger] init2[a]).rtype,
    ) && z1.rrset_at(owner, init2[a].rtype) == init2[a] && init2[a].owner == owner
        && init2[a].data.len() > 0 && init2[a].data.no_duplicates() by {
        let j = choose|j: int|
            0 <= j < m && (#[trigger] init2[a]) == z1.rrsets[j] && z1.rrsets[j].owner == owner;
        assert(z1.rrsets[j].owner == owner && z1.rrsets[j].rtype == init2[a].rtype);
        assert(z1.has_rrset(owner, init2[a].rtype));
        let c = choose|c: int|
            0 <= c < m && z1.rrsets[c].owner == owner && z1.rrsets[c].rtype == init2[a].rtype;
        assert(z1.rrset_at(owner, init2[a].rtype) == z1.rrsets[c]);
        if c != j {
            if c < j {
                assert(!((z1.rrsets[c]).owner == (z1.rrsets[j]).owner && z1.rrsets[c].rtype
                    == z1.rrsets[j].rtype));
            } else {
                assert(!((z1.rrsets[j]).owner == (z1.rrsets[c]).owner && z1.rrsets[j].rtype
                    == z1.rrsets[c].rtype));
            }
        }
        assert(z1.rrsets[j].data.len() > 0);
        assert((z1.rrsets[j]).data.no_duplicates());
    }
    // The TXT RRset stands in the working list, keyed at the adds' TTL.
    assert(has_entry(init2, RTYPE_TXT, t)) by {
        let j = choose|j: int|
            0 <= j < m && z1.rrsets[j].owner == owner && z1.rrsets[j].rtype == RTYPE_TXT;
        assert(z1.rrsets[j].owner == owner);
        let a = choose|a: int|
            0 <= a < init2.len() && (#[trigger] init2[a]) == z1.rrsets[j];
        assert(z1.rrset_at(owner, RTYPE_TXT) == init2[a]);
        assert(init2[a].rtype == RTYPE_TXT && init2[a].ttl == t);
    }
    let idx2 = entry_idx(init2, RTYPE_TXT, t);
    assert(init2[idx2].rtype == RTYPE_TXT && init2[idx2].ttl == t);
    assert(init2[idx2] == z1.rrset_at(owner, RTYPE_TXT));
    lemma_apply_adds(init2, owner, recs, t, n);
    let fe2 = final_entries(z1, owner, recs);
    assert(fe2 == init2.update(
        idx2,
        RrsetV {
            owner: init2[idx2].owner,
            rtype: init2[idx2].rtype,
            ttl: init2[idx2].ttl,
            data: init2[idx2].data + a_seq,
        },
    ));
    // Every committed entry restores exactly what the zone already holds.
    assert forall|a: int| 0 <= a < fe2.len() implies z1.has_rrset(
        owner,
        (#[trigger] fe2[a]).rtype,
    ) && dedup(fe2[a].data).len() > 0 && z1.rrset_at(owner, fe2[a].rtype) == (RrsetV {
        owner,
        rtype: fe2[a].rtype,
        ttl: fe2[a].ttl,
        data: dedup(fe2[a].data),
    }) by {
        if a == idx2 {
            assert(fe2[a].rtype == RTYPE_TXT && fe2[a].ttl == t);
            assert(fe2[a].data == big + a_seq);
            lemma_readd_fixed_point(d0c, a_seq);
            assert(dedup(big + a_seq) == big);
            lemma_dedup_props(d0c + a_seq);
            assert(big.len() > 0) by {
                lemma_adds_seq_index(recs, n);
                assert((d0c + a_seq).len() > 0);
            }
        } else {
            assert(fe2[a] == init2[a]);
            lemma_dedup_of_clean(init2[a].data, init2[a].data.len() as int);
            assert(init2[a].data.subrange(0, init2[a].data.len() as int) =~= init2[a].data);
            assert(dedup(init2[a].data) == init2[a].data);
            assert((RrsetV {
                owner,
                rtype: init2[a].rtype,
                ttl: init2[a].ttl,
                data: dedup(init2[a].data),
            }) == init2[a]);
        }
    }
    lemma_commit_noop(z1, owner, fe2, fe2.len() as int);
}


/// Applying the same add-update twice leaves the zone exactly as applying
/// it once: the rdata brought a second time is dropped when the commit
/// deduplicates. The adds must share one TTL; adds at two different TTLs
/// re-key the TXT RRset on every pass and are not idempotent.
#[verifier::rlimit(80)]
pub proof fn lemma_update_idempotent(z: ZoneV, owner: Seq<char>, recs: Seq<UpdateRecordV>, t: u32)
    requires
        z.wf(),
        adds_at(recs, t),
    ensures
        spec_apply_update(spec_apply_update(z, owner, recs), owner, recs) == spec_apply_update(
            z,
            owner,
            recs,
        ),
{
    let n = recs.len() as int;
    let m = z.rrsets.len() as int;
    let init1 = init_entries(z, owner);
    lemma_owned_upto_props(z.rrsets, owner, m);
    // Every entry of the working list is the zone's RRset of its type.
    assert forall|a: int| 0 <= a < init1.len() implies z.has_rrset(
        owner,
        (#[trigger] init1[a]).rtype,
    ) && z.rrset_at(owner, init1[a].rtype) == init1[a] && init1[a].owner == owner
        && init1[a].data.len() > 0 && init1[a].data.no_duplicates() && (forall|d: int|
        0 <= d < init1[a].data.len() ==> (#[trigger] init1[a].data[d]).rtype()
            == init1[a].rtype) by {
        let j = choose|j: int|
            0 <= j < m && (#[trigger] init1[a]) == z.rrsets[j] && z.rrsets[j].owner == owner;
        assert(z.rrsets[j].owner == owner && z.rrsets[j].rtype == init1[a].rtype);
        assert(z.has_rrset(owner, init1[a].rtype));
        let c = choose|c: int|
            0 <= c < m && z.rrsets[c].owner == owner && z.rrsets[c].rtype == init1[a].rtype;
        assert(z.rrset_at(owner, init1[a].rtype) == z.rrsets[c]);
        if c != j {
            if c < j {
                assert(!((z.rrsets[c]).owner == (z.rrsets[j]).owner && z.rrsets[c].rtype
                    == z.rrsets[j].rtype));
            } else {
                assert(!((z.rrsets[j]).owner == (z.rrsets[c]).owner && z.rrsets[j].rtype
                    == z.rrsets[c].rtype));
            }
        }
        assert(z.rrsets[j].data.len() > 0);
        assert((z.rrsets[j]).data.no_duplicates());
        assert forall|d: int| 0 <= d < init1[a].data.len() implies (#[trigger] init1[a].data[
        d]).rtype() == init1[a].rtype by {
            assert((z.rrsets[j]).data[d].rtype() == z.rrsets[j].rtype);
        }
    }
    let z1 = spec_apply_update(z, owner, recs);
    if n == 0 {
        // With nothing to add, both passes commit the zone's own RRsets
        // back unchanged.
        lemma_apply_adds(init1, owner, recs, t, 0);
        let fe1 = final_entries(z, owner, recs);
        assert(fe1 == init1) by {
            if has_entry(init1, RTYPE_TXT, t) {
                let c = entry_idx(init1, RTYPE_TXT, t);
                assert(init1[c].data + adds_seq(recs, 0) =~= init1[c].data);
                assert((RrsetV {
                    owner: init1[c].owner,
                    rtype: init1[c].rtype,
                    ttl: init1[c].ttl,
                    data: init1[c].data + adds_seq(recs, 0),
                }) == init1[c]);
                assert(init1.update(c, init1[c]) =~= init1);
            }
        }
        assert forall|a: int| 0 <= a < fe1.len() implies z.has_rrset(
            owner,
            (#[trigger] fe1[a]).rtype,
        ) && dedup(fe1[a].data).len() > 0 && z.rrset_at(owner, fe1[a].rtype) == (RrsetV {
            owner,
            rtype: fe1[a].rtype,
            ttl: fe1[a].ttl,
            data: dedup(fe1[a].data),
        }) by {
            lemma_dedup_of_clean(init1[a].data, init1[a].data.len() as int);
            assert(init1[a].data.subrange(0, init1[a].data.len() as int) =~= init1[a].data);
            assert(dedup(init1[a].data) == init1[a].data);
            assert((RrsetV {
                owner,
                rtype: init1[a].rtype,
                ttl: init1[a].ttl,
                data: dedup(init1[a].data),
            }) == init1[a]);
        }
        lemma_commit_noop(z, owner, fe1, fe1.len() as int);
        assert(z1 == z);
    } else {
        lemma_adds_seq_index(recs, n);
        let a_seq = adds_seq(recs, n);
        assert forall|d: int| 0 <= d < a_seq.len() implies (#[trigger] a_seq[d]).rtype()
            == RTYPE_TXT by {
            assert(a_seq[d] == recs[d].rdata);
            assert(txt_nonempty(recs[d].rdata));
        }
        lemma_apply_adds(init1, owner, recs, t, n);
        let fe1 = final_entries(z, owner, recs);
        if has_entry(init1, RTYPE_TXT, t) {
            let c = entry_idx(init1, RTYPE_TXT, t);
            assert(init1[c].rtype == RTYPE_TXT && init1[c].ttl == t);
            let d0 = init1[c].data;
            let nv = RrsetV {
                owner: init1[c].owner,
                rtype: init1[c].rtype,
                ttl: init1[c].ttl,
                data: d0 + a_seq,
            };
            assert(fe1 == init1.update(c, nv));
            assert forall|a: int| 0 <= a < fe1.len() implies entry_commit_ok(
                z.apex,
                owner,
                #[trigger] fe1[a],
            ) by {
                if a == c {
                    assert(fe1[a] == nv);
                    assert forall|d: int| 0 <= d < nv.data.len() implies (
                    #[trigger] nv.data[d]).rtype() == nv.rtype by {
                        if d < d0.len() {
                            assert(nv.data[d] == d0[d]);
                            assert(d0[d].rtype() == init1[c].rtype);
                        } else {
                            assert(nv.data[d] == a_seq[d - d0.len()]);
                        }
                    }
                } else {
                    assert(fe1[a] == init1[a]);
                }
            }
            lemma_commit_props(z, owner, fe1, fe1.len() as int);
            assert(last_of_rtype(fe1, RTYPE_TXT, fe1.len() as int) == c) by {
                assert forall|j: int|
                    0 <= j < fe1.len() && j != c implies (#[trigger] fe1[j]).rtype
                    != RTYPE_TXT by {
                    assert(fe1[j] == init1[j]);
                    if j < c {
                        assert(init1[j].rtype != init1[c].rtype);
                    } else {
                        assert(init1[c].rtype != init1[j].rtype);
                    }
                }
                lemma_last_unique(fe1, RTYPE_TXT, fe1.len() as int, c);
            }
            assert(dedup(fe1[c].data).len() > 0) by {
                lemma_dedup_props(fe1[c].data);
                assert(fe1[c].data.len() > 0);
            }
            assert(z1.has_rrset(owner, RTYPE_TXT));
            assert(z1.rrset_at(owner, RTYPE_TXT) == (RrsetV {
                owner,
                rtype: RTYPE_TXT,
                ttl: t,
                data: dedup(d0 + a_seq),
            }));
            lemma_second_pass_noop(z1, owner, recs, t, d0);
        } else {
            let nv = RrsetV { owner, rtype: RTYPE_TXT, ttl: t, data: a_seq };
            assert(fe1 == init1.push(nv));
            let last = fe1.len() - 1;
            assert forall|a: int| 0 <= a < fe1.len() implies entry_commit_ok(
                z.apex,
                owner,
                #[trigger] fe1[a],
            ) by {
                if a == last {
                    assert(fe1[a] == nv);
                } else {
                    assert(fe1[a] == init1[a]);
                }
            }
            lemma_commit_props(z, owner, fe1, fe1.len() as int);
            assert(fe1[last].rtype == RTYPE_TXT);
            assert(last_of_rtype(fe1, RTYPE_TXT, fe1.len() as int) == last);
            assert(dedup(fe1[last].data).len() > 0) by {
                lemma_dedup_props(a_seq);
                assert(a_seq.len() > 0);
            }
            assert(z1.has_rrset(owner, RTYPE_TXT));
            assert(Seq::<RdataV>::empty() + a_seq =~= a_seq);
            assert(z1.rrset_at(owner, RTYPE_TXT) == (RrsetV {
                owner,
                rtype: RTYPE_TXT,
                ttl: t,
                data: dedup(Seq::<RdataV>::empty() + a_seq),
            }));
            lemma_second_pass_noop(z1, owner, recs, t, Seq::<RdataV>::empty());
        }
    }
}

} // verus!
