//! Reconciliation: keeping the zone tree and the key store a function of
//! the configuration file.
//!
//! The embedding program watches the file and reads it; the logic here
//! builds the zone tree for a fresh configuration, diffs an old
//! configuration against a new one, and applies the domain changes to the
//! tree. Removing and adding the key material files is the caller's part,
//! driven by the lists `handle_keys_change` computes.
//!
//! A configuration that lists one domain under two keys would ask for two
//! zones with one apex; it is refused (`initialize_dns_zones` fails, and
//! the reconcile entry points require `distinct_apexes`, which the caller
//! tests with `domains_have_distinct_apexes` and answers by keeping the
//! prior state).

use vstd::prelude::*;

use crate::error::Error;
use crate::error::ErrorKind;
use crate::key::DomainEntry;
use crate::key::KeyFile;
use crate::key::Keys;
use crate::key::contains_name;
use crate::key::handle_keys_change;
use crate::names;
use crate::zone::build_zone;
use crate::zone::spec_build_zone;
use crate::zone::ZoneTree;

verus! {

/// Whether the domain list configures a zone of the given apex.
pub open spec fn has_apex_in(ds: Seq<DomainEntry>, a: Seq<char>) -> bool {
    exists|i: int| 0 <= i < ds.len() && names::apex_of((#[trigger] ds[i]).name@) == a
}

/// Whether the tree holds exactly one zone per configured domain: the
/// zone-per-domain invariant of the reconciler.
pub open spec fn reflects(zones: ZoneTree, ds: Seq<DomainEntry>) -> bool {
    forall|a: Seq<char>| #[trigger] zones.has_apex(a) == has_apex_in(ds, a)
}

/// Whether no two domains of the list share a challenge-zone apex.
pub open spec fn distinct_apexes(ds: Seq<DomainEntry>) -> bool {
    forall|i: int, j: int|
        0 <= i < j < ds.len() ==> names::apex_of((#[trigger] ds[i]).name@) != names::apex_of(
            (#[trigger] ds[j]).name@,
        )
}

/// Whether the list holds an entry with this exact name and SOA data.
pub open spec fn kept_in(ds: Seq<DomainEntry>, e: DomainEntry) -> bool {
    exists|i: int|
        0 <= i < ds.len() && (#[trigger] ds[i]).name@ == e.name@ && ds[i].info@ == e.info@
}

/// Whether the vector holds an entry with the same name and SOA data.
fn contains_same(ds: &Vec<DomainEntry>, e: &DomainEntry) -> (r: bool)
    ensures
        r == kept_in(ds@, *e),
{
    let mut i: usize = 0;
    while i < ds.len()
        invariant
            0 <= i <= ds@.len(),
            forall|j: int|
                0 <= j < i ==> !((#[trigger] ds@[j]).name@ == e.name@ && ds@[j].info@ == e.info@),
        decreases ds@.len() - i,
    {
        if ds[i].name == e.name && ds[i].info == e.info {
            proof {
                assert(ds@[i as int].name@ == e.name@ && ds@[i as int].info@ == e.info@);
            }
            return true;
        }
        i += 1;
    }
    false
}

/// Whether no two domains of the vector map to one challenge apex; the
/// test a caller runs over a freshly parsed configuration before
/// reconciling with it.
pub fn domains_have_distinct_apexes(ds: &Vec<DomainEntry>) -> (r: bool)
    ensures
        r == distinct_apexes(ds@),
{
    let mut i: usize = 0;
    while i < ds.len()
        invariant
            0 <= i <= ds@.len(),
            forall|a: int, b: int|
                0 <= a < i && a < b < ds@.len() ==> names::apex_of((#[trigger] ds@[a]).name@)
                    != names::apex_of((#[trigger] ds@[b]).name@),
        decreases ds@.len() - i,
    {
        let apex_i = names::make_apex(ds[i].name.as_str());
        let mut j: usize = i + 1;
        while j < ds.len()
            invariant
                0 <= i < j <= ds@.len(),
                apex_i@ == names::apex_of(ds@[i as int].name@),
                forall|b: int|
                    i < b < j ==> names::apex_of((#[trigger] ds@[b]).name@) != names::apex_of(
                        ds@[i as int].name@,
                    ),
            decreases ds@.len() - j,
        {
            let apex_j = names::make_apex(ds[j].name.as_str());
            if names::str_eq(apex_i.as_str(), apex_j.as_str()) {
                proof {
                    assert(names::apex_of(ds@[i as int].name@) == names::apex_of(
                        ds@[j as int].name@,
                    ));
                }
                return false;
            }
            j += 1;
        }
        i += 1;
    }
    true
}

/// Builds the zone tree for a configuration from nothing: one challenge
/// zone per configured domain, seeded at the given serial. Succeeds exactly
/// when every apex is a valid name and no two domains share an apex.
pub fn initialize_dns_zones(keys: &Keys, now: u32) -> (r: Result<ZoneTree, Error>)
    ensures
        r matches Ok(tree) ==> {
            &&& tree.wf()
            &&& reflects(tree, keys.all_domains())
            &&& forall|i: int|
                0 <= i < keys.all_domains().len() ==> tree.zone_at(
                    names::apex_of((#[trigger] keys.all_domains()[i]).name@),
                ) == spec_build_zone(
                    keys.all_domains()[i].name@,
                    keys.all_domains()[i].info@,
                    now,
                )
        },
        r is Ok <==> ((forall|i: int|
            0 <= i < keys.all_domains().len() ==> crate::zone::dname_valid(
                names::apex_of((#[trigger] keys.all_domains()[i]).name@),
            )) && distinct_apexes(keys.all_domains())),
        r matches Err(e) ==> (e.kind == ErrorKind::DomainStr || e.kind == ErrorKind::DomainZone),
{
    let ds = keys.domains();
    let mut tree = ZoneTree::new();
    let mut i: usize = 0;
    while i < ds.len()
        invariant
            ds@ == keys.all_domains(),
            tree.wf(),
            0 <= i <= ds@.len(),
            forall|a: Seq<char>|
                #[trigger] tree.has_apex(a) == has_apex_in(ds@.subrange(0, i as int), a),
            forall|j: int|
                0 <= j < i ==> tree.zone_at(names::apex_of((#[trigger] ds@[j]).name@))
                    == spec_build_zone(ds@[j].name@, ds@[j].info@, now),
            forall|j: int|
                0 <= j < i ==> crate::zone::dname_valid(
                    names::apex_of((#[trigger] ds@[j]).name@),
                ),
            forall|j: int, k: int|
                0 <= j < k < i ==> names::apex_of((#[trigger] ds@[j]).name@) != names::apex_of(
                    (#[trigger] ds@[k]).name@,
                ),
        decreases ds@.len() - i,
    {
        let entry = &ds[i];
        let z = match build_zone(&entry.name, &entry.info, now) {
            Ok(z) => z,
            Err(e) => {
                proof {
                    assert(!crate::zone::dname_valid(
                        names::apex_of((ds@[i as int]).name@),
                    ));
                }
                return Err(e);
            },
        };
        let ghost pre = tree;
        match tree.insert_zone(z) {
            Ok(()) => (),
            Err(e) => {
                proof {
                    assert(pre.has_apex(names::apex_of(ds@[i as int].name@)));
                    assert(has_apex_in(ds@.subrange(0, i as int), names::apex_of(
                        ds@[i as int].name@,
                    )));
                    let j = choose|j: int|
                        0 <= j < i && names::apex_of(
                            (#[trigger] ds@.subrange(0, i as int)[j]).name@,
                        ) == names::apex_of(ds@[i as int].name@);
                    assert(names::apex_of(ds@[j].name@) == names::apex_of(ds@[i as int].name@));
                    assert(!distinct_apexes(ds@));
                }
                return Err(e);
            },
        }
        proof {
            let a0 = names::apex_of(ds@[i as int].name@);
            assert forall|a: Seq<char>| #[trigger] tree.has_apex(a) == has_apex_in(
                ds@.subrange(0, i + 1),
                a,
            ) by {
                if tree.has_apex(a) {
                    if a == a0 {
                        assert(names::apex_of(
                            (ds@.subrange(0, i + 1)[i as int]).name@,
                        ) == a);
                        assert(has_apex_in(ds@.subrange(0, i + 1), a));
                    } else {
                        assert(pre.has_apex(a));
                        assert(has_apex_in(ds@.subrange(0, i as int), a));
                        let j = choose|j: int|
                            0 <= j < i && names::apex_of(
                                (#[trigger] ds@.subrange(0, i as int)[j]).name@,
                            ) == a;
                        assert(names::apex_of(
                            (ds@.subrange(0, i + 1)[j]).name@,
                        ) == a);
                    }
                }
                if has_apex_in(ds@.subrange(0, i + 1), a) {
                    let j = choose|j: int|
                        0 <= j < i + 1 && names::apex_of(
                            (#[trigger] ds@.subrange(0, i + 1)[j]).name@,
                        ) == a;
                    if j < i {
                        assert(names::apex_of(
                            (ds@.subrange(0, i as int)[j]).name@,
                        ) == a);
                        assert(has_apex_in(ds@.subrange(0, i as int), a));
                        assert(pre.has_apex(a));
                        assert(tree.has_apex(a));
                    } else {
                        assert(a == a0);
                        assert(tree.has_apex(a));
                    }
                }
            }
            assert forall|j: int, k: int| 0 <= j < k < i + 1 implies names::apex_of(
                (#[trigger] ds@[j]).name@,
            ) != names::apex_of((#[trigger] ds@[k]).name@) by {
                if k == i {
                    if names::apex_of(ds@[j].name@) == a0 {
                        assert(names::apex_of(
                            (ds@.subrange(0, i as int)[j]).name@,
                        ) == a0);
                        assert(has_apex_in(ds@.subrange(0, i as int), a0));
                        assert(pre.has_apex(a0));
                    }
                }
            }
            assert forall|j: int| 0 <= j < i + 1 implies tree.zone_at(
                names::apex_of((#[trigger] ds@[j]).name@),
            ) == spec_build_zone(ds@[j].name@, ds@[j].info@, now) by {
                if j < i {
                    assert(names::apex_of(ds@[j].name@) != a0);
                    assert(tree.has_apex(names::apex_of(ds@[j].name@))) by {
                        assert(names::apex_of(
                            (ds@.subrange(0, i as int)[j]).name@,
                        ) == names::apex_of(ds@[j].name@));
                        assert(has_apex_in(ds@.subrange(0, i as int), names::apex_of(
                            ds@[j].name@,
                        )));
                        assert(pre.has_apex(names::apex_of(ds@[j].name@)));
                    }
                }
            }
        }
        i += 1;
    }
    proof {
        assert(ds@.subrange(0, ds@.len() as int) =~= ds@);
        if !distinct_apexes(ds@) {
            let (j, k) = choose|j: int, k: int|
                0 <= j < k < ds@.len() && names::apex_of((#[trigger] ds@[j]).name@)
                    == names::apex_of((#[trigger] ds@[k]).name@);
            assert(false);
        }
    }
    Ok(tree)
}

/// Applies a configuration change to the zone tree: domains gone from the
/// configuration lose their zone, new domains gain a freshly built one, and
/// a domain whose SOA data changed is rebuilt. Domains carried over
/// unchanged keep their zone, dynamic records included.
pub fn handle_domains_change(
    zones: &mut ZoneTree,
    old_domains: &Vec<DomainEntry>,
    new_domains: &Vec<DomainEntry>,
    now: u32,
) -> (r: Result<(), Error>)
    requires
        old(zones).wf(),
        reflects(*old(zones), old_domains@),
        distinct_apexes(old_domains@),
        distinct_apexes(new_domains@),
    ensures
        final(zones).wf(),
        r is Ok ==> reflects(*final(zones), new_domains@),
        r is Ok ==> (forall|i: int|
            0 <= i < new_domains@.len() ==> final(zones).has_apex(
                names::apex_of((#[trigger] new_domains@[i]).name@),
            ) && (if kept_in(old_domains@, new_domains@[i]) {
                final(zones).zone_at(names::apex_of(new_domains@[i].name@)) == old(zones).zone_at(
                    names::apex_of(new_domains@[i].name@),
                )
            } else {
                final(zones).zone_at(names::apex_of(new_domains@[i].name@)) == spec_build_zone(
                    new_domains@[i].name@,
                    new_domains@[i].info@,
                    now,
                )
            })),
        r is Ok <==> (forall|i: int|
            0 <= i < new_domains@.len() && !kept_in(old_domains@, #[trigger] new_domains@[i])
                ==> crate::zone::dname_valid(names::apex_of(new_domains@[i].name@))),
        r is Err ==> *final(zones) == *old(zones),
        r matches Err(e) ==> e.kind == ErrorKind::DomainStr,
{
    // Validate every name that will be built up front, so that a refused
    // change leaves the tree exactly as it was.
    let mut v: usize = 0;
    while v < new_domains.len()
        invariant
            *zones == *old(zones),
            old(zones).wf(),
            0 <= v <= new_domains@.len(),
            forall|i: int|
                0 <= i < v && !kept_in(old_domains@, #[trigger] new_domains@[i])
                    ==> crate::zone::dname_valid(names::apex_of(new_domains@[i].name@)),
        decreases new_domains@.len() - v,
    {
        let nd = &new_domains[v];
        if !contains_same(old_domains, nd) {
            let apex = names::make_apex(nd.name.as_str());
            if !crate::zone::check_dname(apex.as_str()) {
                proof {
                    assert(!kept_in(old_domains@, new_domains@[v as int]));
                    assert(!crate::zone::dname_valid(
                        names::apex_of(new_domains@[v as int].name@),
                    ));
                }
                return Err(Error::new(ErrorKind::DomainStr));
            }
        }
        v += 1;
    }
    // Remove every zone whose domain is gone or whose SOA data changed.
    let mut i: usize = 0;
    while i < old_domains.len()
        invariant
            zones.wf(),
            reflects(*old(zones), old_domains@),
            distinct_apexes(old_domains@),
            distinct_apexes(new_domains@),
            0 <= i <= old_domains@.len(),
            forall|a: Seq<char>|
                #[trigger] zones.has_apex(a) == (old(zones).has_apex(a) && !(exists|j: int|
                    0 <= j < i && names::apex_of((#[trigger] old_domains@[j]).name@) == a
                        && !kept_in(new_domains@, old_domains@[j]))),
            forall|a: Seq<char>|
                #[trigger] zones.has_apex(a) ==> zones.zone_at(a) == old(zones).zone_at(a),
        decreases old_domains@.len() - i,
    {
        let od = &old_domains[i];
        if !contains_same(new_domains, od) {
            let apex = names::make_apex(od.name.as_str());
            let ghost pre = *zones;
            proof {
                let a0 = names::apex_of(old_domains@[i as int].name@);
                assert(has_apex_in(old_domains@, a0)) by {
                    assert(names::apex_of((old_domains@[i as int]).name@) == a0);
                }
                assert(old(zones).has_apex(a0));
                assert(!(exists|j: int|
                    0 <= j < i && names::apex_of((#[trigger] old_domains@[j]).name@) == a0
                        && !kept_in(new_domains@, old_domains@[j]))) by {
                    if exists|j: int|
                        0 <= j < i && names::apex_of((#[trigger] old_domains@[j]).name@) == a0
                            && !kept_in(new_domains@, old_domains@[j]) {
                        let j = choose|j: int|
                            0 <= j < i && names::apex_of((#[trigger] old_domains@[j]).name@) == a0
                                && !kept_in(new_domains@, old_domains@[j]);
                        assert(names::apex_of(old_domains@[j].name@) != names::apex_of(
                            old_domains@[i as int].name@,
                        ));
                    }
                }
                assert(pre.has_apex(a0));
            }
            match zones.remove_zone(apex.as_str()) {
                Ok(()) => (),
                Err(e) => {
                    return Err(e);
                },
            }
            proof {
                let a0 = names::apex_of(old_domains@[i as int].name@);
                assert forall|a: Seq<char>| #[trigger] zones.has_apex(a) == (old(
                    zones,
                ).has_apex(a) && !(exists|j: int|
                    0 <= j < i + 1 && names::apex_of((#[trigger] old_domains@[j]).name@) == a
                        && !kept_in(new_domains@, old_domains@[j]))) by {
                    if a == a0 {
                        assert(!zones.has_apex(a));
                        assert(names::apex_of((old_domains@[i as int]).name@) == a
                            && !kept_in(new_domains@, old_domains@[i as int]));
                    } else {
                        assert(zones.has_apex(a) == pre.has_apex(a));
                        if exists|j: int|
                            0 <= j < i + 1 && names::apex_of((#[trigger] old_domains@[j]).name@)
                                == a && !kept_in(new_domains@, old_domains@[j]) {
                            let j = choose|j: int|
                                0 <= j < i + 1 && names::apex_of(
                                    (#[trigger] old_domains@[j]).name@,
                                ) == a && !kept_in(new_domains@, old_domains@[j]);
                            assert(j < i);
                        }
                    }
                }
            }
        } else {
            proof {
                assert forall|a: Seq<char>| #[trigger] zones.has_apex(a) == (old(
                    zones,
                ).has_apex(a) && !(exists|j: int|
                    0 <= j < i + 1 && names::apex_of((#[trigger] old_domains@[j]).name@) == a
                        && !kept_in(new_domains@, old_domains@[j]))) by {
                    if exists|j: int|
                        0 <= j < i + 1 && names::apex_of((#[trigger] old_domains@[j]).name@) == a
                            && !kept_in(new_domains@, old_domains@[j]) {
                        let j = choose|j: int|
                            0 <= j < i + 1 && names::apex_of((#[trigger] old_domains@[j]).name@)
                                == a && !kept_in(new_domains@, old_domains@[j]);
                        assert(j < i);
                    }
                }
            }
        }
        i += 1;
    }
    let ghost mid = *zones;
    // Build and insert every domain that is new or changed.
    let mut k: usize = 0;
    while k < new_domains.len()
        invariant
            zones.wf(),
            mid.wf(),
            reflects(*old(zones), old_domains@),
            distinct_apexes(old_domains@),
            distinct_apexes(new_domains@),
            forall|a: Seq<char>|
                #[trigger] mid.has_apex(a) == (old(zones).has_apex(a) && !(exists|j: int|
                    0 <= j < old_domains@.len() && names::apex_of(
                        (#[trigger] old_domains@[j]).name@,
                    ) == a && !kept_in(new_domains@, old_domains@[j]))),
            forall|a: Seq<char>|
                #[trigger] mid.has_apex(a) ==> mid.zone_at(a) == old(zones).zone_at(a),
            0 <= k <= new_domains@.len(),
            forall|a: Seq<char>|
                #[trigger] zones.has_apex(a) == (mid.has_apex(a) || (exists|j: int|
                    0 <= j < k && names::apex_of((#[trigger] new_domains@[j]).name@) == a
                        && !kept_in(old_domains@, new_domains@[j]))),
            forall|a: Seq<char>|
                #[trigger] mid.has_apex(a) ==> zones.has_apex(a) && zones.zone_at(a)
                    == mid.zone_at(a),
            forall|j: int|
                0 <= j < k && !kept_in(old_domains@, #[trigger] new_domains@[j]) ==> zones.has_apex(
                    names::apex_of(new_domains@[j].name@),
                ) && zones.zone_at(names::apex_of(new_domains@[j].name@)) == spec_build_zone(
                    new_domains@[j].name@,
                    new_domains@[j].info@,
                    now,
                ),
            forall|i: int|
                0 <= i < new_domains@.len() && !kept_in(old_domains@, #[trigger] new_domains@[i])
                    ==> crate::zone::dname_valid(names::apex_of(new_domains@[i].name@)),
        decreases new_domains@.len() - k,
    {
        let nd = &new_domains[k];
        if !contains_same(old_domains, nd) {
            let z = match build_zone(&nd.name, &nd.info, now) {
                Ok(z) => z,
                Err(e) => {
                    // Unreachable: every name built here was validated above.
                    proof {
                        assert(!kept_in(old_domains@, new_domains@[k as int]));
                    }
                    return Err(e);
                },
            };
            let ghost pre = *zones;
            proof {
                let a0 = names::apex_of(new_domains@[k as int].name@);
                assert(!pre.has_apex(a0)) by {
                    if mid.has_apex(a0) {
                        assert(old(zones).has_apex(a0));
                        assert(has_apex_in(old_domains@, a0));
                        let j = choose|j: int|
                            0 <= j < old_domains@.len() && names::apex_of(
                                (#[trigger] old_domains@[j]).name@,
                            ) == a0;
                        assert(kept_in(new_domains@, old_domains@[j]));
                        let m = choose|m: int|
                            0 <= m < new_domains@.len() && (#[trigger] new_domains@[m]).name@
                                == old_domains@[j].name@ && new_domains@[m].info@
                                == old_domains@[j].info@;
                        assert(names::apex_of(new_domains@[m].name@) == a0);
                        if m != k {
                            if m < k {
                                assert(names::apex_of(new_domains@[m].name@) != names::apex_of(
                                    new_domains@[k as int].name@,
                                ));
                            } else {
                                assert(names::apex_of(new_domains@[k as int].name@)
                                    != names::apex_of(new_domains@[m].name@));
                            }
                        } else {
                            assert(kept_in(old_domains@, new_domains@[k as int])) by {
                                assert((old_domains@[j]).name@ == new_domains@[k as int].name@
                                    && old_domains@[j].info@ == new_domains@[k as int].info@);
                            }
                        }
                    }
                    if exists|j: int|
                        0 <= j < k && names::apex_of((#[trigger] new_domains@[j]).name@) == a0
                            && !kept_in(old_domains@, new_domains@[j]) {
                        let j = choose|j: int|
                            0 <= j < k && names::apex_of((#[trigger] new_domains@[j]).name@) == a0
                                && !kept_in(old_domains@, new_domains@[j]);
                        assert(names::apex_of(new_domains@[j].name@) != names::apex_of(
                            new_domains@[k as int].name@,
                        ));
                    }
                }
            }
            match zones.insert_zone(z) {
                Ok(()) => (),
                Err(e) => {
                    return Err(e);
                },
            }
            proof {
                let a0 = names::apex_of(new_domains@[k as int].name@);
                assert forall|a: Seq<char>| #[trigger] zones.has_apex(a) == (mid.has_apex(a) || (
                exists|j: int|
                    0 <= j < k + 1 && names::apex_of((#[trigger] new_domains@[j]).name@) == a
                        && !kept_in(old_domains@, new_domains@[j]))) by {
                    if a == a0 {
                        assert(zones.has_apex(a));
                        assert(names::apex_of((new_domains@[k as int]).name@) == a && !kept_in(
                            old_domains@,
                            new_domains@[k as int],
                        ));
                    } else {
                        assert(zones.has_apex(a) == pre.has_apex(a));
                        if exists|j: int|
                            0 <= j < k + 1 && names::apex_of((#[trigger] new_domains@[j]).name@)
                                == a && !kept_in(old_domains@, new_domains@[j]) {
                            let j = choose|j: int|
                                0 <= j < k + 1 && names::apex_of(
                                    (#[trigger] new_domains@[j]).name@,
                                ) == a && !kept_in(old_domains@, new_domains@[j]);
                            assert(j < k);
                        }
                    }
                }
                assert forall|a: Seq<char>| #[trigger] mid.has_apex(a) implies zones.has_apex(a)
                    && zones.zone_at(a) == mid.zone_at(a) by {
                    assert(pre.has_apex(a) && pre.zone_at(a) == mid.zone_at(a));
                    assert(a != a0);
                    assert(zones.has_apex(a));
                    assert(zones.zone_at(a) == pre.zone_at(a));
                }
            }
        } else {
            proof {
                assert(kept_in(old_domains@, new_domains@[k as int]));
                assert forall|a: Seq<char>| #[trigger] zones.has_apex(a) == (mid.has_apex(a) || (
                exists|j: int|
                    0 <= j < k + 1 && names::apex_of((#[trigger] new_domains@[j]).name@) == a
                        && !kept_in(old_domains@, new_domains@[j]))) by {
                    if exists|j: int|
                        0 <= j < k + 1 && names::apex_of((#[trigger] new_domains@[j]).name@) == a
                            && !kept_in(old_domains@, new_domains@[j]) {
                        let j = choose|j: int|
                            0 <= j < k + 1 && names::apex_of((#[trigger] new_domains@[j]).name@)
                                == a && !kept_in(old_domains@, new_domains@[j]);
                        assert(j < k);
                    }
                }
            }
        }
        k += 1;
    }
    proof {
        // The tree now reflects the new configuration.
        assert forall|a: Seq<char>| #[trigger] zones.has_apex(a) == has_apex_in(
            new_domains@,
            a,
        ) by {
            if zones.has_apex(a) {
                if mid.has_apex(a) {
                    assert(old(zones).has_apex(a));
                    assert(has_apex_in(old_domains@, a));
                    let j = choose|j: int|
                        0 <= j < old_domains@.len() && names::apex_of(
                            (#[trigger] old_domains@[j]).name@,
                        ) == a;
                    assert(kept_in(new_domains@, old_domains@[j]));
                    let m = choose|m: int|
                        0 <= m < new_domains@.len() && (#[trigger] new_domains@[m]).name@
                            == old_domains@[j].name@ && new_domains@[m].info@
                            == old_domains@[j].info@;
                    assert(names::apex_of((new_domains@[m]).name@) == a);
                } else {
                    let j = choose|j: int|
                        0 <= j < new_domains@.len() && names::apex_of(
                            (#[trigger] new_domains@[j]).name@,
                        ) == a && !kept_in(old_domains@, new_domains@[j]);
                    assert(names::apex_of((new_domains@[j]).name@) == a);
                }
            }
            if has_apex_in(new_domains@, a) {
                let m = choose|m: int|
                    0 <= m < new_domains@.len() && names::apex_of(
                        (#[trigger] new_domains@[m]).name@,
                    ) == a;
                if kept_in(old_domains@, new_domains@[m]) {
                    let j = choose|j: int|
                        0 <= j < old_domains@.len() && (#[trigger] old_domains@[j]).name@
                            == new_domains@[m].name@ && old_domains@[j].info@
                            == new_domains@[m].info@;
                    assert(names::apex_of((old_domains@[j]).name@) == a);
                    assert(has_apex_in(old_domains@, a));
                    assert(old(zones).has_apex(a));
                    assert(mid.has_apex(a)) by {
                        if exists|j2: int|
                            0 <= j2 < old_domains@.len() && names::apex_of(
                                (#[trigger] old_domains@[j2]).name@,
                            ) == a && !kept_in(new_domains@, old_domains@[j2]) {
                            let j2 = choose|j2: int|
                                0 <= j2 < old_domains@.len() && names::apex_of(
                                    (#[trigger] old_domains@[j2]).name@,
                                ) == a && !kept_in(new_domains@, old_domains@[j2]);
                            if j2 != j {
                                if j2 < j {
                                    assert(names::apex_of(old_domains@[j2].name@)
                                        != names::apex_of(old_domains@[j].name@));
                                } else {
                                    assert(names::apex_of(old_domains@[j].name@) != names::apex_of(
                                        old_domains@[j2].name@,
                                    ));
                                }
                            } else {
                                assert(kept_in(new_domains@, old_domains@[j])) by {
                                    assert((new_domains@[m]).name@ == old_domains@[j].name@
                                        && new_domains@[m].info@ == old_domains@[j].info@);
                                }
                            }
                        }
                    }
                    assert(zones.has_apex(a));
                } else {
                    assert(zones.has_apex(a)) by {
                        assert(names::apex_of((new_domains@[m]).name@) == a && !kept_in(
                            old_domains@,
                            new_domains@[m],
                        ));
                    }
                }
            }
        }
        // And each new domain's zone is the kept or the freshly built one.
        assert forall|i2: int| 0 <= i2 < new_domains@.len() implies zones.has_apex(
            names::apex_of((#[trigger] new_domains@[i2]).name@),
        ) && (if kept_in(old_domains@, new_domains@[i2]) {
            zones.zone_at(names::apex_of(new_domains@[i2].name@)) == old(zones).zone_at(
                names::apex_of(new_domains@[i2].name@),
            )
        } else {
            zones.zone_at(names::apex_of(new_domains@[i2].name@)) == spec_build_zone(
                new_domains@[i2].name@,
                new_domains@[i2].info@,
                now,
            )
        }) by {
            let a = names::apex_of(new_domains@[i2].name@);
            assert(has_apex_in(new_domains@, a)) by {
                assert(names::apex_of((new_domains@[i2]).name@) == a);
            }
            assert(zones.has_apex(a));
            if kept_in(old_domains@, new_domains@[i2]) {
                let j = choose|j: int|
                    0 <= j < old_domains@.len() && (#[trigger] old_domains@[j]).name@
                        == new_domains@[i2].name@ && old_domains@[j].info@
                        == new_domains@[i2].info@;
                assert(names::apex_of((old_domains@[j]).name@) == a);
                assert(has_apex_in(old_domains@, a));
                assert(old(zones).has_apex(a));
                assert(mid.has_apex(a)) by {
                    if exists|j2: int|
                        0 <= j2 < old_domains@.len() && names::apex_of(
                            (#[trigger] old_domains@[j2]).name@,
                        ) == a && !kept_in(new_domains@, old_domains@[j2]) {
                        let j2 = choose|j2: int|
                            0 <= j2 < old_domains@.len() && names::apex_of(
                                (#[trigger] old_domains@[j2]).name@,
                            ) == a && !kept_in(new_domains@, old_domains@[j2]);
                        if j2 != j {
                            if j2 < j {
                                assert(names::apex_of(old_domains@[j2].name@) != names::apex_of(
                                    old_domains@[j].name@,
                                ));
                            } else {
                                assert(names::apex_of(old_domains@[j].name@) != names::apex_of(
                                    old_domains@[j2].name@,
                                ));
                            }
                        } else {
                            assert(kept_in(new_domains@, old_domains@[j])) by {
                                assert((new_domains@[i2]).name@ == old_domains@[j].name@
                                    && new_domains@[i2].info@ == old_domains@[j].info@);
                            }
                        }
                    }
                }
            }
        }
    }
    Ok(())
}

/// One reconcile step on the data plane: applies the domain changes to the
/// zone tree and computes which key files are to be removed and which to be
/// materialized. The caller deletes and creates the files and drives the
/// key store with the two lists.
pub fn handle_file_change(
    zones: &mut ZoneTree,
    old_keys: &Keys,
    new_keys: &Keys,
    now: u32,
) -> (r: Result<(Vec<KeyFile>, Vec<KeyFile>), Error>)
    requires
        old(zones).wf(),
        reflects(*old(zones), old_keys.all_domains()),
        distinct_apexes(old_keys.all_domains()),
        distinct_apexes(new_keys.all_domains()),
    ensures
        final(zones).wf(),
        r is Ok ==> reflects(*final(zones), new_keys.all_domains()),
        r is Ok ==> (forall|i: int|
            0 <= i < new_keys.all_domains().len() ==> final(zones).has_apex(
                names::apex_of((#[trigger] new_keys.all_domains()[i]).name@),
            ) && (if kept_in(old_keys.all_domains(), new_keys.all_domains()[i]) {
                final(zones).zone_at(names::apex_of(new_keys.all_domains()[i].name@)) == old(
                    zones,
                ).zone_at(names::apex_of(new_keys.all_domains()[i].name@))
            } else {
                final(zones).zone_at(names::apex_of(new_keys.all_domains()[i].name@))
                    == spec_build_zone(
                    new_keys.all_domains()[i].name@,
                    new_keys.all_domains()[i].info@,
                    now,
                )
            })),
        r matches Ok((removed, added)) ==> (forall|n: Seq<char>|
            #[trigger] contains_name(removed@, n) == (new_keys.has_key(n) == false
                && old_keys.has_key(n))) && (forall|n: Seq<char>|
            #[trigger] contains_name(added@, n) == (old_keys.has_key(n) == false
                && new_keys.has_key(n))),
        r is Ok <==> (forall|i: int|
            0 <= i < new_keys.all_domains().len() && !kept_in(
                old_keys.all_domains(),
                #[trigger] new_keys.all_domains()[i],
            ) ==> crate::zone::dname_valid(names::apex_of(new_keys.all_domains()[i].name@))),
        r is Err ==> *final(zones) == *old(zones),
        r matches Err(e) ==> e.kind == ErrorKind::DomainStr,
{
    let old_domains = old_keys.domains();
    let new_domains = new_keys.domains();
    handle_domains_change(zones, &old_domains, &new_domains, now)?;
    let old_names = old_keys.keys();
    let new_names = new_keys.keys();
    let (removed, added) = handle_keys_change(&old_names, &new_names);
    proof {
        assert forall|n: Seq<char>| #[trigger] contains_name(old_names@, n) == old_keys.has_key(
            n,
        ) by {
            if contains_name(old_names@, n) {
                let i = choose|i: int| 0 <= i < old_names@.len() && old_names@[i]@ == n;
                assert(old_keys.entries_seq()[i].file@ == n);
            }
            if old_keys.has_key(n) {
                let i = choose|i: int|
                    0 <= i < old_keys.entries_seq().len() && old_keys.entries_seq()[i].file@ == n;
                assert(old_names@[i]@ == n);
            }
        }
        assert forall|n: Seq<char>| #[trigger] contains_name(new_names@, n) == new_keys.has_key(
            n,
        ) by {
            if contains_name(new_names@, n) {
                let i = choose|i: int| 0 <= i < new_names@.len() && new_names@[i]@ == n;
                assert(new_keys.entries_seq()[i].file@ == n);
            }
            if new_keys.has_key(n) {
                let i = choose|i: int|
                    0 <= i < new_keys.entries_seq().len() && new_keys.entries_seq()[i].file@ == n;
                assert(new_names@[i]@ == n);
            }
        }
    }
    Ok((removed, added))
}

/// Applying a reconcile step's key lists restores the key-store invariant:
/// a store that held exactly the old configuration's keys holds, after the
/// removals and the additions, exactly the new configuration's keys.
pub proof fn lemma_keys_diff_reconciles(
    olds: Seq<KeyFile>,
    news: Seq<KeyFile>,
    removed: Seq<KeyFile>,
    added: Seq<KeyFile>,
)
    requires
        forall|n: Seq<char>|
            #[trigger] contains_name(removed, n) == (contains_name(olds, n) && !contains_name(
                news,
                n,
            )),
        forall|n: Seq<char>|
            #[trigger] contains_name(added, n) == (contains_name(news, n) && !contains_name(
                olds,
                n,
            )),
    ensures
        forall|n: Seq<char>|
            ((contains_name(olds, n) && !(#[trigger] contains_name(removed, n))) || contains_name(
                added,
                n,
            )) == contains_name(news, n),
{
}

} // verus!
