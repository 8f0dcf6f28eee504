//! TSIG keys, the domains they authorize, and the key store.
//!
//! `Keys` mirrors the `keys:` table of the configuration file: every
//! `KeyFile` label names one TSIG key and maps to the set of domains that
//! key may update. `KeyStore` holds the materialized key secrets the server
//! verifies and signs with. Key material is persisted base64-encoded in one
//! file per key under the TSIG directory; reading and writing those files is
//! the caller's part, while the encoding, decoding and bookkeeping here is
//! verified.

use vstd::prelude::*;

use crate::error::Error;
use crate::error::ErrorKind;
use crate::names;
use crate::tsig;

verus! {

/// A domain name as configured: presentation form, no challenge prefix.
#[derive(Debug)]
pub struct DomainName(String);

impl View for DomainName {
    type V = Seq<char>;

    closed spec fn view(&self) -> Seq<char> {
        self.0@
    }
}

impl DomainName {
    /// Wraps the given text as a domain name.
    pub fn new(s: String) -> (r: DomainName)
        ensures
            r@ == s@,
    {
        DomainName(s)
    }

    /// The textual form of the name.
    pub fn as_str(&self) -> (r: &str)
        ensures
            r@ == self@,
    {
        self.0.as_str()
    }

    /// Removes a leading challenge label, if the name carries one.
    pub fn strip_prefix(self) -> (r: DomainName)
        ensures
            r@ == names::strip_acme(self@),
    {
        DomainName(names::strip_acme_str(self.0.as_str()))
    }
}

impl Clone for DomainName {
    fn clone(&self) -> (r: DomainName)
        ensures
            r == *self,
    {
        DomainName(self.0.clone())
    }
}

impl PartialEq for DomainName {
    fn eq(&self, other: &DomainName) -> (r: bool) {
        self.0 == other.0
    }
}

impl vstd::std_specs::cmp::PartialEqSpecImpl for DomainName {
    open spec fn obeys_eq_spec() -> bool {
        true
    }

    open spec fn eq_spec(&self, other: &DomainName) -> bool {
        self@ == other@
    }
}

/// The SOA parameters configured for one domain: the primary name server
/// and the responsible mailbox.
#[derive(Debug)]
pub struct DomainInfo {
    mname: String,
    rname: String,
}

/// The mathematical value of a `DomainInfo`.
pub struct DomainInfoV {
    pub mname: Seq<char>,
    pub rname: Seq<char>,
}

impl View for DomainInfo {
    type V = DomainInfoV;

    closed spec fn view(&self) -> DomainInfoV {
        DomainInfoV { mname: self.mname@, rname: self.rname@ }
    }
}

impl DomainInfo {
    /// Builds the SOA parameters from the two names.
    pub fn new(mname: String, rname: String) -> (r: DomainInfo)
        ensures
            r@.mname == mname@,
            r@.rname == rname@,
    {
        DomainInfo { mname, rname }
    }

    /// The primary name server name.
    pub fn mname(&self) -> (r: &str)
        ensures
            r@ == self@.mname,
    {
        self.mname.as_str()
    }

    /// The responsible mailbox name.
    pub fn rname(&self) -> (r: &str)
        ensures
            r@ == self@.rname,
    {
        self.rname.as_str()
    }
}

impl Clone for DomainInfo {
    fn clone(&self) -> (r: DomainInfo)
        ensures
            r == *self,
    {
        DomainInfo { mname: self.mname.clone(), rname: self.rname.clone() }
    }
}

impl PartialEq for DomainInfo {
    fn eq(&self, other: &DomainInfo) -> (r: bool) {
        self.mname == other.mname && self.rname == other.rname
    }
}

impl vstd::std_specs::cmp::PartialEqSpecImpl for DomainInfo {
    open spec fn obeys_eq_spec() -> bool {
        true
    }

    open spec fn eq_spec(&self, other: &DomainInfo) -> bool {
        self@.mname == other@.mname && self@.rname == other@.rname
    }
}

/// The label of a TSIG key: both the key's name and its file name on disk.
#[derive(Debug)]
pub struct KeyFile(String);

impl View for KeyFile {
    type V = Seq<char>;

    closed spec fn view(&self) -> Seq<char> {
        self.0@
    }
}

impl KeyFile {
    /// Wraps the given label.
    pub fn new(s: String) -> (r: KeyFile)
        ensures
            r@ == s@,
    {
        KeyFile(s)
    }

    /// The textual form of the label.
    pub fn as_str(&self) -> (r: &str)
        ensures
            r@ == self@,
    {
        self.0.as_str()
    }

    /// The path of the key's file under the TSIG directory.
    pub fn as_pathbuf(&self) -> (r: String)
        ensures
            r@ == "/etc/dnsr/keys/"@ + self@,
    {
        let base = String::from_str("/etc/dnsr/keys/");
        base.concat(self.0.as_str())
    }
}

impl Clone for KeyFile {
    fn clone(&self) -> (r: KeyFile)
        ensures
            r == *self,
    {
        KeyFile(self.0.clone())
    }
}

impl PartialEq for KeyFile {
    fn eq(&self, other: &KeyFile) -> (r: bool) {
        self.0 == other.0
    }
}

impl vstd::std_specs::cmp::PartialEqSpecImpl for KeyFile {
    open spec fn obeys_eq_spec() -> bool {
        true
    }

    open spec fn eq_spec(&self, other: &KeyFile) -> bool {
        self@ == other@
    }
}

/// One configured domain under a key: its name and its SOA parameters.
#[derive(Debug)]
pub struct DomainEntry {
    pub name: DomainName,
    pub info: DomainInfo,
}

impl Clone for DomainEntry {
    fn clone(&self) -> (r: DomainEntry)
        ensures
            r == *self,
    {
        DomainEntry { name: self.name.clone(), info: self.info.clone() }
    }
}

/// One configured key: its label and the domains it authorizes.
#[derive(Debug)]
pub struct KeyEntry {
    pub file: KeyFile,
    pub domains: Vec<DomainEntry>,
}

/// The flattened tail of the entries from index `i` on: all their domains,
/// in order.
pub open spec fn flatten_from(entries: Seq<KeyEntry>, i: int) -> Seq<DomainEntry>
    decreases entries.len() - i,
{
    if i < 0 || i >= entries.len() {
        Seq::empty()
    } else {
        entries[i].domains@ + flatten_from(entries, i + 1)
    }
}

/// The `keys:` table of the configuration: each key label with the domains
/// it authorizes.
#[derive(Debug)]
pub struct Keys {
    entries: Vec<KeyEntry>,
}

impl Keys {
    /// The entries as a sequence, for specification purposes.
    pub closed spec fn entries_seq(self) -> Seq<KeyEntry> {
        self.entries@
    }

    /// Well-formed: key labels unique, and domain names unique under each key.
    pub open spec fn wf(self) -> bool {
        (forall|i: int, j: int|
            0 <= i < j < self.entries_seq().len() ==> self.entries_seq()[i].file@
                != self.entries_seq()[j].file@) && (forall|i: int, j: int, k: int|
            0 <= i < self.entries_seq().len() && 0 <= j < k < self.entries_seq()[i].domains@.len()
                ==> self.entries_seq()[i].domains@[j].name@
                != self.entries_seq()[i].domains@[k].name@)
    }

    /// Whether a key of the given label is configured.
    pub open spec fn has_key(self, name: Seq<char>) -> bool {
        exists|i: int| 0 <= i < self.entries_seq().len() && self.entries_seq()[i].file@ == name
    }

    /// Whether the key named `key` authorizes updates of the domain `d`.
    pub open spec fn authorizes(self, key: Seq<char>, d: Seq<char>) -> bool {
        exists|i: int, j: int|
            0 <= i < self.entries_seq().len() && 0 <= j < self.entries_seq()[i].domains@.len()
                && self.entries_seq()[i].file@ == key && self.entries_seq()[i].domains@[j].name@
                == d
    }

    /// All configured domains with their SOA parameters, in order.
    pub open spec fn all_domains(self) -> Seq<DomainEntry> {
        flatten_from(self.entries_seq(), 0)
    }

    /// An empty table.
    pub fn new() -> (r: Keys)
        ensures
            r.entries_seq() == Seq::<KeyEntry>::empty(),
            r.wf(),
    {
        Keys { entries: Vec::new() }
    }

    /// Adds one whole entry; refused if the label is already present.
    pub fn push_entry(&mut self, entry: KeyEntry) -> (r: Result<(), Error>)
        requires
            old(self).wf(),
            forall|j: int, k: int|
                0 <= j < k < entry.domains@.len() ==> entry.domains@[j].name@
                    != entry.domains@[k].name@,
        ensures
            final(self).wf(),
            r is Ok ==> !old(self).has_key(entry.file@) && final(self).entries_seq() == old(
                self,
            ).entries_seq().push(entry),
            r is Err ==> old(self).has_key(entry.file@) && *final(self) == *old(self) && (
            r matches Err(e) && e.kind == ErrorKind::DomainZone),
    {
        let mut i: usize = 0;
        while i < self.entries.len()
            invariant
                old(self).wf(),
                *self == *old(self),
                0 <= i <= self.entries@.len(),
                forall|j: int| 0 <= j < i ==> self.entries@[j].file@ != entry.file@,
            decreases self.entries@.len() - i,
        {
            if self.entries[i].file == entry.file {
                proof {
                    assert(old(self).entries_seq()[i as int].file@ == entry.file@);
                }
                return Err(Error::new(ErrorKind::DomainZone));
            }
            i += 1;
        }
        proof {
            assert(!old(self).has_key(entry.file@)) by {
                if old(self).has_key(entry.file@) {
                    let a = choose|a: int|
                        0 <= a < old(self).entries_seq().len() && old(
                            self,
                        ).entries_seq()[a].file@ == entry.file@;
                    assert(self.entries@[a].file@ != entry.file@);
                }
            }
        }
        let ghost pre = self.entries@;
        self.entries.push(entry);
        proof {
            let post = self.entries@;
            assert forall|a: int, b: int| 0 <= a < b < post.len() implies post[a].file@
                != post[b].file@ by {
                if b < pre.len() {
                    assert(old(self).entries_seq()[a].file@ != old(self).entries_seq()[b].file@);
                } else {
                    assert(post[b] == entry);
                    assert(pre[a].file@ != entry.file@);
                }
            }
            assert forall|a: int, j: int, k: int|
                0 <= a < post.len() && 0 <= j < k < post[a].domains@.len() implies post[
                a
            ].domains@[j].name@ != post[a].domains@[k].name@ by {
                if a < pre.len() {
                    assert(old(self).entries_seq()[a].domains@[j].name@ != old(
                        self,
                    ).entries_seq()[a].domains@[k].name@);
                } else {
                    assert(post[a] == entry);
                }
            }
        }
        Ok(())
    }

    /// The labels of all configured keys, in order.
    pub fn keys(&self) -> (r: Vec<KeyFile>)
        ensures
            r@.len() == self.entries_seq().len(),
            forall|i: int| 0 <= i < r@.len() ==> r@[i]@ == self.entries_seq()[i].file@,
    {
        let mut out: Vec<KeyFile> = Vec::new();
        let mut i: usize = 0;
        while i < self.entries.len()
            invariant
                0 <= i <= self.entries@.len(),
                out@.len() == i,
                forall|j: int| 0 <= j < i ==> out@[j]@ == self.entries@[j].file@,
            decreases self.entries@.len() - i,
        {
            out.push(self.entries[i].file.clone());
            i += 1;
        }
        out
    }

    /// All configured domains with their SOA parameters, flattened in order.
    pub fn domains(&self) -> (r: Vec<DomainEntry>)
        ensures
            r@ == self.all_domains(),
    {
        let mut acc: Vec<DomainEntry> = Vec::new();
        let mut i: usize = self.entries.len();
        while i > 0
            invariant
                0 <= i <= self.entries@.len(),
                acc@ == flatten_from(self.entries@, i as int),
            decreases i,
        {
            i -= 1;
            let chunk = &self.entries[i].domains;
            let mut merged: Vec<DomainEntry> = Vec::new();
            let mut j: usize = 0;
            while j < chunk.len()
                invariant
                    0 <= j <= chunk@.len(),
                    merged@ =~= chunk@.subrange(0, j as int),
                decreases chunk@.len() - j,
            {
                merged.push(chunk[j].clone());
                j += 1;
            }
            assert(merged@ =~= chunk@);
            merged.append(&mut acc);
            acc = merged;
        }
        acc
    }

    /// The entries themselves, for walking.
    pub fn entries(&self) -> (r: &Vec<KeyEntry>)
        ensures
            r@ == self.entries_seq(),
    {
        &self.entries
    }
}

/// A materialized TSIG key: its name and its raw secret. The algorithm is
/// always HMAC-SHA512.
#[derive(Debug)]
pub struct Key {
    name: String,
    secret: Vec<u8>,
}

impl Key {
    /// Builds a key from a name and a raw secret.
    pub fn new(name: String, secret: Vec<u8>) -> (r: Key)
        ensures
            r.spec_name() == name@,
            r.spec_secret() == secret@,
    {
        Key { name, secret }
    }

    /// The key's name, which equals its file label.
    pub fn name(&self) -> (r: &str)
        ensures
            r@ == self.spec_name(),
    {
        self.name.as_str()
    }

    /// The raw secret the MAC is computed with.
    pub fn secret(&self) -> (r: &Vec<u8>)
        ensures
            r@ == self.spec_secret(),
    {
        &self.secret
    }

    /// The key's name, for specification purposes.
    pub closed spec fn spec_name(self) -> Seq<char> {
        self.name@
    }

    /// The key's secret, for specification purposes.
    pub closed spec fn spec_secret(self) -> Seq<u8> {
        self.secret@
    }
}

impl Clone for Key {
    fn clone(&self) -> (r: Key)
        ensures
            r.spec_name() == self.spec_name(),
            r.spec_secret() == self.spec_secret(),
    {
        let mut secret: Vec<u8> = Vec::new();
        let mut i: usize = 0;
        while i < self.secret.len()
            invariant
                0 <= i <= self.secret@.len(),
                secret@ =~= self.secret@.subrange(0, i as int),
            decreases self.secret@.len() - i,
        {
            secret.push(self.secret[i]);
            i += 1;
        }
        assert(secret@ =~= self.secret@);
        Key { name: self.name.clone(), secret }
    }
}

/// The store of materialized TSIG keys, looked up by name. Every entry's
/// name equals the key-file label it was materialized from.
#[derive(Debug)]
pub struct KeyStore {
    keys: Vec<Key>,
}

impl KeyStore {
    /// The stored keys as a sequence, for specification purposes.
    pub closed spec fn keys_seq(self) -> Seq<Key> {
        self.keys@
    }

    /// Well-formed: no two stored keys share a name.
    pub open spec fn wf(self) -> bool {
        forall|i: int, j: int|
            0 <= i < j < self.keys_seq().len() ==> self.keys_seq()[i].spec_name()
                != self.keys_seq()[j].spec_name()
    }

    /// Whether a key of the given name is stored.
    pub open spec fn has_key(self, name: Seq<char>) -> bool {
        exists|i: int| 0 <= i < self.keys_seq().len() && self.keys_seq()[i].spec_name() == name
    }

    /// The stored key of the given name, if any.
    pub open spec fn spec_get(self, name: Seq<char>) -> Key
        recommends
            self.has_key(name),
    {
        self.keys_seq()[choose|i: int|
            0 <= i < self.keys_seq().len() && self.keys_seq()[i].spec_name() == name]
    }

    /// An empty store.
    pub fn new() -> (r: KeyStore)
        ensures
            r.keys_seq() == Seq::<Key>::empty(),
            r.wf(),
    {
        KeyStore { keys: Vec::new() }
    }

    /// Looks a key up by its name.
    pub fn get_key(&self, name: &str) -> (r: Option<&Key>)
        requires
            self.wf(),
        ensures
            match r {
                Some(k) => self.has_key(name@) && *k == self.spec_get(name@) && k.spec_name()
                    == name@,
                None => !self.has_key(name@),
            },
    {
        let mut i: usize = 0;
        while i < self.keys.len()
            invariant
                self.wf(),
                0 <= i <= self.keys@.len(),
                forall|j: int| 0 <= j < i ==> self.keys@[j].spec_name() != name@,
            decreases self.keys@.len() - i,
        {
            let k = &self.keys[i];
            if crate::names::str_eq(k.name(), name) {
                proof {
                    assert(self.keys_seq()[i as int].spec_name() == name@);
                    let a = choose|a: int|
                        0 <= a < self.keys_seq().len() && self.keys_seq()[a].spec_name() == name@;
                    if a != i {
                        if a < i {
                            assert(self.keys_seq()[a].spec_name() != self.keys_seq()[
                                i as int
                            ].spec_name());
                        } else {
                            assert(self.keys_seq()[i as int].spec_name() != self.keys_seq()[
                                a
                            ].spec_name());
                        }
                    }
                }
                return Some(k);
            }
            i += 1;
        }
        None
    }

    /// Removes the key of the given label. Returns whether it was stored;
    /// when it was, its backing file is due for deletion by the caller.
    pub fn remove_key(&mut self, key: &KeyFile) -> (removed: bool)
        requires
            old(self).wf(),
        ensures
            final(self).wf(),
            removed == old(self).has_key(key@),
            !final(self).has_key(key@),
            forall|n: Seq<char>|
                n != key@ ==> #[trigger] final(self).has_key(n) == old(self).has_key(n),
            forall|n: Seq<char>|
                n != key@ && final(self).has_key(n) ==> #[trigger] final(self).spec_get(n) == old(
                    self,
                ).spec_get(n),
    {
        let mut i: usize = 0;
        while i < self.keys.len()
            invariant
                old(self).wf(),
                *self == *old(self),
                0 <= i <= self.keys@.len(),
                forall|j: int| 0 <= j < i ==> self.keys@[j].spec_name() != key@,
            decreases self.keys@.len() - i,
        {
            if crate::names::str_eq(self.keys[i].name(), key.as_str()) {
                let ghost pre = self.keys@;
                proof {
                    assert(pre[i as int].spec_name() == key@);
                    assert(old(self).keys_seq()[i as int].spec_name() == key@);
                    assert(old(self).has_key(key@));
                    assert forall|a: int, b: int| 0 <= a < b < pre.len() implies pre[a].spec_name()
                        != pre[b].spec_name() by {
                        assert(old(self).keys_seq()[a].spec_name() != old(
                            self,
                        ).keys_seq()[b].spec_name());
                    }
                }
                self.keys.remove(i);
                proof {
                    assert(self.keys@ =~= pre.subrange(0, i as int) + pre.subrange(
                        i as int + 1,
                        pre.len() as int,
                    ));
                    assert forall|a: int| 0 <= a < self.keys@.len() implies self.keys@[a] == (if a
                        < i {
                        pre[a]
                    } else {
                        pre[a + 1]
                    }) by {}
                    assert forall|a: int| 0 <= a < self.keys@.len() implies self.keys@[
                        a
                    ].spec_name() != key@ by {
                        if a < i {
                            assert(pre[a].spec_name() != pre[i as int].spec_name());
                        } else {
                            assert(pre[i as int].spec_name() != pre[a + 1].spec_name());
                        }
                    }
                    assert(!self.has_key(key@)) by {
                        if self.has_key(key@) {
                            let a = choose|a: int|
                                0 <= a < self.keys_seq().len() && self.keys_seq()[a].spec_name()
                                    == key@;
                            assert(self.keys@[a].spec_name() != key@);
                        }
                    }
                    assert forall|n: Seq<char>| n != key@ implies #[trigger] self.has_key(n) == old(
                        self,
                    ).has_key(n) by {
                        if self.has_key(n) {
                            let a = choose|a: int|
                                0 <= a < self.keys_seq().len() && self.keys_seq()[a].spec_name()
                                    == n;
                            if a < i {
                                assert(old(self).keys_seq()[a].spec_name() == n);
                            } else {
                                assert(old(self).keys_seq()[a + 1].spec_name() == n);
                            }
                            assert(old(self).has_key(n));
                        }
                        if old(self).has_key(n) {
                            let a = choose|a: int|
                                0 <= a < old(self).keys_seq().len() && old(
                                    self,
                                ).keys_seq()[a].spec_name() == n;
                            assert(pre[a].spec_name() == n);
                            assert(a != i);
                            if a < i {
                                assert(self.keys_seq()[a].spec_name() == n);
                            } else {
                                assert(self.keys_seq()[a - 1].spec_name() == n);
                            }
                            assert(self.has_key(n));
                        }
                    }
                    assert forall|n: Seq<char>| n != key@ && self.has_key(n) implies #[trigger] self
                        .spec_get(n) == old(self).spec_get(n) by {
                        let a = choose|a: int|
                            0 <= a < self.keys_seq().len() && self.keys_seq()[a].spec_name() == n;
                        assert(self.spec_get(n) == self.keys_seq()[a]);
                        assert(old(self).has_key(n));
                        let b = choose|b: int|
                            0 <= b < old(self).keys_seq().len() && old(
                                self,
                            ).keys_seq()[b].spec_name() == n;
                        assert(old(self).spec_get(n) == old(self).keys_seq()[b]);
                        assert(pre[b].spec_name() == n);
                        assert(b != i);
                        if a < i {
                            assert(self.keys@[a] == pre[a]);
                            if a != b {
                                if a < b {
                                    assert(pre[a].spec_name() != pre[b].spec_name());
                                } else {
                                    assert(pre[b].spec_name() != pre[a].spec_name());
                                }
                            }
                        } else {
                            assert(self.keys@[a] == pre[a + 1]);
                            if a + 1 != b {
                                if a + 1 < b {
                                    assert(pre[a + 1].spec_name() != pre[b].spec_name());
                                } else {
                                    assert(pre[b].spec_name() != pre[a + 1].spec_name());
                                }
                            }
                        }
                    }
                }
                return true;
            }
            i += 1;
        }
        false
    }

    /// Materializes and stores the key of the given label.
    ///
    /// `file` is the content of the key's backing file if one exists. With
    /// no file, a fresh 64-byte secret is drawn and the content to persist
    /// is returned; with a file, its base64 text is decoded into the secret.
    /// A key of the same name already stored is replaced.
    pub fn add_key(&mut self, key: &KeyFile, file: Option<&Vec<u8>>) -> (r: Result<
        Option<Vec<u8>>,
        Error,
    >)
        requires
            old(self).wf(),
        ensures
            final(self).wf(),
            r is Err ==> *final(self) == *old(self),
            r is Ok ==> final(self).has_key(key@) && final(self).spec_get(key@).spec_name()
                == key@,
            r is Ok ==> (forall|n: Seq<char>|
                n != key@ ==> #[trigger] final(self).has_key(n) == old(self).has_key(n)),
            r is Ok ==> (forall|n: Seq<char>|
                n != key@ && final(self).has_key(n) ==> #[trigger] final(self).spec_get(n) == old(
                    self,
                ).spec_get(n)),
            match (r, file) {
                (Ok(out), Some(content)) => out is None && tsig::b64_of(
                    final(self).spec_get(key@).spec_secret(),
                ) == content@,
                (Ok(out), None) => out matches Some(c) && c@ == tsig::b64_of(
                    final(self).spec_get(key@).spec_secret(),
                ) && final(self).spec_get(key@).spec_secret().len() == 64,
                (Err(e), Some(_)) => e.kind == ErrorKind::Base64,
                (Err(e), None) => e.kind == ErrorKind::RingUnspecified,
            },
            // With a file whose text is valid base64, success is owed; only
            // drawing a fresh secret may fail, and only by the generator.
            (file matches Some(content) && (exists|x: Seq<u8>|
                #[trigger] tsig::b64_of(x) == content@)) ==> r is Ok,
    {
        let (k, out) = match file {
            Some(content) => {
                let k = tsig::load_tsig(key, content)?;
                (k, None)
            },
            None => {
                let (k, content) = tsig::generate_new_tsig(key)?;
                (k, Some(content))
            },
        };
        self.remove_key(key);
        let ghost mid = *self;
        let ghost pre = self.keys@;
        self.keys.push(k);
        proof {
            let post = self.keys@;
            assert(post.len() == pre.len() + 1);
            assert forall|a: int| 0 <= a < pre.len() implies post[a] == pre[a] by {}
            assert(post[pre.len() as int] == k);
            assert(k.spec_name() == key@);
            // No stored key kept the removed label, so uniqueness survives the push.
            assert forall|a: int, b: int| 0 <= a < b < post.len() implies post[a].spec_name()
                != post[b].spec_name() by {
                if b < pre.len() {
                    assert(mid.keys_seq()[a].spec_name() != mid.keys_seq()[b].spec_name());
                } else {
                    assert(post[b] == k);
                    if pre[a].spec_name() == key@ {
                        assert(mid.keys_seq()[a].spec_name() == key@);
                        assert(mid.has_key(key@));
                    }
                }
            }
            assert(self.has_key(key@)) by {
                assert(self.keys_seq()[self.keys_seq().len() - 1].spec_name() == key@);
            }
            assert(self.spec_get(key@) == k) by {
                let a = choose|a: int|
                    0 <= a < self.keys_seq().len() && self.keys_seq()[a].spec_name() == key@;
                assert(self.spec_get(key@) == self.keys_seq()[a]);
                if a < pre.len() {
                    assert(mid.keys_seq()[a].spec_name() == key@);
                    assert(mid.has_key(key@));
                }
            }
            assert forall|n: Seq<char>| n != key@ implies #[trigger] self.has_key(n) == old(
                self,
            ).has_key(n) by {
                if self.has_key(n) {
                    let a = choose|a: int|
                        0 <= a < self.keys_seq().len() && self.keys_seq()[a].spec_name() == n;
                    assert(a < pre.len()) by {
                        if a == pre.len() {
                            assert(self.keys_seq()[a] == k);
                        }
                    }
                    assert(mid.keys_seq()[a].spec_name() == n);
                    assert(mid.has_key(n));
                }
                if old(self).has_key(n) {
                    assert(mid.has_key(n));
                    let a = choose|a: int|
                        0 <= a < mid.keys_seq().len() && mid.keys_seq()[a].spec_name() == n;
                    assert(self.keys_seq()[a].spec_name() == n);
                    assert(self.has_key(n));
                }
            }
            assert forall|n: Seq<char>| n != key@ && self.has_key(n) implies #[trigger] self
                .spec_get(n) == old(self).spec_get(n) by {
                let a = choose|a: int|
                    0 <= a < self.keys_seq().len() && self.keys_seq()[a].spec_name() == n;
                assert(self.spec_get(n) == self.keys_seq()[a]);
                assert(a < pre.len());
                assert(mid.keys_seq()[a].spec_name() == n);
                assert(mid.has_key(n));
                let b = choose|b: int|
                    0 <= b < mid.keys_seq().len() && mid.keys_seq()[b].spec_name() == n;
                assert(mid.spec_get(n) == mid.keys_seq()[b]);
                if a != b {
                    if a < b {
                        assert(mid.keys_seq()[a].spec_name() != mid.keys_seq()[b].spec_name());
                    } else {
                        assert(mid.keys_seq()[b].spec_name() != mid.keys_seq()[a].spec_name());
                    }
                }
                assert(mid.spec_get(n) == old(self).spec_get(n));
            }
        }
        Ok(out)
    }
}

/// Splits an old and a new key list into the labels to remove and the
/// labels to add: removed keys are exactly those present before and gone
/// now, added keys exactly those present now and absent before.
pub fn handle_keys_change(old_keys: &Vec<KeyFile>, new_keys: &Vec<KeyFile>) -> (r: (
    Vec<KeyFile>,
    Vec<KeyFile>,
))
    ensures
        forall|n: Seq<char>|
            #[trigger] contains_name(r.0@, n) == (contains_name(old_keys@, n) && !contains_name(
                new_keys@,
                n,
            )),
        forall|n: Seq<char>|
            #[trigger] contains_name(r.1@, n) == (contains_name(new_keys@, n) && !contains_name(
                old_keys@,
                n,
            )),
{
    let removed = filter_absent(old_keys, new_keys);
    let added = filter_absent(new_keys, old_keys);
    (removed, added)
}

/// Whether a key file of the given name occurs in the sequence.
pub open spec fn contains_name(s: Seq<KeyFile>, n: Seq<char>) -> bool {
    exists|i: int| 0 <= i < s.len() && s[i]@ == n
}

/// The elements of `from` whose names do not occur in `except`.
fn filter_absent(from: &Vec<KeyFile>, except: &Vec<KeyFile>) -> (r: Vec<KeyFile>)
    ensures
        forall|n: Seq<char>|
            #[trigger] contains_name(r@, n) == (contains_name(from@, n) && !contains_name(
                except@,
                n,
            )),
{
    let mut out: Vec<KeyFile> = Vec::new();
    let mut i: usize = 0;
    while i < from.len()
        invariant
            0 <= i <= from@.len(),
            forall|n: Seq<char>|
                #[trigger] contains_name(out@, n) == (contains_name(from@.subrange(0, i as int), n)
                    && !contains_name(except@, n)),
        decreases from@.len() - i,
    {
        let ghost pre = out@;
        if !contains_key_file(except, &from[i]) {
            out.push(from[i].clone());
        }
        i += 1;
        proof {
            assert forall|n: Seq<char>| #[trigger] contains_name(out@, n) implies (contains_name(
                from@.subrange(0, i as int),
                n,
            ) && !contains_name(except@, n)) by {
                let a = choose|a: int| 0 <= a < out@.len() && out@[a]@ == n;
                if a < pre.len() {
                    assert(contains_name(pre, n));
                    let b = choose|b: int|
                        0 <= b < from@.subrange(0, i - 1).len() && (#[trigger] from@.subrange(
                            0,
                            i - 1,
                        )[b])@ == n;
                    assert(from@.subrange(0, i as int)[b]@ == n);
                } else {
                    assert(out@[a]@ == from@[i - 1]@);
                    assert(from@.subrange(0, i as int)[i - 1]@ == n);
                }
            }
            assert forall|n: Seq<char>|
                contains_name(from@.subrange(0, i as int), n) && !contains_name(
                    except@,
                    n,
                ) implies #[trigger] contains_name(out@, n) by {
                let b = choose|b: int|
                    0 <= b < from@.subrange(0, i as int).len() && (#[trigger] from@.subrange(
                        0,
                        i as int,
                    )[b])@ == n;
                if b < i - 1 {
                    assert(from@.subrange(0, i - 1)[b]@ == n);
                    assert(contains_name(pre, n));
                    let a = choose|a: int| 0 <= a < pre.len() && pre[a]@ == n;
                    assert(out@[a]@ == n);
                } else {
                    assert(from@[i - 1]@ == n);
                    assert(out@[out@.len() - 1]@ == n);
                }
            }
        }
    }
    assert(from@.subrange(0, from@.len() as int) =~= from@);
    out
}

/// Whether the given key file occurs in the vector, compared by name.
pub fn contains_key_file(v: &Vec<KeyFile>, k: &KeyFile) -> (r: bool)
    ensures
        r == contains_name(v@, k@),
{
    let mut i: usize = 0;
    while i < v.len()
        invariant
            0 <= i <= v@.len(),
            forall|j: int| 0 <= j < i ==> v@[j]@ != k@,
        decreases v@.len() - i,
    {
        if v[i] == *k {
            return true;
        }
        i += 1;
    }
    false
}

} // verus!
