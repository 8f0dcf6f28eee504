//! Textual domain names and the helpers the server needs on them.
//!
//! Names are handled in their canonical presentation form: ASCII text,
//! lower case, with labels separated by `.` and absolute names carrying a
//! trailing dot. The challenge-zone convention places every served zone at
//! `_acme-challenge.<domain>.`, and the authorization scope of a TSIG key is
//! the domain that remains once that prefix (and the trailing dot) is
//! stripped again.

use vstd::prelude::*;

verus! {

/// The label every challenge zone is placed under, with its separating dot.
pub open spec fn acme_prefix() -> Seq<char> {
    "_acme-challenge."@
}

/// Whether `s` starts with the challenge label.
pub open spec fn has_acme_prefix(s: Seq<char>) -> bool {
    s.len() >= acme_prefix().len() && s.subrange(0, acme_prefix().len() as int)
        == acme_prefix()
}

/// `s` with a leading challenge label removed, if it carries one.
pub open spec fn strip_acme(s: Seq<char>) -> Seq<char> {
    if has_acme_prefix(s) {
        s.subrange(acme_prefix().len() as int, s.len() as int)
    } else {
        s
    }
}

/// `s` with one trailing dot removed, if it carries one.
pub open spec fn strip_root(s: Seq<char>) -> Seq<char> {
    if s.len() > 0 && s[s.len() - 1] == '.' {
        s.subrange(0, s.len() - 1)
    } else {
        s
    }
}

/// `s` made absolute: unchanged if it already ends in a dot.
pub open spec fn with_root(s: Seq<char>) -> Seq<char> {
    if s.len() > 0 && s[s.len() - 1] == '.' {
        s
    } else {
        s + "."@
    }
}

/// The apex name of the challenge zone serving the configured domain `d`.
pub open spec fn apex_of(d: Seq<char>) -> Seq<char> {
    acme_prefix() + with_root(d)
}

/// The domain a query name authorizes against: the challenge label and the
/// trailing dot stripped away.
pub open spec fn scope_of(q: Seq<char>) -> Seq<char> {
    strip_root(strip_acme(q))
}

/// Whether `q` lies at or under `apex`: equal to it, or ending in
/// `.<apex>` so that the boundary falls between labels.
pub open spec fn name_under(q: Seq<char>, apex: Seq<char>) -> bool {
    q == apex || (q.len() > apex.len() && q[q.len() - apex.len() - 1] == '.'
        && q.subrange(q.len() - apex.len(), q.len() as int) == apex)
}

/// Whether two pieces of text are equal, character for character.
pub fn str_eq(a: &str, b: &str) -> (r: bool)
    ensures
        r == (a@ == b@),
{
    let an = a.unicode_len();
    let bn = b.unicode_len();
    if an != bn {
        assert(a@ != b@) by {
            if a@ == b@ {
                assert(a@.len() == b@.len());
            }
        }
        return false;
    }
    let mut i: usize = 0;
    while i < an
        invariant
            0 <= i <= an,
            an == a@.len(),
            bn == b@.len(),
            an == bn,
            forall|j: int| 0 <= j < i ==> a@[j] == b@[j],
        decreases an - i,
    {
        if a.get_char(i) != b.get_char(i) {
            assert(a@ != b@) by {
                if a@ == b@ {
                    assert(a@[i as int] == b@[i as int]);
                }
            }
            return false;
        }
        i += 1;
    }
    assert(a@ =~= b@);
    true
}

/// Whether `s` starts with the challenge label.
pub fn starts_with_acme(s: &str) -> (r: bool)
    ensures
        r == has_acme_prefix(s@),
{
    let p = "_acme-challenge.";
    proof {
        reveal_strlit("_acme-challenge.");
    }
    let n = s.unicode_len();
    if n < 16 {
        return false;
    }
    let mut i: usize = 0;
    while i < 16
        invariant
            0 <= i <= 16,
            n == s@.len(),
            n >= 16,
            p@ == acme_prefix(),
            p@.len() == 16,
            forall|j: int| 0 <= j < i ==> s@[j] == p@[j],
        decreases 16 - i,
    {
        if s.get_char(i) != p.get_char(i) {
            assert(s@.subrange(0, 16) != acme_prefix()) by {
                assert(s@.subrange(0, 16)[i as int] != acme_prefix()[i as int]);
            }
            return false;
        }
        i += 1;
    }
    assert(s@.subrange(0, 16) =~= acme_prefix());
    true
}

/// `s` with a leading challenge label removed, if it carries one.
pub fn strip_acme_str(s: &str) -> (r: String)
    ensures
        r@ == strip_acme(s@),
{
    proof {
        reveal_strlit("_acme-challenge.");
    }
    if starts_with_acme(s) {
        let n = s.unicode_len();
        let rest = s.substring_char(16, n);
        rest.to_owned()
    } else {
        s.to_owned()
    }
}

/// `s` with one trailing dot removed, if it carries one.
pub fn strip_root_str(s: &str) -> (r: String)
    ensures
        r@ == strip_root(s@),
{
    let n = s.unicode_len();
    if n > 0 && s.get_char(n - 1) == '.' {
        let head = s.substring_char(0, n - 1);
        head.to_owned()
    } else {
        s.to_owned()
    }
}

/// The domain `q` authorizes against: challenge label and trailing dot
/// stripped away.
pub fn scope_str(q: &str) -> (r: String)
    ensures
        r@ == scope_of(q@),
{
    let stripped = strip_acme_str(q);
    strip_root_str(stripped.as_str())
}

/// The apex name of the challenge zone serving the configured domain `d`.
pub fn make_apex(d: &str) -> (r: String)
    ensures
        r@ == apex_of(d@),
{
    let n = d.unicode_len();
    let prefix = String::from_str("_acme-challenge.");
    if n > 0 && d.get_char(n - 1) == '.' {
        prefix.concat(d)
    } else {
        let joined = prefix.concat(d);
        joined.concat(".")
    }
}

/// Whether `q` lies at or under `apex` on a label boundary.
pub fn name_under_str(q: &str, apex: &str) -> (r: bool)
    ensures
        r == name_under(q@, apex@),
{
    let qn = q.unicode_len();
    let an = apex.unicode_len();
    if qn < an {
        assert(!name_under(q@, apex@)) by {
            if q@ == apex@ {
                assert(q@.len() == apex@.len());
            }
        }
        return false;
    }
    let off = qn - an;
    let mut i: usize = 0;
    while i < an
        invariant
            0 <= i <= an,
            qn == q@.len(),
            an == apex@.len(),
            off == qn - an,
            qn >= an,
            forall|j: int| 0 <= j < i ==> q@[off + j] == apex@[j],
        decreases an - i,
    {
        if q.get_char(off + i) != apex.get_char(i) {
            assert(!name_under(q@, apex@)) by {
                if q@ == apex@ {
                    assert(q@.len() == apex@.len());
                    assert(q@[i as int] == apex@[i as int]);
                }
                if qn > an {
                    let tail = q@.subrange(off as int, qn as int);
                    if tail == apex@ {
                        assert(tail[i as int] == apex@[i as int]);
                    }
                }
            }
            return false;
        }
        i += 1;
    }
    if qn == an {
        assert(q@ =~= apex@);
        return true;
    }
    // The suffix matches; the boundary character decides.
    assert(q@.subrange(off as int, qn as int) =~= apex@);
    let boundary = q.get_char(off - 1);
    if boundary == '.' {
        true
    } else {
        assert(!name_under(q@, apex@)) by {
            if q@ == apex@ {
                assert(q@.len() == apex@.len());
            }
        }
        false
    }
}


/// Whether `p` is a prefix of `s`.
pub open spec fn is_prefix(p: Seq<char>, s: Seq<char>) -> bool {
    p.len() <= s.len() && s.subrange(0, p.len() as int) == p
}

/// Whether the text starts with the given prefix.
pub fn str_starts_with(s: &str, p: &str) -> (r: bool)
    ensures
        r == is_prefix(p@, s@),
{
    let sn = s.unicode_len();
    let pn = p.unicode_len();
    if pn > sn {
        return false;
    }
    let mut i: usize = 0;
    while i < pn
        invariant
            0 <= i <= pn,
            sn == s@.len(),
            pn == p@.len(),
            pn <= sn,
            forall|j: int| 0 <= j < i ==> s@[j] == p@[j],
        decreases pn - i,
    {
        if s.get_char(i) != p.get_char(i) {
            assert(!is_prefix(p@, s@)) by {
                if s@.subrange(0, p@.len() as int) == p@ {
                    assert(s@.subrange(0, p@.len() as int)[i as int] == p@[i as int]);
                }
            }
            return false;
        }
        i += 1;
    }
    assert(s@.subrange(0, p@.len() as int) =~= p@);
    true
}

} // verus!
