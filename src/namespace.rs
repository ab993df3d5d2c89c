//! Mapping between the keys callers use and the keys stored in the table.

use vstd::prelude::*;
use vstd::string::*;

verus! {

/// The separator that ends every non-empty namespace.
pub open spec fn separator() -> char {
    ':'
}

/// `p` is a prefix of `s`.
pub open spec fn has_prefix(s: Seq<char>, p: Seq<char>) -> bool {
    p.len() <= s.len() && s.subrange(0, p.len() as int) == p
}

/// A namespace as configured: empty stays empty, anything else ends with `:`.
pub open spec fn normalized_namespace(s: Seq<char>) -> Seq<char> {
    if s.len() == 0 {
        s
    } else if s.last() == separator() {
        s
    } else {
        s.push(separator())
    }
}

/// The stored form of a caller's key.
pub open spec fn apply_namespace(ns: Seq<char>, key: Seq<char>) -> Seq<char> {
    if ns.len() == 0 {
        key
    } else {
        ns + key
    }
}

/// The caller's form of a stored key; keys outside the namespace are left as they are.
pub open spec fn strip_namespace(ns: Seq<char>, key: Seq<char>) -> Seq<char> {
    if ns.len() == 0 {
        key
    } else if has_prefix(key, ns) {
        key.subrange(ns.len() as int, key.len() as int)
    } else {
        key
    }
}

/// A stored key belongs to the namespace (every key does when it is empty).
pub open spec fn in_namespace(ns: Seq<char>, key: Seq<char>) -> bool {
    ns.len() == 0 || has_prefix(key, ns)
}

/// Stripping the namespace undoes applying it.
pub proof fn lemma_strip_apply(ns: Seq<char>, key: Seq<char>)
    ensures
        strip_namespace(ns, apply_namespace(ns, key)) == key,
        in_namespace(ns, apply_namespace(ns, key)),
{
    if ns.len() > 0 {
        assert((ns + key).subrange(0, ns.len() as int) =~= ns);
        assert((ns + key).subrange(ns.len() as int, (ns + key).len() as int) =~= key);
    }
}

/// Applying the namespace to a stripped key of the namespace gives the key back.
pub proof fn lemma_apply_strip(ns: Seq<char>, key: Seq<char>)
    requires
        in_namespace(ns, key),
    ensures
        apply_namespace(ns, strip_namespace(ns, key)) == key,
{
    if ns.len() > 0 {
        assert(ns + key.subrange(ns.len() as int, key.len() as int) =~= key);
    }
}

/// Whether `s` starts with `prefix`.
pub fn starts_with(s: &str, prefix: &str) -> (r: bool)
    ensures
        r == has_prefix(s@, prefix@),
{
    let n = prefix.unicode_len();
    let m = s.unicode_len();
    if n > m {
        return false;
    }
    let mut i: usize = 0;
    while i < n
        invariant
            n == prefix@.len(),
            m == s@.len(),
            n <= m,
            i <= n,
            forall|j: int| 0 <= j < i ==> s@[j] == prefix@[j],
        decreases n - i,
    {
        if s.get_char(i) != prefix.get_char(i) {
            assert(s@.subrange(0, n as int)[i as int] != prefix@[i as int]);
            return false;
        }
        i = i + 1;
    }
    assert(s@.subrange(0, n as int) =~= prefix@);
    true
}

/// The namespace as configured from `s`.
pub fn normalize_namespace(s: &str) -> (r: String)
    ensures
        r@ == normalized_namespace(s@),
{
    let n = s.unicode_len();
    if n == 0 {
        String::new()
    } else if s.get_char(n - 1) == ':' {
        s.to_owned()
    } else {
        let mut r = s.to_owned();
        r.append(":");
        proof {
            reveal_strlit(":");
            assert(r@ =~= s@.push(':'));
        }
        r
    }
}

/// The stored form of `key` under namespace `ns`.
pub fn namespaced(ns: &str, key: &str) -> (r: String)
    ensures
        r@ == apply_namespace(ns@, key@),
{
    let mut r = ns.to_owned();
    r.append(key);
    proof {
        if ns@.len() == 0 {
            assert(r@ =~= key@);
        }
    }
    r
}

/// The caller's form of the stored `key` under namespace `ns`.
pub fn stripped(ns: &str, key: &str) -> (r: String)
    ensures
        r@ == strip_namespace(ns@, key@),
{
    if ns.unicode_len() == 0 {
        key.to_owned()
    } else if starts_with(key, ns) {
        let n = ns.unicode_len();
        let m = key.unicode_len();
        key.substring_char(n, m).to_owned()
    } else {
        key.to_owned()
    }
}

} // verus!
