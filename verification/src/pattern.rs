//! IMAP LIST wildcard matching over raw mailbox names.
//!
//! A pattern is a byte string made of literal bytes plus the wildcards
//! `%` (matches zero or more bytes, none of which may be the hierarchy
//! separator `/`) and `*` (matches zero or more arbitrary bytes).
//! Matching is byte-wise and case-sensitive.

use vstd::prelude::*;

verus! {

/// The `*` wildcard: matches any run of bytes, separators included.
pub const WILDCARD_ALL: u8 = 42;

/// The `%` wildcard: matches any run of bytes that stays within one
/// hierarchy level.
pub const WILDCARD_LEVEL: u8 = 37;

/// The mailbox hierarchy separator.
pub const SEPARATOR: u8 = 47;

/// Reference semantics of one pattern against one name.
pub open spec fn pattern_matches(p: Seq<u8>, n: Seq<u8>) -> bool
    decreases p.len() + n.len(),
{
    if p.len() == 0 {
        n.len() == 0
    } else if p[0] == WILDCARD_ALL {
        pattern_matches(p.skip(1), n) || (n.len() > 0 && pattern_matches(p, n.skip(1)))
    } else if p[0] == WILDCARD_LEVEL {
        pattern_matches(p.skip(1), n) || (n.len() > 0 && n[0] != SEPARATOR && pattern_matches(
            p,
            n.skip(1),
        ))
    } else {
        n.len() > 0 && p[0] == n[0] && pattern_matches(p.skip(1), n.skip(1))
    }
}

/// A pattern list matches a name when it is empty or some member matches.
pub open spec fn matches_any(patterns: Seq<Seq<u8>>, name: Seq<u8>) -> bool {
    patterns.len() == 0 || exists|i: int|
        0 <= i < patterns.len() && pattern_matches(patterns[i], name)
}

/// Recursive matcher, equal to `pattern_matches` on the tails at `pi`, `ni`.
fn pattern_match_at(p: &[u8], n: &[u8], pi: usize, ni: usize) -> (r: bool)
    requires
        pi <= p@.len(),
        ni <= n@.len(),
    ensures
        r == pattern_matches(p@.skip(pi as int), n@.skip(ni as int)),
    decreases p@.len() - pi, n@.len() - ni,
{
    if pi == p.len() {
        assert(p@.skip(pi as int) =~= Seq::<u8>::empty());
        ni == n.len()
    } else {
        let c = p[pi];
        assert(p@.skip(pi as int)[0] == c);
        assert(p@.skip(pi as int).skip(1) =~= p@.skip(pi as int + 1));
        if c == WILDCARD_ALL {
            if pattern_match_at(p, n, pi + 1, ni) {
                true
            } else if ni < n.len() {
                assert(n@.skip(ni as int).skip(1) =~= n@.skip(ni as int + 1));
                pattern_match_at(p, n, pi, ni + 1)
            } else {
                false
            }
        } else if c == WILDCARD_LEVEL {
            if pattern_match_at(p, n, pi + 1, ni) {
                true
            } else if ni < n.len() && n[ni] != SEPARATOR {
                assert(n@.skip(ni as int)[0] == n@[ni as int]);
                assert(n@.skip(ni as int).skip(1) =~= n@.skip(ni as int + 1));
                pattern_match_at(p, n, pi, ni + 1)
            } else {
                false
            }
        } else {
            if ni < n.len() && n[ni] == c {
                assert(n@.skip(ni as int)[0] == n@[ni as int]);
                assert(n@.skip(ni as int).skip(1) =~= n@.skip(ni as int + 1));
                pattern_match_at(p, n, pi + 1, ni + 1)
            } else {
                assert(ni < n.len() ==> n@.skip(ni as int)[0] == n@[ni as int]);
                false
            }
        }
    }
}

/// True when the name matches some pattern of the list, or the list is
/// empty, which matches every name.
pub fn matches_pattern(patterns: &Vec<Vec<u8>>, mailbox_name: &[u8]) -> (r: bool)
    ensures
        r == matches_any(patterns.deep_view(), mailbox_name@),
{
    if patterns.is_empty() {
        return true;
    }
    let mut i: usize = 0;
    while i < patterns.len()
        invariant
            i <= patterns@.len(),
            forall|j: int|
                0 <= j < i ==> !pattern_matches(patterns.deep_view()[j], mailbox_name@),
        decreases patterns@.len() - i,
    {
        let p = &patterns[i];
        if pattern_match_at(p.as_slice(), mailbox_name, 0, 0) {
            assert(p@.skip(0) =~= patterns.deep_view()[i as int]);
            assert(mailbox_name@.skip(0) =~= mailbox_name@);
            return true;
        }
        assert(p@.skip(0) =~= patterns.deep_view()[i as int]);
        assert(mailbox_name@.skip(0) =~= mailbox_name@);
        i = i + 1;
    }
    false
}

/// A lone `%` accepts exactly the names that contain no separator: the
/// level wildcard never crosses `/`.
pub proof fn lemma_level_wildcard_stays_in_level(n: Seq<u8>)
    ensures
        pattern_matches(seq![WILDCARD_LEVEL], n) <==> (forall|i: int|
            0 <= i < n.len() ==> n[i] != SEPARATOR),
    decreases n.len(),
{
    let p = seq![WILDCARD_LEVEL];
    assert(p.len() == 1 && p[0] == WILDCARD_LEVEL);
    assert(p.skip(1) =~= Seq::<u8>::empty());
    assert(pattern_matches(p.skip(1), n) == (n.len() == 0));
    if n.len() == 0 {
        assert(pattern_matches(p, n));
    } else {
        lemma_level_wildcard_stays_in_level(n.skip(1));
        assert(forall|i: int| 0 <= i < n.skip(1).len() ==> n.skip(1)[i] == n[i + 1]);
        if pattern_matches(p, n) {
            assert(n[0] != SEPARATOR && pattern_matches(p, n.skip(1)));
            assert(forall|i: int| 0 <= i < n.len() ==> n[i] != SEPARATOR) by {
                assert(forall|i: int| 1 <= i < n.len() ==> n[i] == n.skip(1)[i - 1]);
            }
        }
        if forall|i: int| 0 <= i < n.len() ==> n[i] != SEPARATOR {
            assert(forall|i: int| 0 <= i < n.skip(1).len() ==> n.skip(1)[i] != SEPARATOR);
            assert(n[0] != SEPARATOR && pattern_matches(p, n.skip(1)));
            assert(pattern_matches(p, n));
        }
    }
}

/// A lone `*` accepts every name: the full wildcard may cross `/`.
pub proof fn lemma_full_wildcard_matches_all(n: Seq<u8>)
    ensures
        pattern_matches(seq![WILDCARD_ALL], n),
    decreases n.len(),
{
    let p = seq![WILDCARD_ALL];
    assert(p.len() == 1 && p[0] == WILDCARD_ALL);
    assert(p.skip(1) =~= Seq::<u8>::empty());
    assert(pattern_matches(p.skip(1), n) == (n.len() == 0));
    if n.len() > 0 {
        lemma_full_wildcard_matches_all(n.skip(1));
        assert(pattern_matches(p, n.skip(1)));
    }
}

} // verus!
