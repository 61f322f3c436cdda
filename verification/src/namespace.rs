//! Session-scoped snapshot of a user's mailbox namespace: an ordered
//! sequence of account views, each with an optional shared prefix and a
//! list of mailboxes carrying subscription, child-presence and
//! special-use state.

use vstd::prelude::*;

verus! {

/// Well-known mailbox role markers.
#[derive(Clone, Copy, PartialEq, Eq, Structural, Debug)]
pub enum SpecialUse {
    All,
    Archive,
    Drafts,
    Junk,
    Sent,
    Trash,
    Flagged,
    Important,
}

/// Attribute tokens emitted on LIST/LSUB lines.
#[derive(Clone, Copy, PartialEq, Eq, Structural, Debug)]
pub enum Attribute {
    HasChildren,
    HasNoChildren,
    NoSelect,
    NoInferiors,
    Subscribed,
    All,
    Archive,
    Drafts,
    Junk,
    Sent,
    Trash,
    Flagged,
    Important,
}

/// The attribute token that announces a special use.
pub fn special_use_attribute(s: SpecialUse) -> (r: Attribute)
    ensures
        r == spec_special_use_attribute(s),
{
    match s {
        SpecialUse::All => Attribute::All,
        SpecialUse::Archive => Attribute::Archive,
        SpecialUse::Drafts => Attribute::Drafts,
        SpecialUse::Junk => Attribute::Junk,
        SpecialUse::Sent => Attribute::Sent,
        SpecialUse::Trash => Attribute::Trash,
        SpecialUse::Flagged => Attribute::Flagged,
        SpecialUse::Important => Attribute::Important,
    }
}

pub open spec fn spec_special_use_attribute(s: SpecialUse) -> Attribute {
    match s {
        SpecialUse::All => Attribute::All,
        SpecialUse::Archive => Attribute::Archive,
        SpecialUse::Drafts => Attribute::Drafts,
        SpecialUse::Junk => Attribute::Junk,
        SpecialUse::Sent => Attribute::Sent,
        SpecialUse::Trash => Attribute::Trash,
        SpecialUse::Flagged => Attribute::Flagged,
        SpecialUse::Important => Attribute::Important,
    }
}

/// One mailbox of an account: its raw name, stable id, and per-mailbox
/// state.
pub struct MailboxEntry {
    pub name: Vec<u8>,
    pub mailbox_id: u32,
    pub is_subscribed: bool,
    pub has_children: bool,
    pub special_use: Option<SpecialUse>,
}

/// One account of the namespace: a personal account has no prefix, a
/// shared account carries one.
pub struct AccountView {
    pub account_id: u32,
    pub prefix: Option<Vec<u8>>,
    pub mailboxes: Vec<MailboxEntry>,
}

/// Mailbox names are unique within an account.
pub open spec fn account_wf(a: AccountView) -> bool {
    forall|i: int, j: int|
        0 <= i < j < a.mailboxes@.len() ==> a.mailboxes@[i].name@ != a.mailboxes@[j].name@
}

/// `child` lies strictly below `parent` in the hierarchy: it begins
/// with `parent` followed by the separator.
pub open spec fn is_strict_descendant(child: Seq<u8>, parent: Seq<u8>) -> bool {
    &&& child.len() > parent.len()
    &&& child.subrange(0, parent.len() as int) == parent
    &&& child[parent.len() as int] == crate::pattern::SEPARATOR
}

/// Some mailbox of the account is subscribed and lies strictly below
/// `name`.
pub open spec fn has_subscribed_descendant(a: AccountView, name: Seq<u8>) -> bool {
    exists|j: int|
        0 <= j < a.mailboxes@.len() && is_strict_descendant(a.mailboxes@[j].name@, name)
            && a.mailboxes@[j].is_subscribed
}

/// Scan the account for a subscribed mailbox strictly below `name`.
pub fn find_subscribed_descendant(a: &AccountView, name: &[u8]) -> (r: bool)
    ensures
        r == has_subscribed_descendant(*a, name@),
{
    let mut j: usize = 0;
    while j < a.mailboxes.len()
        invariant
            j <= a.mailboxes@.len(),
            forall|k: int|
                0 <= k < j ==> !(is_strict_descendant(a.mailboxes@[k].name@, name@)
                    && a.mailboxes@[k].is_subscribed),
        decreases a.mailboxes@.len() - j,
    {
        let m = &a.mailboxes[j];
        if m.is_subscribed && is_descendant_name(m.name.as_slice(), name) {
            return true;
        }
        j = j + 1;
    }
    false
}

/// Byte-wise check that `child` begins with `parent` plus a separator.
fn is_descendant_name(child: &[u8], parent: &[u8]) -> (r: bool)
    ensures
        r == is_strict_descendant(child@, parent@),
{
    if child.len() <= parent.len() {
        return false;
    }
    if child[parent.len()] != crate::pattern::SEPARATOR {
        return false;
    }
    let mut i: usize = 0;
    while i < parent.len()
        invariant
            i <= parent@.len(),
            parent@.len() < child@.len(),
            forall|k: int| 0 <= k < i ==> child@[k] == parent@[k],
        decreases parent@.len() - i,
    {
        if child[i] != parent[i] {
            assert(child@.subrange(0, parent@.len() as int)[i as int] != parent@[i as int]);
            return false;
        }
        i = i + 1;
    }
    assert(child@.subrange(0, parent@.len() as int) =~= parent@);
    true
}

} // verus!
