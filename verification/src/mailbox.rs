//! State of a selected mailbox: the snapshot mapping between backend
//! document ids and IMAP (uid, seqnum) pairs, sequence-set resolution,
//! and the per-mailbox saved-search slot.

use vstd::prelude::*;

verus! {

/// A message's identity within the selected mailbox.
#[derive(Clone, Copy, PartialEq, Eq, Structural, Debug)]
pub struct ImapId {
    pub uid: u32,
    pub seqnum: u32,
}

/// The selected mailbox: a real mailbox of an account, or the virtual
/// all-mail view when `mailbox_id` is absent.
#[derive(Clone, Copy, PartialEq, Eq, Structural, Debug)]
pub struct MailboxId {
    pub account_id: u32,
    pub mailbox_id: Option<u32>,
}

/// Snapshot of the uid/seqnum numbering: one entry per message, as a
/// pair of its backend document id and its IMAP identity, held in uid
/// order. An optional successor snapshot carries the post-expunge
/// numbering for UID-based recalls to newly delivered messages.
pub struct MailboxState {
    pub entries: Vec<(u32, ImapId)>,
    pub next_state: Option<Box<MailboxState>>,
}

/// Entries are in strictly increasing uid order, seqnums are dense
/// 1..=N in that order, and document ids are unique; the successor
/// snapshot, if any, is well formed too.
pub open spec fn state_wf(s: MailboxState) -> bool
    decreases s,
{
    &&& s.entries@.len() <= u32::MAX
    &&& forall|i: int, j: int|
        0 <= i < j < s.entries@.len() ==> s.entries@[i].0 != s.entries@[j].0
    &&& forall|i: int, j: int|
        0 <= i < j < s.entries@.len() ==> s.entries@[i].1.uid < s.entries@[j].1.uid
    &&& forall|i: int| 0 <= i < s.entries@.len() ==> s.entries@[i].1.seqnum == i + 1
    &&& match s.next_state {
        Some(n) => state_wf(*n),
        None => true,
    }
}

/// The snapshot holds this document.
pub open spec fn has_doc(s: MailboxState, doc: u32) -> bool {
    exists|i: int| 0 <= i < s.entries@.len() && s.entries@[i].0 == doc
}

/// The snapshot maps this document to this IMAP identity.
pub open spec fn maps_doc(s: MailboxState, doc: u32, id: ImapId) -> bool {
    exists|i: int| 0 <= i < s.entries@.len() && s.entries@[i] == (doc, id)
}

/// The successor snapshot, if present, maps this document.
pub open spec fn next_maps_doc(s: MailboxState, doc: u32, id: ImapId) -> bool {
    match s.next_state {
        Some(n) => maps_doc(*n, doc, id),
        None => false,
    }
}

pub open spec fn next_has_doc(s: MailboxState, doc: u32) -> bool {
    match s.next_state {
        Some(n) => has_doc(*n, doc),
        None => false,
    }
}

/// Look a document up in a snapshot's own entries.
fn lookup_doc(entries: &Vec<(u32, ImapId)>, doc: u32) -> (r: Option<ImapId>)
    ensures
        match r {
            Some(id) => exists|i: int|
                0 <= i < entries@.len() && entries@[i] == (doc, id),
            None => forall|i: int| 0 <= i < entries@.len() ==> entries@[i].0 != doc,
        },
{
    let mut i: usize = 0;
    while i < entries.len()
        invariant
            i <= entries@.len(),
            forall|k: int| 0 <= k < i ==> entries@[k].0 != doc,
        decreases entries@.len() - i,
    {
        let e = entries[i];
        if e.0 == doc {
            return Some(e.1);
        }
        i = i + 1;
    }
    None
}

impl MailboxState {
    /// Map a backend document id to the number a search reply reports
    /// (uid or seqnum) together with the full IMAP identity. A
    /// document absent from the snapshot is recalled through the
    /// post-expunge successor, but only under uid numbering.
    pub fn map_result_id(&self, document_id: u32, is_uid: bool) -> (r: Option<(u32, ImapId)>)
        ensures
            match r {
                Some(p) => {
                    &&& p.0 == (if is_uid {
                        p.1.uid
                    } else {
                        p.1.seqnum
                    })
                    &&& (maps_doc(*self, document_id, p.1) || (is_uid && !has_doc(
                        *self,
                        document_id,
                    ) && next_maps_doc(*self, document_id, p.1)))
                },
                None => !has_doc(*self, document_id) && (is_uid ==> !next_has_doc(
                    *self,
                    document_id,
                )),
            },
    {
        match lookup_doc(&self.entries, document_id) {
            Some(imap_id) => Some(
                (
                    if is_uid {
                        imap_id.uid
                    } else {
                        imap_id.seqnum
                    },
                    imap_id,
                ),
            ),
            None => {
                if is_uid {
                    match &self.next_state {
                        Some(n) => {
                            match lookup_doc(&n.entries, document_id) {
                                Some(imap_id) => Some((imap_id.uid, imap_id)),
                                None => None,
                            }
                        },
                        None => None,
                    }
                } else {
                    None
                }
            },
        }
    }
}

/// What `map_result_id` returns, as a mathematical function.
pub open spec fn map_result_spec(s: MailboxState, doc: u32, is_uid: bool) -> Option<(u32, ImapId)> {
    if has_doc(s, doc) {
        let id = choose|id: ImapId| maps_doc(s, doc, id);
        Some(
            (
                if is_uid {
                    id.uid
                } else {
                    id.seqnum
                },
                id,
            ),
        )
    } else if is_uid && next_has_doc(s, doc) {
        let id = choose|id: ImapId| next_maps_doc(s, doc, id);
        Some((id.uid, id))
    } else {
        None
    }
}

/// One element of an IMAP sequence set.
#[derive(Clone, Copy, PartialEq, Eq, Structural, Debug)]
pub enum SeqItem {
    Number(u32),
    Range(u32, u32),
    Star,
    RangeFrom(u32),
}

/// Whether a sequence-set element covers the number `v`, where `max`
/// stands for `*`, the largest number in the mailbox.
pub open spec fn seq_item_covers(it: SeqItem, v: u32, max: u32) -> bool {
    match it {
        SeqItem::Number(n) => v == n,
        SeqItem::Range(a, b) => (a <= v <= b) || (b <= v <= a),
        SeqItem::Star => v == max,
        SeqItem::RangeFrom(a) => (a <= v <= max) || (max <= v <= a),
    }
}

pub open spec fn seq_set_covers(items: Seq<SeqItem>, v: u32, max: u32) -> bool {
    exists|i: int| 0 <= i < items.len() && seq_item_covers(items[i], v, max)
}

fn seq_item_covers_exec(it: &SeqItem, v: u32, max: u32) -> (r: bool)
    ensures
        r == seq_item_covers(*it, v, max),
{
    match it {
        SeqItem::Number(n) => v == *n,
        SeqItem::Range(a, b) => (*a <= v && v <= *b) || (*b <= v && v <= *a),
        SeqItem::Star => v == max,
        SeqItem::RangeFrom(a) => (*a <= v && v <= max) || (max <= v && v <= *a),
    }
}

fn seq_set_covers_exec(items: &Vec<SeqItem>, v: u32, max: u32) -> (r: bool)
    ensures
        r == seq_set_covers(items@, v, max),
{
    let mut i: usize = 0;
    while i < items.len()
        invariant
            i <= items@.len(),
            forall|k: int| 0 <= k < i ==> !seq_item_covers(items@[k], v, max),
        decreases items@.len() - i,
    {
        if seq_item_covers_exec(&items[i], v, max) {
            return true;
        }
        i = i + 1;
    }
    false
}

/// The number `*` stands for under this snapshot: the largest uid, or
/// the message count under seqnum numbering.
pub open spec fn star_value(s: MailboxState, uid_mode: bool) -> u32 {
    if s.entries@.len() == 0 {
        0
    } else if uid_mode {
        s.entries@.last().1.uid
    } else {
        s.entries@.len() as u32
    }
}

/// The document ids of the snapshot's messages covered by a sequence
/// set, in snapshot (uid) order.
pub open spec fn resolve_sequence_spec(
    s: MailboxState,
    items: Seq<SeqItem>,
    uid_mode: bool,
    upto: int,
) -> Seq<u32>
    decreases upto,
{
    if upto <= 0 {
        Seq::empty()
    } else {
        let pre = resolve_sequence_spec(s, items, uid_mode, upto - 1);
        let e = s.entries@[upto - 1];
        let key = if uid_mode {
            e.1.uid
        } else {
            e.1.seqnum
        };
        if seq_set_covers(items, key, star_value(s, uid_mode)) {
            pre.push(e.0)
        } else {
            pre
        }
    }
}

pub open spec fn resolved_sequence(s: MailboxState, items: Seq<SeqItem>, uid_mode: bool) -> Seq<
    u32,
> {
    resolve_sequence_spec(s, items, uid_mode, s.entries@.len() as int)
}

impl MailboxState {
    /// Resolve a literal sequence set to the document ids it covers.
    pub fn sequence_to_ids(&self, items: &Vec<SeqItem>, uid_mode: bool) -> (r: Vec<u32>)
        requires
            state_wf(*self),
        ensures
            r@ == resolved_sequence(*self, items@, uid_mode),
    {
        let max: u32 = if self.entries.len() == 0 {
            0
        } else if uid_mode {
            self.entries[self.entries.len() - 1].1.uid
        } else {
            self.entries.len() as u32
        };
        assert(max == star_value(*self, uid_mode));
        let mut r: Vec<u32> = Vec::new();
        let mut i: usize = 0;
        while i < self.entries.len()
            invariant
                i <= self.entries@.len(),
                max == star_value(*self, uid_mode),
                r@ == resolve_sequence_spec(*self, items@, uid_mode, i as int),
            decreases self.entries@.len() - i,
        {
            let e = self.entries[i];
            let key = if uid_mode {
                e.1.uid
            } else {
                e.1.seqnum
            };
            if seq_set_covers_exec(items, key, max) {
                r.push(e.0);
            }
            i = i + 1;
        }
        r
    }
}

/// Searching a document's own uid under uid numbering finds exactly
/// that document; its seqnum under seqnum numbering does too.
pub proof fn lemma_id_mapping_round_trip(s: MailboxState, i: int)
    requires
        state_wf(s),
        0 <= i < s.entries@.len(),
    ensures
        resolved_sequence(s, seq![SeqItem::Number(s.entries@[i].1.uid)], true) == seq![
            s.entries@[i].0,
        ],
        resolved_sequence(s, seq![SeqItem::Number(s.entries@[i].1.seqnum)], false) == seq![
            s.entries@[i].0,
        ],
{
    lemma_round_trip_upto(s, i, s.entries@.len() as int, true);
    lemma_round_trip_upto(s, i, s.entries@.len() as int, false);
}

proof fn lemma_round_trip_upto(s: MailboxState, i: int, upto: int, uid_mode: bool)
    requires
        state_wf(s),
        0 <= i < s.entries@.len(),
        0 <= upto <= s.entries@.len(),
    ensures
        ({
            let key = if uid_mode {
                s.entries@[i].1.uid
            } else {
                s.entries@[i].1.seqnum
            };
            resolve_sequence_spec(s, seq![SeqItem::Number(key)], uid_mode, upto) == (if i < upto {
                seq![s.entries@[i].0]
            } else {
                Seq::<u32>::empty()
            })
        }),
    decreases upto,
{
    let key = if uid_mode {
        s.entries@[i].1.uid
    } else {
        s.entries@[i].1.seqnum
    };
    let items = seq![SeqItem::Number(key)];
    if upto > 0 {
        lemma_round_trip_upto(s, i, upto - 1, uid_mode);
        let e = s.entries@[upto - 1];
        let ekey = if uid_mode {
            e.1.uid
        } else {
            e.1.seqnum
        };
        assert(seq_set_covers(items, ekey, star_value(s, uid_mode)) == (ekey == key)) by {
            assert(items[0] == SeqItem::Number(key));
            if ekey == key {
                assert(seq_item_covers(items[0], ekey, star_value(s, uid_mode)));
            }
        }
        if upto - 1 != i {
            assert(ekey != key) by {
                if uid_mode {
                    if upto - 1 < i {
                        assert(s.entries@[upto - 1].1.uid < s.entries@[i].1.uid);
                    } else {
                        assert(s.entries@[i].1.uid < s.entries@[upto - 1].1.uid);
                    }
                } else {
                    assert(s.entries@[upto - 1].1.seqnum == upto);
                    assert(s.entries@[i].1.seqnum == i + 1);
                }
            }
        }
        if i < upto {
            assert(resolve_sequence_spec(s, items, uid_mode, upto) =~= seq![s.entries@[i].0]);
        }
    }
}

/// A snapshot maps a document to at most one IMAP identity.
pub proof fn lemma_maps_doc_unique(s: MailboxState, doc: u32, a: ImapId, b: ImapId)
    requires
        state_wf(s),
        maps_doc(s, doc, a),
        maps_doc(s, doc, b),
    ensures
        a == b,
{
    let i = choose|i: int| 0 <= i < s.entries@.len() && s.entries@[i] == (doc, a);
    let j = choose|j: int| 0 <= j < s.entries@.len() && s.entries@[j] == (doc, b);
    if i < j {
        assert(s.entries@[i].0 != s.entries@[j].0);
    } else if j < i {
        assert(s.entries@[j].0 != s.entries@[i].0);
    }
}

/// The successfully mapped ids among the first `upto` search results,
/// in result order, each with its reported number.
pub open spec fn mapped_results_upto(
    s: MailboxState,
    ids: Seq<u32>,
    is_uid: bool,
    upto: int,
) -> Seq<(u32, ImapId)>
    decreases upto,
{
    if upto <= 0 {
        Seq::empty()
    } else {
        let pre = mapped_results_upto(s, ids, is_uid, upto - 1);
        match map_result_spec(s, ids[upto - 1], is_uid) {
            Some(p) => pre.push(p),
            None => pre,
        }
    }
}

pub open spec fn mapped_results(s: MailboxState, ids: Seq<u32>, is_uid: bool) -> Seq<
    (u32, ImapId),
> {
    mapped_results_upto(s, ids, is_uid, ids.len() as int)
}

/// The running minimum by reported number over the mapped results.
pub open spec fn fold_min(init: Option<(u32, ImapId)>, s: Seq<(u32, ImapId)>) -> Option<
    (u32, ImapId),
>
    decreases s.len(),
{
    if s.len() == 0 {
        init
    } else {
        let acc = fold_min(init, s.drop_last());
        let x = s.last();
        match acc {
            Some(p) => if x.0 < p.0 {
                Some(x)
            } else {
                acc
            },
            None => Some(x),
        }
    }
}

/// The running maximum by reported number over the mapped results.
pub open spec fn fold_max(init: Option<(u32, ImapId)>, s: Seq<(u32, ImapId)>) -> Option<
    (u32, ImapId),
>
    decreases s.len(),
{
    if s.len() == 0 {
        init
    } else {
        let acc = fold_max(init, s.drop_last());
        let x = s.last();
        match acc {
            Some(p) => if x.0 > p.0 {
                Some(x)
            } else {
                acc
            },
            None => Some(x),
        }
    }
}

pub open spec fn opt_entry_seq(o: Option<(u32, ImapId)>) -> Seq<(u32, ImapId)> {
    match o {
        Some(p) => seq![p],
        None => Seq::empty(),
    }
}

pub open spec fn firsts(s: Seq<(u32, ImapId)>) -> Seq<u32> {
    s.map_values(|p: (u32, ImapId)| p.0)
}

pub open spec fn seconds(s: Seq<(u32, ImapId)>) -> Seq<ImapId> {
    s.map_values(|p: (u32, ImapId)| p.1)
}

/// The selected mailbox of a session.
pub struct SelectedMailbox {
    pub id: MailboxId,
    pub state: MailboxState,
    pub saved_search: SavedSearch,
}

impl SelectedMailbox {
    /// Map raw search results to reported numbers. Without MIN or MAX
    /// every mapped id is appended (to the saved list too, when one is
    /// kept); with them only the extremal candidates are collected and
    /// appended at the end, min first. `total` counts every mapped id
    /// either way.
    pub fn map_search_results(
        &self,
        ids: &Vec<u32>,
        is_uid: bool,
        find_min: bool,
        find_max: bool,
        min: &mut Option<(u32, ImapId)>,
        max: &mut Option<(u32, ImapId)>,
        total: &mut u32,
        imap_ids: &mut Vec<u32>,
        saved_results: &mut Option<Vec<ImapId>>,
    )
        requires
            state_wf(self.state),
            *old(total) + ids@.len() <= u32::MAX,
        ensures
            ({
                let m = mapped_results(self.state, ids@, is_uid);
                &&& *final(total) == *old(total) + m.len()
                &&& *final(min) == (if find_min {
                    fold_min(*old(min), m)
                } else {
                    *old(min)
                })
                &&& *final(max) == (if find_max {
                    fold_max(*old(max), m)
                } else {
                    *old(max)
                })
                &&& ({
                    let emitted = if find_min || find_max {
                        opt_entry_seq(*final(min)) + opt_entry_seq(*final(max))
                    } else {
                        m
                    };
                    &&& final(imap_ids)@ == old(imap_ids)@ + firsts(emitted)
                    &&& match *old(saved_results) {
                        Some(v) => (*final(saved_results) matches Some(w) && w@ == v@ + seconds(
                            emitted,
                        )),
                        None => *final(saved_results) is None,
                    }
                })
            }),
    {
        let find_min_or_max = find_min || find_max;
        let ghost m = mapped_results(self.state, ids@, is_uid);
        let mut i: usize = 0;
        while i < ids.len()
            invariant
                i <= ids@.len(),
                state_wf(self.state),
                *old(total) + ids@.len() <= u32::MAX,
                find_min_or_max == (find_min || find_max),
                *total == *old(total) + mapped_results_upto(self.state, ids@, is_uid, i as int).len(),
                *min == (if find_min {
                    fold_min(*old(min), mapped_results_upto(self.state, ids@, is_uid, i as int))
                } else {
                    *old(min)
                }),
                *max == (if find_max {
                    fold_max(*old(max), mapped_results_upto(self.state, ids@, is_uid, i as int))
                } else {
                    *old(max)
                }),
                imap_ids@ == (if find_min_or_max {
                    old(imap_ids)@
                } else {
                    old(imap_ids)@ + firsts(
                        mapped_results_upto(self.state, ids@, is_uid, i as int),
                    )
                }),
                match *old(saved_results) {
                    Some(v) => (*saved_results matches Some(w) && w@ == (if find_min_or_max {
                        v@
                    } else {
                        v@ + seconds(mapped_results_upto(self.state, ids@, is_uid, i as int))
                    })),
                    None => *saved_results is None,
                },
            decreases ids@.len() - i,
        {
            let ghost pre = mapped_results_upto(self.state, ids@, is_uid, i as int);
            let document_id = ids[i];
            match self.state.map_result_id(document_id, is_uid) {
                Some(p) => {
                    proof {
                        lemma_map_result_agrees(self.state, document_id, is_uid, p);
                        assert(mapped_results_upto(self.state, ids@, is_uid, i as int + 1)
                            == pre.push(p));
                        assert(pre.len() <= i as int) by {
                            lemma_mapped_results_len(self.state, ids@, is_uid, i as int);
                        }
                    }
                    let (id, imap_id) = p;
                    if find_min_or_max {
                        if find_min {
                            match min {
                                Some(prev) => {
                                    if id < prev.0 {
                                        *min = Some((id, imap_id));
                                    }
                                },
                                None => {
                                    *min = Some((id, imap_id));
                                },
                            }
                        }
                        if find_max {
                            match max {
                                Some(prev) => {
                                    if id > prev.0 {
                                        *max = Some((id, imap_id));
                                    }
                                },
                                None => {
                                    *max = Some((id, imap_id));
                                },
                            }
                        }
                        assert(pre.push(p).drop_last() =~= pre);
                    } else {
                        imap_ids.push(id);
                        if let Some(r) = saved_results {
                            r.push(imap_id);
                        }
                        assert(firsts(pre.push(p)) =~= firsts(pre).push(p.0));
                        assert(seconds(pre.push(p)) =~= seconds(pre).push(p.1));
                        assert(imap_ids@ =~= old(imap_ids)@ + firsts(pre.push(p)));
                    }
                    *total = *total + 1;
                },
                None => {
                    proof {
                        lemma_map_result_agrees_none(self.state, document_id, is_uid);
                        assert(mapped_results_upto(self.state, ids@, is_uid, i as int + 1) == pre);
                    }
                },
            }
            i = i + 1;
        }
        assert(mapped_results_upto(self.state, ids@, is_uid, ids@.len() as int) == m);
        if find_min_or_max {
            if let Some(p) = min {
                imap_ids.push(p.0);
                if let Some(r) = saved_results {
                    r.push(p.1);
                }
            }
            if let Some(p) = max {
                imap_ids.push(p.0);
                if let Some(r) = saved_results {
                    r.push(p.1);
                }
            }
            assert(imap_ids@ =~= old(imap_ids)@ + firsts(
                opt_entry_seq(*min) + opt_entry_seq(*max),
            ));
            proof {
                if *old(saved_results) is Some {
                    let v = (*old(saved_results))->0;
                    assert(*saved_results matches Some(w) && w@ =~= v@ + seconds(
                        opt_entry_seq(*min) + opt_entry_seq(*max),
                    ));
                }
            }
        }
    }
}

pub proof fn lemma_mapped_results_len(s: MailboxState, ids: Seq<u32>, is_uid: bool, upto: int)
    requires
        0 <= upto <= ids.len(),
    ensures
        mapped_results_upto(s, ids, is_uid, upto).len() <= upto,
    decreases upto,
{
    if upto > 0 {
        lemma_mapped_results_len(s, ids, is_uid, upto - 1);
    }
}

/// What `map_result_id` returned is what `map_result_spec` denotes.
proof fn lemma_map_result_agrees(s: MailboxState, doc: u32, is_uid: bool, p: (u32, ImapId))
    requires
        state_wf(s),
        p.0 == (if is_uid {
            p.1.uid
        } else {
            p.1.seqnum
        }),
        maps_doc(s, doc, p.1) || (is_uid && !has_doc(s, doc) && next_maps_doc(s, doc, p.1)),
    ensures
        map_result_spec(s, doc, is_uid) == Some(p),
{
    if maps_doc(s, doc, p.1) {
        assert(has_doc(s, doc)) by {
            let i = choose|i: int| 0 <= i < s.entries@.len() && s.entries@[i] == (doc, p.1);
            assert(s.entries@[i].0 == doc);
        }
        let id = choose|id: ImapId| maps_doc(s, doc, id);
        lemma_maps_doc_unique(s, doc, id, p.1);
    } else {
        let n = s.next_state->0;
        assert(next_has_doc(s, doc)) by {
            let i = choose|i: int| 0 <= i < n.entries@.len() && n.entries@[i] == (doc, p.1);
            assert(n.entries@[i].0 == doc);
        }
        let id = choose|id: ImapId| next_maps_doc(s, doc, id);
        lemma_maps_doc_unique(*n, doc, id, p.1);
    }
}

proof fn lemma_map_result_agrees_none(s: MailboxState, doc: u32, is_uid: bool)
    requires
        state_wf(s),
        !has_doc(s, doc),
        is_uid ==> !next_has_doc(s, doc),
    ensures
        map_result_spec(s, doc, is_uid) is None,
{
}

/// The per-mailbox saved-search slot. A search with RESULT SAVE holds
/// the slot `Pending` while it runs; its outcome is then published, or
/// the previous value restored.
pub enum SavedSearch {
    Empty,
    Pending,
    Saved { items: Vec<ImapId> },
}

impl SavedSearch {
    /// The installed results, if the slot holds any. A `Pending` slot
    /// has none yet: a consumer must wait for the producer's outcome.
    pub fn current_items(&self) -> (r: Option<&Vec<ImapId>>)
        ensures
            match r {
                Some(v) => (self matches SavedSearch::Saved { items } && v@ == items@),
                None => !(self is Saved),
            },
    {
        match self {
            SavedSearch::Saved { items } => Some(items),
            _ => None,
        }
    }

    /// Install the pending marker, handing back the previous value for
    /// a rollback on failure.
    pub fn begin_save(slot: &mut SavedSearch) -> (prev: SavedSearch)
        ensures
            *final(slot) is Pending,
            prev == *old(slot),
    {
        let mut taken = SavedSearch::Pending;
        core::mem::swap(slot, &mut taken);
        taken
    }

    /// Publish a successful search's results.
    pub fn commit_save(slot: &mut SavedSearch, results: Vec<ImapId>)
        ensures
            (*final(slot) matches SavedSearch::Saved { items } && items@ == results@),
    {
        *slot = SavedSearch::Saved { items: results };
    }

    /// Restore the value captured before the search began; a pending
    /// marker from an earlier producer degrades to its published
    /// outcome, which the caller passes in resolved form.
    pub fn rollback_save(slot: &mut SavedSearch, prev: Option<Vec<ImapId>>)
        ensures
            match prev {
                Some(v) => (*final(slot) matches SavedSearch::Saved { items } && items@ == v@),
                None => *final(slot) is Empty,
            },
    {
        match prev {
            Some(v) => {
                *slot = SavedSearch::Saved { items: v };
            },
            None => {
                *slot = SavedSearch::Empty;
            },
        }
    }
}

} // verus!
