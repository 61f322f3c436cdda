//! The search filter compiler: translates the parsed IMAP search keys
//! into the postfix filter expression of the index store, resolving
//! sequence sets and the saved search through the mailbox state,
//! keyword and header tokens, temporal windows, and change-log reads
//! for MODSEQ.

use vstd::prelude::*;

use crate::bitmap::{rb_clone, rb_contains, rb_contents, rb_insert, rb_new};
use crate::filter::{
    atom_views, balanced, open_depth, atom_open, lemma_balanced_concat, AtomV, ChangeEntry,
    Filter, FilterAtom, Keyword, KeywordV, Property, SearchError, SearchErrorV, Sequence,
    TagValue, TagValueV,
};
use crate::mailbox::{resolved_sequence, state_wf, ImapId, MailboxState, SeqItem};
use crate::text::{
    decimal_digits, decimal_of, document_id_of, document_of_id, is_id_header, is_id_header_exec,
    lower_of, lowercase_token, parse_base32, parse_rfc_header, parsed_base32, rfc_header_id,
    split_ascii_ws, tokens_from, MAX_TOKEN_LENGTH,
};

verus! {

/// Everything the translation of one search key may depend on.
pub ghost struct CompileCtx {
    pub universe: Set<u32>,
    pub state: MailboxState,
    pub saved: Option<Seq<ImapId>>,
    pub is_uid: bool,
    pub now: u64,
    pub default_language: u8,
    pub change_log: Seq<ChangeEntry>,
}

pub open spec fn saved_view(o: Option<Vec<ImapId>>) -> Option<Seq<ImapId>> {
    match o {
        Some(v) => Some(v@),
        None => None,
    }
}

/// The document of the snapshot entry carrying this uid, if any.
pub open spec fn uid_doc(s: MailboxState, uid: u32) -> Option<u32> {
    if exists|j: int| 0 <= j < s.entries@.len() && s.entries@[j].1.uid == uid {
        let j = choose|j: int| 0 <= j < s.entries@.len() && s.entries@[j].1.uid == uid;
        Some(s.entries@[j].0)
    } else {
        None
    }
}

/// The documents a saved search stands for under the current snapshot:
/// each saved uid translated through the uid map.
pub open spec fn saved_docs_upto(s: MailboxState, items: Seq<ImapId>, k: int) -> Set<u32>
    decreases k,
{
    if k <= 0 {
        Set::empty()
    } else {
        let pre = saved_docs_upto(s, items, k - 1);
        match uid_doc(s, items[k - 1].uid) {
            Some(d) => pre.insert(d),
            None => pre,
        }
    }
}

pub open spec fn saved_docs(s: MailboxState, items: Seq<ImapId>) -> Set<u32> {
    saved_docs_upto(s, items, items.len() as int)
}

proof fn lemma_saved_docs_upto_membership(s: MailboxState, items: Seq<ImapId>, k: int, d: u32)
    requires
        0 <= k <= items.len(),
    ensures
        saved_docs_upto(s, items, k).contains(d) <==> exists|i: int|
            0 <= i < k && #[trigger] uid_doc(s, items[i].uid) == Some(d),
    decreases k,
{
    if k > 0 {
        lemma_saved_docs_upto_membership(s, items, k - 1, d);
        if saved_docs_upto(s, items, k).contains(d) {
            if saved_docs_upto(s, items, k - 1).contains(d) {
            } else {
                assert(uid_doc(s, items[k - 1].uid) == Some(d));
            }
        }
        if exists|i: int| 0 <= i < k && #[trigger] uid_doc(s, items[i].uid) == Some(d) {
            let i = choose|i: int| 0 <= i < k && #[trigger] uid_doc(s, items[i].uid) == Some(d);
            if i < k - 1 {
                assert(saved_docs_upto(s, items, k - 1).contains(d));
            }
        }
    }
}

/// Replaying a saved search reads exactly the saved uids back through
/// the current snapshot: a document is selected if and only if some
/// saved entry's uid maps to it.
pub proof fn lemma_saved_search_replay(s: MailboxState, items: Seq<ImapId>, d: u32)
    ensures
        saved_docs(s, items).contains(d) <==> exists|i: int|
            0 <= i < items.len() && #[trigger] uid_doc(s, items[i].uid) == Some(d),
{
    lemma_saved_docs_upto_membership(s, items, items.len() as int, d);
}

/// The members of a sequence of document ids, as a set.
pub open spec fn seq_elems(s: Seq<u32>) -> Set<u32> {
    Set::new(|v: u32| s.contains(v))
}

/// The documents the change log names at or above a modseq, within
/// the universe.
pub open spec fn modseq_docs_upto(log: Seq<ChangeEntry>, m: u64, universe: Set<u32>, k: int) -> Set<
    u32,
>
    decreases k,
{
    if k <= 0 {
        Set::empty()
    } else {
        let pre = modseq_docs_upto(log, m, universe, k - 1);
        let d = document_of_id(log[k - 1].id);
        if log[k - 1].modseq >= m && universe.contains(d) {
            pre.insert(d)
        } else {
            pre
        }
    }
}

pub open spec fn modseq_docs(log: Seq<ChangeEntry>, m: u64, universe: Set<u32>) -> Set<u32> {
    modseq_docs_upto(log, m, universe, log.len() as int)
}

pub open spec fn kw_atom(k: KeywordV) -> AtomV {
    AtomV::InBitmap(Property::Keywords, TagValueV::KeywordTag(k))
}

pub open spec fn not_kw_atoms(k: KeywordV) -> Seq<AtomV> {
    seq![AtomV::Not, kw_atom(k), AtomV::End]
}

/// Saturating distance into the past for OLDER/YOUNGER.
pub open spec fn ago(now: u64, secs: u64) -> u64 {
    if now >= secs {
        (now - secs) as u64
    } else {
        0
    }
}

/// The search tokens of a header value: each whitespace-separated
/// token short enough to index, prefixed with the header's numeric id;
/// tokens of id-carrying headers keep their case, others are folded.
pub open spec fn prefixed_tokens(hid: u8, is_id: bool, toks: Seq<Seq<u8>>) -> Seq<Seq<u8>>
    decreases toks.len(),
{
    if toks.len() == 0 {
        Seq::empty()
    } else {
        let pre = prefixed_tokens(hid, is_id, toks.drop_last());
        let t = toks.last();
        if t.len() < MAX_TOKEN_LENGTH {
            pre.push(
                decimal_of(hid as nat) + (if is_id {
                    t
                } else {
                    lower_of(t)
                }),
            )
        } else {
            pre
        }
    }
}

/// The atoms a HEADER key compiles to: a raw-text probe for the bare
/// header id without a value, one probe for a single token, and an
/// n-ary AND group over the tokens otherwise.
pub open spec fn header_atoms(hid: u8, value: Seq<u8>) -> Seq<AtomV> {
    let toks = if value.len() > 0 {
        prefixed_tokens(hid, is_id_header(hid), tokens_from(value, 0))
    } else {
        Seq::empty()
    };
    if toks.len() == 0 {
        seq![AtomV::HasRawText(Property::Headers, decimal_of(hid as nat))]
    } else if toks.len() == 1 {
        seq![AtomV::HasRawText(Property::Headers, toks[0])]
    } else {
        seq![AtomV::And] + toks.map_values(|t: Seq<u8>| AtomV::HasRawText(Property::Headers, t))
            + seq![AtomV::End]
    }
}

/// Why one search key is refused, if it is.
pub open spec fn filter_error(f: Filter, ctx: CompileCtx) -> Option<SearchErrorV> {
    match f {
        Filter::Sequence(seq_arg, _) => match seq_arg {
            Sequence::SavedSearch => if ctx.saved is None {
                Some(SearchErrorV::NoSavedSearch)
            } else {
                None
            },
            Sequence::SequenceSet(_) => None,
        },
        Filter::Header(name, _) => if rfc_header_id(name@) is None {
            Some(SearchErrorV::DisallowedHeader(name@))
        } else {
            None
        },
        Filter::EmailId(v) => if parsed_base32(v@) is None {
            Some(SearchErrorV::InvalidEmailId(v@))
        } else {
            None
        },
        Filter::ThreadId(v) => if parsed_base32(v@) is None {
            Some(SearchErrorV::InvalidThreadId(v@))
        } else {
            None
        },
        _ => None,
    }
}

/// The translation table: the atoms one search key compiles to, when
/// it is not refused.
pub open spec fn filter_atoms(f: Filter, ctx: CompileCtx) -> Seq<AtomV> {
    match f {
        Filter::Sequence(seq_arg, uid_hint) => match seq_arg {
            Sequence::SavedSearch => seq![
                AtomV::InSet(saved_docs(ctx.state, ctx.saved.unwrap())),
            ],
            Sequence::SequenceSet(items) => seq![
                AtomV::InSet(
                    seq_elems(resolved_sequence(ctx.state, items@, ctx.is_uid || uid_hint)),
                ),
            ],
        },
        Filter::All => seq![AtomV::InSet(ctx.universe)],
        Filter::Answered => seq![kw_atom(KeywordV::Answered)],
        Filter::Bcc(t) => seq![AtomV::HasText(Property::Bcc, t@, 0)],
        Filter::Before(d) => seq![AtomV::Lt(Property::ReceivedAt, d)],
        Filter::Body(t) => seq![AtomV::HasText(Property::TextBody, t@, ctx.default_language)],
        Filter::Cc(t) => seq![AtomV::HasText(Property::Cc, t@, 0)],
        Filter::Deleted => seq![kw_atom(KeywordV::Deleted)],
        Filter::Draft => seq![kw_atom(KeywordV::Draft)],
        Filter::Flagged => seq![kw_atom(KeywordV::Flagged)],
        Filter::From(t) => seq![AtomV::HasText(Property::From, t@, 0)],
        Filter::Header(name, value) => header_atoms(rfc_header_id(name@).unwrap(), value@),
        Filter::Keyword(k) => seq![kw_atom(KeywordV::User(k@))],
        Filter::Larger(n) => seq![AtomV::Gt(Property::Size, n)],
        Filter::On(d) => seq![
            AtomV::And,
            AtomV::Ge(Property::ReceivedAt, d),
            AtomV::Lt(Property::ReceivedAt, (d + 86400) as u64),
            AtomV::End,
        ],
        Filter::Seen => seq![kw_atom(KeywordV::Seen)],
        Filter::SentBefore(d) => seq![AtomV::Lt(Property::SentAt, d)],
        Filter::SentOn(d) => seq![
            AtomV::And,
            AtomV::Ge(Property::SentAt, d),
            AtomV::Lt(Property::SentAt, (d + 86400) as u64),
            AtomV::End,
        ],
        Filter::SentSince(d) => seq![AtomV::Ge(Property::SentAt, d)],
        Filter::Since(d) => seq![AtomV::Ge(Property::ReceivedAt, d)],
        Filter::Smaller(n) => seq![AtomV::Lt(Property::Size, n)],
        Filter::Subject(t) => seq![AtomV::HasText(Property::Subject, t@, ctx.default_language)],
        Filter::Text(t) => seq![
            AtomV::Or,
            AtomV::HasText(Property::From, t@, 0),
            AtomV::HasText(Property::To, t@, 0),
            AtomV::HasText(Property::Cc, t@, 0),
            AtomV::HasText(Property::Bcc, t@, 0),
            AtomV::HasText(Property::Subject, t@, ctx.default_language),
            AtomV::HasText(Property::TextBody, t@, ctx.default_language),
            AtomV::HasText(Property::Attachments, t@, ctx.default_language),
            AtomV::End,
        ],
        Filter::To(t) => seq![AtomV::HasText(Property::To, t@, 0)],
        Filter::Unanswered => not_kw_atoms(KeywordV::Answered),
        Filter::Undeleted => not_kw_atoms(KeywordV::Deleted),
        Filter::Undraft => not_kw_atoms(KeywordV::Draft),
        Filter::Unflagged => not_kw_atoms(KeywordV::Flagged),
        Filter::Unkeyword(k) => not_kw_atoms(KeywordV::User(k@)),
        Filter::Unseen => not_kw_atoms(KeywordV::Seen),
        Filter::And => seq![AtomV::And],
        Filter::Or => seq![AtomV::Or],
        Filter::Not => seq![AtomV::Not],
        Filter::End => seq![AtomV::End],
        Filter::Recent => seq![kw_atom(KeywordV::Recent)],
        Filter::New => seq![
            AtomV::And,
            kw_atom(KeywordV::Recent),
            AtomV::Not,
            kw_atom(KeywordV::Seen),
            AtomV::End,
            AtomV::End,
        ],
        Filter::Old => not_kw_atoms(KeywordV::Seen),
        Filter::Older(secs) => seq![AtomV::Le(Property::ReceivedAt, ago(ctx.now, secs))],
        Filter::Younger(secs) => seq![AtomV::Ge(Property::ReceivedAt, ago(ctx.now, secs))],
        Filter::ModSeq(m) => seq![AtomV::InSet(modseq_docs(ctx.change_log, m, ctx.universe))],
        Filter::EmailId(v) => seq![
            AtomV::InSet(Set::empty().insert(document_of_id(parsed_base32(v@).unwrap()))),
        ],
        Filter::ThreadId(v) => seq![
            AtomV::InBitmap(
                Property::ThreadId,
                TagValueV::Id(document_of_id(parsed_base32(v@).unwrap())),
            ),
        ],
    }
}

/// The first refused key among the first `k`, if any.
pub open spec fn first_error_upto(filters: Seq<Filter>, ctx: CompileCtx, k: int) -> Option<
    SearchErrorV,
>
    decreases k,
{
    if k <= 0 {
        None
    } else {
        match first_error_upto(filters, ctx, k - 1) {
            Some(e) => Some(e),
            None => filter_error(filters[k - 1], ctx),
        }
    }
}

pub open spec fn first_error(filters: Seq<Filter>, ctx: CompileCtx) -> Option<SearchErrorV> {
    first_error_upto(filters, ctx, filters.len() as int)
}

/// The concatenated translation of the first `k` keys.
pub open spec fn compiled_upto(filters: Seq<Filter>, ctx: CompileCtx, k: int) -> Seq<AtomV>
    decreases k,
{
    if k <= 0 {
        Seq::empty()
    } else {
        compiled_upto(filters, ctx, k - 1) + filter_atoms(filters[k - 1], ctx)
    }
}

pub open spec fn compiled(filters: Seq<Filter>, ctx: CompileCtx) -> Seq<AtomV> {
    compiled_upto(filters, ctx, filters.len() as int)
}

/// Whether some key asks for MODSEQ, which makes the reply carry the
/// highest modseq.
pub open spec fn wants_modseq_upto(filters: Seq<Filter>, k: int) -> bool {
    exists|i: int| 0 <= i < k && filters[i] is ModSeq
}

pub open spec fn wants_modseq(filters: Seq<Filter>) -> bool {
    wants_modseq_upto(filters, filters.len() as int)
}

/// Date windows must leave room for the day that follows them.
pub open spec fn filters_wf(filters: Seq<Filter>) -> bool {
    forall|i: int|
        0 <= i < filters.len() ==> match #[trigger] filters[i] {
            Filter::On(d) => d + 86400 <= u64::MAX,
            Filter::SentOn(d) => d + 86400 <= u64::MAX,
            _ => true,
        }
}

proof fn lemma_leaves_depth(s: Seq<AtomV>, k: int)
    requires
        0 <= k <= s.len(),
        forall|i: int| 0 <= i < s.len() ==> atom_open(#[trigger] s[i]) == 0,
    ensures
        open_depth(s, k) == 0,
    decreases k,
{
    if k > 0 {
        lemma_leaves_depth(s, k - 1);
    }
}

/// An opening operator, leaf operands, and the closing `End` form a
/// balanced group.
proof fn lemma_group_balanced(op: AtomV, leaves: Seq<AtomV>)
    requires
        atom_open(op) == 1,
        forall|i: int| 0 <= i < leaves.len() ==> atom_open(#[trigger] leaves[i]) == 0,
    ensures
        balanced(seq![op] + leaves + seq![AtomV::End]),
{
    let s = seq![op] + leaves + seq![AtomV::End];
    assert forall|k: int| 0 <= k <= s.len() implies open_depth(s, k) >= 0 && (k == s.len()
        ==> open_depth(s, k) == 0) by {
        lemma_group_depth(op, leaves, k);
    }
}

proof fn lemma_group_depth(op: AtomV, leaves: Seq<AtomV>, k: int)
    requires
        atom_open(op) == 1,
        forall|i: int| 0 <= i < leaves.len() ==> atom_open(#[trigger] leaves[i]) == 0,
        0 <= k <= leaves.len() + 2,
    ensures
        open_depth(seq![op] + leaves + seq![AtomV::End], k) == (if k == 0 {
            0int
        } else if k <= leaves.len() + 1 {
            1int
        } else {
            0int
        }),
    decreases k,
{
    let s = seq![op] + leaves + seq![AtomV::End];
    if k > 0 {
        lemma_group_depth(op, leaves, k - 1);
        if k == 1 {
            assert(s[0] == op);
        } else if k <= leaves.len() + 1 {
            assert(s[k - 1] == leaves[k - 2]);
        } else {
            assert(s[k - 1] == AtomV::End);
        }
    }
}

/// Every search key that is not itself a grouping marker compiles to a
/// balanced span of atoms.
pub proof fn lemma_filter_atoms_balanced(f: Filter, ctx: CompileCtx)
    requires
        filter_error(f, ctx) is None,
        !(f is And),
        !(f is Or),
        !(f is Not),
        !(f is End),
    ensures
        balanced(filter_atoms(f, ctx)),
{
    let s = filter_atoms(f, ctx);
    match f {
        Filter::On(_) | Filter::SentOn(_) => {
            assert(balanced(s)) by {
                lemma_group_balanced(AtomV::And, s.subrange(1, 3));
                assert(seq![AtomV::And] + s.subrange(1, 3) + seq![AtomV::End] =~= s);
            }
        },
        Filter::Text(_) => {
            assert(balanced(s)) by {
                lemma_group_balanced(AtomV::Or, s.subrange(1, 8));
                assert(seq![AtomV::Or] + s.subrange(1, 8) + seq![AtomV::End] =~= s);
            }
        },
        Filter::Unanswered | Filter::Undeleted | Filter::Undraft | Filter::Unflagged
            | Filter::Unkeyword(_) | Filter::Unseen | Filter::Old => {
            assert(balanced(s)) by {
                lemma_group_balanced(AtomV::Not, s.subrange(1, 2));
                assert(seq![AtomV::Not] + s.subrange(1, 2) + seq![AtomV::End] =~= s);
            }
        },
        Filter::New => {
            assert(balanced(s)) by {
                let inner = seq![AtomV::Not, kw_atom(KeywordV::Seen), AtomV::End];
                lemma_group_balanced(AtomV::Not, inner.subrange(1, 2));
                assert(seq![AtomV::Not] + inner.subrange(1, 2) + seq![AtomV::End] =~= inner);
                lemma_group_nested(AtomV::And, seq![kw_atom(KeywordV::Recent)], inner);
                assert(seq![AtomV::And] + (seq![kw_atom(KeywordV::Recent)] + inner) + seq![
                    AtomV::End,
                ] =~= s);
            }
        },
        Filter::Header(name, value) => {
            let hid = rfc_header_id(name@).unwrap();
            let toks = if value@.len() > 0 {
                prefixed_tokens(hid, is_id_header(hid), tokens_from(value@, 0))
            } else {
                Seq::empty()
            };
            if toks.len() == 0 || toks.len() == 1 {
                assert(balanced(s)) by {
                    lemma_leaves_depth(s, 1);
                }
            } else {
                let leaves = toks.map_values(
                    |t: Seq<u8>| AtomV::HasRawText(Property::Headers, t),
                );
                assert(forall|i: int|
                    0 <= i < leaves.len() ==> atom_open(#[trigger] leaves[i]) == 0);
                lemma_group_balanced(AtomV::And, leaves);
                assert(seq![AtomV::And] + leaves + seq![AtomV::End] =~= s);
            }
        },
        _ => {
            assert(s.len() == 1 && atom_open(s[0]) == 0);
            assert(balanced(s)) by {
                lemma_leaves_depth(s, 1);
            }
        },
    }
}

fn push_atom(out: &mut Vec<FilterAtom>, a: FilterAtom)
    ensures
        atom_views(final(out)@) == atom_views(old(out)@).push(a@),
{
    let ghost before = atom_views(out@);
    let ghost av = a@;
    out.push(a);
    assert(atom_views(out@) =~= before.push(av));
}

fn push_kw(out: &mut Vec<FilterAtom>, k: Keyword)
    ensures
        atom_views(final(out)@) == atom_views(old(out)@) + seq![kw_atom(k@)],
{
    let ghost before = atom_views(out@);
    push_atom(out, FilterAtom::InBitmap(Property::Keywords, TagValue::KeywordTag(k)));
    assert(atom_views(out@) =~= before + seq![
        kw_atom(k@),
    ]);
}

fn push_not_kw(out: &mut Vec<FilterAtom>, k: Keyword)
    ensures
        atom_views(final(out)@) == atom_views(old(out)@) + not_kw_atoms(k@),
{
    let ghost before = atom_views(out@);
    push_atom(out, FilterAtom::Not);
    push_kw(out, k);
    push_atom(out, FilterAtom::End);
    assert(atom_views(out@) =~= before + not_kw_atoms(k@));
}

proof fn lemma_seq_elems_take(s: Seq<u32>, k: int)
    requires
        0 <= k < s.len(),
    ensures
        seq_elems(s.take(k + 1)) == seq_elems(s.take(k)).insert(s[k]),
{
    assert forall|v: u32| #[trigger]
        seq_elems(s.take(k + 1)).contains(v) == seq_elems(s.take(k)).insert(s[k]).contains(
            v,
        ) by {
        if s.take(k + 1).contains(v) {
            let i = choose|i: int| 0 <= i < s.take(k + 1).len() && #[trigger] s.take(k + 1)[i] == v;
            if i < k {
                assert(s.take(k)[i] == v);
            } else {
                assert(v == s[k]);
            }
        }
        if s.take(k).contains(v) {
            let i = choose|i: int| 0 <= i < s.take(k).len() && #[trigger] s.take(k)[i] == v;
            assert(s.take(k + 1)[i] == v);
        }
        if v == s[k] {
            assert(s.take(k + 1)[k] == v);
        }
    }
    assert(seq_elems(s.take(k + 1)) =~= seq_elems(s.take(k)).insert(s[k]));
}

/// A roaring bitmap of the listed document ids.
fn bitmap_of_ids(ids: &Vec<u32>) -> (r: roaring::RoaringBitmap)
    ensures
        rb_contents(r) == seq_elems(ids@),
{
    let mut bm = rb_new();
    assert(rb_contents(bm) =~= seq_elems(ids@.take(0)));
    let mut k: usize = 0;
    while k < ids.len()
        invariant
            k <= ids@.len(),
            rb_contents(bm) == seq_elems(ids@.take(k as int)),
        decreases ids@.len() - k,
    {
        rb_insert(&mut bm, ids[k]);
        proof {
            lemma_seq_elems_take(ids@, k as int);
        }
        k = k + 1;
    }
    assert(ids@.take(ids@.len() as int) =~= ids@);
    bm
}

/// Uids are unique in a well-formed snapshot.
proof fn lemma_uid_unique(s: MailboxState, i: int, j: int)
    requires
        state_wf(s),
        0 <= i < s.entries@.len(),
        0 <= j < s.entries@.len(),
        s.entries@[i].1.uid == s.entries@[j].1.uid,
    ensures
        i == j,
{
    if i < j {
        assert(s.entries@[i].1.uid < s.entries@[j].1.uid);
    } else if j < i {
        assert(s.entries@[j].1.uid < s.entries@[i].1.uid);
    }
}

/// Find the document that carries a uid.
fn lookup_uid(s: &MailboxState, uid: u32) -> (r: Option<u32>)
    requires
        state_wf(*s),
    ensures
        r == uid_doc(*s, uid),
{
    let mut i: usize = 0;
    while i < s.entries.len()
        invariant
            i <= s.entries@.len(),
            state_wf(*s),
            forall|k: int| 0 <= k < i ==> s.entries@[k].1.uid != uid,
        decreases s.entries@.len() - i,
    {
        let e = s.entries[i];
        if e.1.uid == uid {
            proof {
                let j = choose|j: int|
                    0 <= j < s.entries@.len() && s.entries@[j].1.uid == uid;
                lemma_uid_unique(*s, i as int, j);
            }
            return Some(e.0);
        }
        i = i + 1;
    }
    None
}

/// The saved search translated to a document bitmap through the
/// current snapshot.
fn saved_search_bitmap(state: &MailboxState, items: &Vec<ImapId>) -> (r: roaring::RoaringBitmap)
    requires
        state_wf(*state),
    ensures
        rb_contents(r) == saved_docs(*state, items@),
{
    let mut bm = rb_new();
    let mut k: usize = 0;
    while k < items.len()
        invariant
            k <= items@.len(),
            state_wf(*state),
            rb_contents(bm) == saved_docs_upto(*state, items@, k as int),
        decreases items@.len() - k,
    {
        match lookup_uid(state, items[k].uid) {
            Some(d) => {
                rb_insert(&mut bm, d);
            },
            None => (),
        }
        k = k + 1;
    }
    bm
}

/// The change-log documents at or above a modseq, within the
/// universe.
fn modseq_bitmap(
    change_log: &Vec<ChangeEntry>,
    m: u64,
    universe: &roaring::RoaringBitmap,
) -> (r: roaring::RoaringBitmap)
    ensures
        rb_contents(r) == modseq_docs(change_log@, m, rb_contents(*universe)),
{
    let mut bm = rb_new();
    let mut k: usize = 0;
    while k < change_log.len()
        invariant
            k <= change_log@.len(),
            rb_contents(bm) == modseq_docs_upto(
                change_log@,
                m,
                rb_contents(*universe),
                k as int,
            ),
        decreases change_log@.len() - k,
    {
        let entry = change_log[k];
        if entry.modseq >= m {
            let d = document_id_of(entry.id);
            if rb_contains(universe, d) {
                rb_insert(&mut bm, d);
            }
        }
        k = k + 1;
    }
    bm
}

/// Build the token probes of a HEADER key.
fn build_header_atoms(out: &mut Vec<FilterAtom>, hid: u8, value: &[u8])
    ensures
        atom_views(final(out)@) == atom_views(old(out)@) + header_atoms(hid, value@),
{
    let ghost base = atom_views(out@);
    let is_id = is_id_header_exec(hid);
    let mut tokens: Vec<Vec<u8>> = Vec::new();
    let ghost spec_toks = if value@.len() > 0 {
        prefixed_tokens(hid, is_id_header(hid), tokens_from(value@, 0))
    } else {
        Seq::<Seq<u8>>::empty()
    };
    if value.len() > 0 {
        let raw = split_ascii_ws(value);
        let ghost raw_dv = raw.deep_view();
        let mut k: usize = 0;
        while k < raw.len()
            invariant
                k <= raw@.len(),
                raw_dv == raw.deep_view(),
                raw_dv.len() == raw@.len(),
                is_id == is_id_header(hid),
                tokens.deep_view() == prefixed_tokens(hid, is_id_header(hid), raw_dv.take(k as int)),
            decreases raw@.len() - k,
        {
            assert(raw_dv.take(k as int + 1).drop_last() =~= raw_dv.take(k as int));
            assert(raw_dv.take(k as int + 1).last() == raw_dv[k as int]);
            let tok = &raw[k];
            assert(tok@ =~= raw_dv[k as int]);
            if tok.len() < MAX_TOKEN_LENGTH {
                let prefix = decimal_digits(hid);
                let body = if is_id {
                    crate::bytes::clone_bytes(tok)
                } else {
                    lowercase_token(tok.as_slice())
                };
                let full = crate::bytes::concat_bytes(prefix.as_slice(), body.as_slice());
                let ghost before = tokens.deep_view();
                tokens.push(full);
                assert(tokens.deep_view() =~~= before.push(
                    decimal_of(hid as nat) + (if is_id_header(hid) {
                        raw_dv[k as int]
                    } else {
                        lower_of(raw_dv[k as int])
                    }),
                ));
            }
            k = k + 1;
        }
        assert(raw_dv.take(raw_dv.len() as int) =~= raw_dv);
        assert(tokens.deep_view() == spec_toks);
    }
    if tokens.len() == 0 {
        push_atom(out, FilterAtom::HasRawText(Property::Headers, decimal_digits(hid)));
        assert(atom_views(out@) =~= base + header_atoms(hid, value@));
    } else if tokens.len() == 1 {
        let t = crate::bytes::clone_bytes(&tokens[0]);
        assert(t@ == spec_toks[0]);
        push_atom(out, FilterAtom::HasRawText(Property::Headers, t));
        assert(atom_views(out@) =~= base + header_atoms(hid, value@));
    } else {
        push_atom(out, FilterAtom::And);
        let ghost toks_dv = tokens.deep_view();
        let mut k: usize = 0;
        while k < tokens.len()
            invariant
                k <= tokens@.len(),
                toks_dv == tokens.deep_view(),
                toks_dv.len() == tokens@.len(),
                atom_views(out@) == base + seq![AtomV::And] + toks_dv.take(k as int).map_values(
                    |t: Seq<u8>| AtomV::HasRawText(Property::Headers, t),
                ),
            decreases tokens@.len() - k,
        {
            let t = crate::bytes::clone_bytes(&tokens[k]);
            assert(t@ =~= toks_dv[k as int]);
            push_atom(out, FilterAtom::HasRawText(Property::Headers, t));
            assert(atom_views(out@) =~= base + seq![AtomV::And] + toks_dv.take(k as int
                + 1).map_values(|t: Seq<u8>| AtomV::HasRawText(Property::Headers, t)));
            k = k + 1;
        }
        assert(toks_dv.take(toks_dv.len() as int) =~= toks_dv);
        push_atom(out, FilterAtom::End);
        assert(atom_views(out@) =~= base + header_atoms(hid, value@));
    }
}

/// Group accounting of one search key.
pub open spec fn filter_open(f: Filter) -> int {
    if f is And || f is Or || f is Not {
        1
    } else if f is End {
        -1
    } else {
        0
    }
}

pub open spec fn filter_depth(filters: Seq<Filter>, k: int) -> int
    decreases k,
{
    if k <= 0 {
        0
    } else {
        filter_depth(filters, k - 1) + filter_open(filters[k - 1])
    }
}

/// The search keys nest their grouping markers properly.
pub open spec fn filters_balanced(filters: Seq<Filter>) -> bool {
    &&& filter_depth(filters, filters.len() as int) == 0
    &&& forall|k: int| 0 <= k <= filters.len() ==> filter_depth(filters, k) >= 0
}

proof fn lemma_prefix_no_error(filters: Seq<Filter>, ctx: CompileCtx, k: int, m: int)
    requires
        0 <= k <= m,
        first_error_upto(filters, ctx, m) is None,
    ensures
        first_error_upto(filters, ctx, k) is None,
        k < m ==> filter_error(filters[k], ctx) is None,
    decreases m,
{
    if k < m {
        lemma_prefix_no_error(filters, ctx, m - 1, m - 1);
        if k < m - 1 {
            lemma_prefix_no_error(filters, ctx, k, m - 1);
        }
    }
}

proof fn lemma_compiled_depth_props(filters: Seq<Filter>, ctx: CompileCtx, k: int)
    requires
        0 <= k <= filters.len(),
        first_error(filters, ctx) is None,
        filters_balanced(filters),
    ensures
        open_depth(compiled_upto(filters, ctx, k), compiled_upto(filters, ctx, k).len() as int)
            == filter_depth(filters, k),
        forall|j: int|
            0 <= j <= compiled_upto(filters, ctx, k).len() ==> open_depth(
                compiled_upto(filters, ctx, k),
                j,
            ) >= 0,
    decreases k,
{
    if k > 0 {
        lemma_compiled_depth_props(filters, ctx, k - 1);
        let pre = compiled_upto(filters, ctx, k - 1);
        let f = filters[k - 1];
        let fa = filter_atoms(f, ctx);
        assert(compiled_upto(filters, ctx, k) == pre + fa);
        lemma_prefix_no_error(filters, ctx, k - 1, filters.len() as int);
        if f is And || f is Or || f is Not || f is End {
            assert(fa.len() == 1 && atom_open(fa[0]) == filter_open(f));
            assert(open_depth(fa, 0) == 0);
            assert(open_depth(fa, 1) == atom_open(fa[0]));
            assert forall|j: int| 0 <= j <= (pre + fa).len() implies open_depth(pre + fa, j)
                >= 0 by {
                crate::filter::lemma_open_depth_concat_pub(pre, fa, j);
                if j > pre.len() {
                    assert(filter_depth(filters, k) >= 0);
                }
            }
            crate::filter::lemma_open_depth_concat_pub(pre, fa, (pre + fa).len() as int);
        } else {
            lemma_filter_atoms_balanced(f, ctx);
            assert forall|j: int| 0 <= j <= (pre + fa).len() implies open_depth(pre + fa, j)
                >= 0 by {
                crate::filter::lemma_open_depth_concat_pub(pre, fa, j);
            }
            crate::filter::lemma_open_depth_concat_pub(pre, fa, (pre + fa).len() as int);
            assert(filter_depth(filters, k) == filter_depth(filters, k - 1));
        }
    }
}

/// The parentheses theorem: well-nested search keys compile to a
/// balanced postfix expression, with the leading universe constraint
/// included.
pub proof fn lemma_compiled_balanced(
    filters: Seq<Filter>,
    ctx: CompileCtx,
    push_universe: bool,
)
    requires
        first_error(filters, ctx) is None,
        filters_balanced(filters),
    ensures
        balanced(
            (if push_universe {
                seq![AtomV::InSet(ctx.universe)]
            } else {
                Seq::<AtomV>::empty()
            }) + compiled(filters, ctx),
        ),
{
    lemma_compiled_depth_props(filters, ctx, filters.len() as int);
    assert(balanced(compiled(filters, ctx)));
    let lead = if push_universe {
        seq![AtomV::InSet(ctx.universe)]
    } else {
        Seq::<AtomV>::empty()
    };
    assert(balanced(lead)) by {
        lemma_leaves_depth(lead, 0);
        if lead.len() > 0 {
            lemma_leaves_depth(lead, 1);
        }
        assert forall|k: int| 0 <= k <= lead.len() implies open_depth(lead, k) >= 0 by {
            lemma_leaves_depth(lead, k);
        }
    }
    lemma_balanced_concat(lead, compiled(filters, ctx));
}

proof fn lemma_first_error_stable(filters: Seq<Filter>, ctx: CompileCtx, k: int, m: int)
    requires
        0 <= k < m <= filters.len(),
        first_error_upto(filters, ctx, k) is None,
        filter_error(filters[k], ctx) is Some,
    ensures
        first_error_upto(filters, ctx, m) == filter_error(filters[k], ctx),
    decreases m,
{
    if m == k + 1 {
    } else {
        lemma_first_error_stable(filters, ctx, k, m - 1);
    }
}

proof fn lemma_wants_modseq_extend(filters: Seq<Filter>, k: int)
    requires
        0 <= k < filters.len(),
    ensures
        wants_modseq_upto(filters, k + 1) == (wants_modseq_upto(filters, k) || filters[k] is ModSeq),
{
    if wants_modseq_upto(filters, k) {
        let w = choose|i: int| 0 <= i < k && filters[i] is ModSeq;
        assert(0 <= w < k + 1 && filters[w] is ModSeq);
    }
    if filters[k] is ModSeq {
        assert(0 <= k < k + 1 && filters[k] is ModSeq);
    }
    if wants_modseq_upto(filters, k + 1) && !(filters[k] is ModSeq) {
        let w = choose|i: int| 0 <= i < k + 1 && filters[i] is ModSeq;
        assert(0 <= w < k && filters[w] is ModSeq);
    }
}

/// Translate the parsed search keys into the index store's postfix
/// expression. For a real mailbox the document universe is pushed
/// first, so that every filter is constrained to it. The flag beside
/// the atoms says whether the reply owes a HIGHESTMODSEQ.
#[verifier::rlimit(80)]
pub fn compile_filters(
    filters: &Vec<Filter>,
    universe: &roaring::RoaringBitmap,
    push_universe: bool,
    state: &MailboxState,
    saved: &Option<Vec<ImapId>>,
    is_uid: bool,
    now: u64,
    default_language: u8,
    change_log: &Vec<ChangeEntry>,
) -> (r: Result<(Vec<FilterAtom>, bool), SearchError>)
    requires
        state_wf(*state),
        filters_wf(filters@),
    ensures
        ({
            let ctx = CompileCtx {
                universe: rb_contents(*universe),
                state: *state,
                saved: saved_view(*saved),
                is_uid,
                now,
                default_language,
                change_log: change_log@,
            };
            match r {
                Ok(p) => {
                    &&& first_error(filters@, ctx) is None
                    &&& atom_views(p.0@) == (if push_universe {
                        seq![AtomV::InSet(ctx.universe)]
                    } else {
                        Seq::<AtomV>::empty()
                    }) + compiled(filters@, ctx)
                    &&& p.1 == wants_modseq(filters@)
                },
                Err(e) => first_error(filters@, ctx) == Some(e@),
            }
        }),
{
    let ghost ctx = CompileCtx {
        universe: rb_contents(*universe),
        state: *state,
        saved: saved_view(*saved),
        is_uid,
        now,
        default_language,
        change_log: change_log@,
    };
    let mut out: Vec<FilterAtom> = Vec::new();
    if push_universe {
        push_atom(&mut out, FilterAtom::InSet(rb_clone(universe)));
    }
    let ghost lead = atom_views(out@);
    assert(lead =~= (if push_universe {
        seq![AtomV::InSet(ctx.universe)]
    } else {
        Seq::<AtomV>::empty()
    }));
    let mut include_modseq = false;
    let mut i: usize = 0;
    while i < filters.len()
        invariant
            i <= filters@.len(),
            state_wf(*state),
            filters_wf(filters@),
            ctx == (CompileCtx {
                universe: rb_contents(*universe),
                state: *state,
                saved: saved_view(*saved),
                is_uid,
                now,
                default_language,
                change_log: change_log@,
            }),
            first_error_upto(filters@, ctx, i as int) is None,
            atom_views(out@) == lead + compiled_upto(filters@, ctx, i as int),
            include_modseq == wants_modseq_upto(filters@, i as int),
        decreases filters@.len() - i,
    {
        let ghost before = atom_views(out@);
        let ghost f = filters@[i as int];
        proof {
            lemma_wants_modseq_extend(filters@, i as int);
        }
        match &filters[i] {
            Filter::Sequence(seq_arg, uid_hint) => {
                match seq_arg {
                    Sequence::SavedSearch => {
                        match saved {
                            Some(items) => {
                                let bm = saved_search_bitmap(state, items);
                                push_atom(&mut out, FilterAtom::InSet(bm));
                            },
                            None => {
                                proof {
                                    lemma_first_error_stable(
                                        filters@,
                                        ctx,
                                        i as int,
                                        filters@.len() as int,
                                    );
                                }
                                return Err(SearchError::NoSavedSearch);
                            },
                        }
                    },
                    Sequence::SequenceSet(items) => {
                        let uid_mode = is_uid || *uid_hint;
                        let ids = state.sequence_to_ids(items, uid_mode);
                        let bm = bitmap_of_ids(&ids);
                        push_atom(&mut out, FilterAtom::InSet(bm));
                    },
                }
            },
            Filter::All => {
                push_atom(&mut out, FilterAtom::InSet(rb_clone(universe)));
            },
            Filter::Answered => push_kw(&mut out, Keyword::Answered),
            Filter::Bcc(t) => {
                push_atom(
                    &mut out,
                    FilterAtom::HasText(Property::Bcc, crate::bytes::clone_bytes(t), 0),
                );
            },
            Filter::Before(d) => {
                push_atom(&mut out, FilterAtom::Lt(Property::ReceivedAt, *d));
            },
            Filter::Body(t) => {
                push_atom(
                    &mut out,
                    FilterAtom::HasText(
                        Property::TextBody,
                        crate::bytes::clone_bytes(t),
                        default_language,
                    ),
                );
            },
            Filter::Cc(t) => {
                push_atom(
                    &mut out,
                    FilterAtom::HasText(Property::Cc, crate::bytes::clone_bytes(t), 0),
                );
            },
            Filter::Deleted => push_kw(&mut out, Keyword::Deleted),
            Filter::Draft => push_kw(&mut out, Keyword::Draft),
            Filter::Flagged => push_kw(&mut out, Keyword::Flagged),
            Filter::From(t) => {
                push_atom(
                    &mut out,
                    FilterAtom::HasText(Property::From, crate::bytes::clone_bytes(t), 0),
                );
            },
            Filter::Header(name, value) => {
                match parse_rfc_header(name.as_slice()) {
                    Some(hid) => {
                        build_header_atoms(&mut out, hid, value.as_slice());
                    },
                    None => {
                        proof {
                            lemma_first_error_stable(
                                filters@,
                                ctx,
                                i as int,
                                filters@.len() as int,
                            );
                        }
                        return Err(SearchError::DisallowedHeader(crate::bytes::clone_bytes(name)));
                    },
                }
            },
            Filter::Keyword(k) => {
                push_kw(&mut out, Keyword::User(crate::bytes::clone_bytes(k)));
            },
            Filter::Larger(n) => {
                push_atom(&mut out, FilterAtom::Gt(Property::Size, *n));
            },
            Filter::On(d) => {
                push_atom(&mut out, FilterAtom::And);
                push_atom(&mut out, FilterAtom::Ge(Property::ReceivedAt, *d));
                push_atom(&mut out, FilterAtom::Lt(Property::ReceivedAt, *d + 86400));
                push_atom(&mut out, FilterAtom::End);
            },
            Filter::Seen => push_kw(&mut out, Keyword::Seen),
            Filter::SentBefore(d) => {
                push_atom(&mut out, FilterAtom::Lt(Property::SentAt, *d));
            },
            Filter::SentOn(d) => {
                push_atom(&mut out, FilterAtom::And);
                push_atom(&mut out, FilterAtom::Ge(Property::SentAt, *d));
                push_atom(&mut out, FilterAtom::Lt(Property::SentAt, *d + 86400));
                push_atom(&mut out, FilterAtom::End);
            },
            Filter::SentSince(d) => {
                push_atom(&mut out, FilterAtom::Ge(Property::SentAt, *d));
            },
            Filter::Since(d) => {
                push_atom(&mut out, FilterAtom::Ge(Property::ReceivedAt, *d));
            },
            Filter::Smaller(n) => {
                push_atom(&mut out, FilterAtom::Lt(Property::Size, *n));
            },
            Filter::Subject(t) => {
                push_atom(
                    &mut out,
                    FilterAtom::HasText(
                        Property::Subject,
                        crate::bytes::clone_bytes(t),
                        default_language,
                    ),
                );
            },
            Filter::Text(t) => {
                push_atom(&mut out, FilterAtom::Or);
                push_atom(
                    &mut out,
                    FilterAtom::HasText(Property::From, crate::bytes::clone_bytes(t), 0),
                );
                push_atom(
                    &mut out,
                    FilterAtom::HasText(Property::To, crate::bytes::clone_bytes(t), 0),
                );
                push_atom(
                    &mut out,
                    FilterAtom::HasText(Property::Cc, crate::bytes::clone_bytes(t), 0),
                );
                push_atom(
                    &mut out,
                    FilterAtom::HasText(Property::Bcc, crate::bytes::clone_bytes(t), 0),
                );
                push_atom(
                    &mut out,
                    FilterAtom::HasText(
                        Property::Subject,
                        crate::bytes::clone_bytes(t),
                        default_language,
                    ),
                );
                push_atom(
                    &mut out,
                    FilterAtom::HasText(
                        Property::TextBody,
                        crate::bytes::clone_bytes(t),
                        default_language,
                    ),
                );
                push_atom(
                    &mut out,
                    FilterAtom::HasText(
                        Property::Attachments,
                        crate::bytes::clone_bytes(t),
                        default_language,
                    ),
                );
                push_atom(&mut out, FilterAtom::End);
            },
            Filter::To(t) => {
                push_atom(
                    &mut out,
                    FilterAtom::HasText(Property::To, crate::bytes::clone_bytes(t), 0),
                );
            },
            Filter::Unanswered => push_not_kw(&mut out, Keyword::Answered),
            Filter::Undeleted => push_not_kw(&mut out, Keyword::Deleted),
            Filter::Undraft => push_not_kw(&mut out, Keyword::Draft),
            Filter::Unflagged => push_not_kw(&mut out, Keyword::Flagged),
            Filter::Unkeyword(k) => {
                push_not_kw(&mut out, Keyword::User(crate::bytes::clone_bytes(k)));
            },
            Filter::Unseen => push_not_kw(&mut out, Keyword::Seen),
            Filter::And => push_atom(&mut out, FilterAtom::And),
            Filter::Or => push_atom(&mut out, FilterAtom::Or),
            Filter::Not => push_atom(&mut out, FilterAtom::Not),
            Filter::End => push_atom(&mut out, FilterAtom::End),
            Filter::Recent => push_kw(&mut out, Keyword::Recent),
            Filter::New => {
                push_atom(&mut out, FilterAtom::And);
                push_kw(&mut out, Keyword::Recent);
                push_atom(&mut out, FilterAtom::Not);
                push_kw(&mut out, Keyword::Seen);
                push_atom(&mut out, FilterAtom::End);
                push_atom(&mut out, FilterAtom::End);
            },
            Filter::Old => push_not_kw(&mut out, Keyword::Seen),
            Filter::Older(secs) => {
                let cutoff = if now >= *secs {
                    now - *secs
                } else {
                    0
                };
                push_atom(&mut out, FilterAtom::Le(Property::ReceivedAt, cutoff));
            },
            Filter::Younger(secs) => {
                let cutoff = if now >= *secs {
                    now - *secs
                } else {
                    0
                };
                push_atom(&mut out, FilterAtom::Ge(Property::ReceivedAt, cutoff));
            },
            Filter::ModSeq(m) => {
                let bm = modseq_bitmap(change_log, *m, universe);
                push_atom(&mut out, FilterAtom::InSet(bm));
                include_modseq = true;
            },
            Filter::EmailId(v) => {
                match parse_base32(v.as_slice()) {
                    Some(id) => {
                        let mut bm = rb_new();
                        rb_insert(&mut bm, document_id_of(id));
                        push_atom(&mut out, FilterAtom::InSet(bm));
                    },
                    None => {
                        proof {
                            lemma_first_error_stable(
                                filters@,
                                ctx,
                                i as int,
                                filters@.len() as int,
                            );
                        }
                        return Err(SearchError::InvalidEmailId(crate::bytes::clone_bytes(v)));
                    },
                }
            },
            Filter::ThreadId(v) => {
                match parse_base32(v.as_slice()) {
                    Some(id) => {
                        push_atom(
                            &mut out,
                            FilterAtom::InBitmap(
                                Property::ThreadId,
                                TagValue::Id(document_id_of(id)),
                            ),
                        );
                    },
                    None => {
                        proof {
                            lemma_first_error_stable(
                                filters@,
                                ctx,
                                i as int,
                                filters@.len() as int,
                            );
                        }
                        return Err(SearchError::InvalidThreadId(crate::bytes::clone_bytes(v)));
                    },
                }
            },
        }
        assert(atom_views(out@) =~= before + filter_atoms(f, ctx));
        assert(compiled_upto(filters@, ctx, i as int + 1) == compiled_upto(filters@, ctx, i as int)
            + filter_atoms(f, ctx));
        i = i + 1;
    }
    Ok((out, include_modseq))
}

/// A group whose operands are one leaf followed by a balanced span is
/// balanced.
proof fn lemma_group_nested(op: AtomV, leaf: Seq<AtomV>, inner: Seq<AtomV>)
    requires
        atom_open(op) == 1,
        leaf.len() == 1 && atom_open(leaf[0]) == 0,
        balanced(inner),
    ensures
        balanced(seq![op] + (leaf + inner) + seq![AtomV::End]),
{
    let body = leaf + inner;
    let s = seq![op] + body + seq![AtomV::End];
    assert(balanced(leaf)) by {
        lemma_leaves_depth(leaf, 0);
        lemma_leaves_depth(leaf, 1);
        assert forall|k: int| 0 <= k <= leaf.len() implies open_depth(leaf, k) >= 0 by {
            lemma_leaves_depth(leaf, k);
        }
    }
    lemma_balanced_concat(leaf, inner);
    assert forall|k: int| 0 <= k <= s.len() implies open_depth(s, k) >= 0 && (k == s.len()
        ==> open_depth(s, k) == 0) by {
        lemma_nested_depth(op, body, k);
    }
}

proof fn lemma_nested_depth(op: AtomV, body: Seq<AtomV>, k: int)
    requires
        atom_open(op) == 1,
        balanced(body),
        0 <= k <= body.len() + 2,
    ensures
        open_depth(seq![op] + body + seq![AtomV::End], k) == (if k == 0 {
            0int
        } else if k <= body.len() + 1 {
            1 + open_depth(body, k - 1)
        } else {
            0int
        }),
    decreases k,
{
    let s = seq![op] + body + seq![AtomV::End];
    if k > 0 {
        lemma_nested_depth(op, body, k - 1);
        if k == 1 {
            assert(s[0] == op);
        } else if k <= body.len() + 1 {
            assert(s[k - 1] == body[k - 2]);
            assert(open_depth(body, k - 1) == open_depth(body, k - 2) + atom_open(body[k - 2]));
        } else {
            assert(s[k - 1] == AtomV::End);
            assert(open_depth(body, body.len() as int) == 0);
        }
    }
}

} // verus!
