//! The search filter grammar the session receives and the postfix
//! filter expression the index store consumes.

use vstd::prelude::*;

use crate::mailbox::SeqItem;

verus! {

/// Indexed properties of a message.
#[derive(Clone, Copy, PartialEq, Eq, Structural, Debug)]
pub enum Property {
    Keywords,
    MailboxIds,
    ReceivedAt,
    SentAt,
    Size,
    TextBody,
    Subject,
    From,
    To,
    Cc,
    Bcc,
    Attachments,
    Headers,
    ThreadId,
}

/// A message keyword: a system flag or a user keyword.
#[derive(PartialEq, Eq, Debug)]
pub enum Keyword {
    Answered,
    Deleted,
    Draft,
    Flagged,
    Recent,
    Seen,
    User(Vec<u8>),
}

/// Mathematical image of a keyword.
pub ghost enum KeywordV {
    Answered,
    Deleted,
    Draft,
    Flagged,
    Recent,
    Seen,
    User(Seq<u8>),
}

impl View for Keyword {
    type V = KeywordV;

    open spec fn view(&self) -> KeywordV {
        match self {
            Keyword::Answered => KeywordV::Answered,
            Keyword::Deleted => KeywordV::Deleted,
            Keyword::Draft => KeywordV::Draft,
            Keyword::Flagged => KeywordV::Flagged,
            Keyword::Recent => KeywordV::Recent,
            Keyword::Seen => KeywordV::Seen,
            Keyword::User(b) => KeywordV::User(b@),
        }
    }
}

/// The value a tag bitmap is keyed by.
#[derive(PartialEq, Eq, Debug)]
pub enum TagValue {
    KeywordTag(Keyword),
    Id(u32),
}

pub ghost enum TagValueV {
    KeywordTag(KeywordV),
    Id(u32),
}

impl View for TagValue {
    type V = TagValueV;

    open spec fn view(&self) -> TagValueV {
        match self {
            TagValue::KeywordTag(k) => TagValueV::KeywordTag(k@),
            TagValue::Id(v) => TagValueV::Id(*v),
        }
    }
}

/// One atom of the postfix filter expression handed to the index
/// store. Grouping operators are n-ary and closed by `End`.
pub enum FilterAtom {
    And,
    Or,
    Not,
    End,
    InSet(roaring::RoaringBitmap),
    InBitmap(Property, TagValue),
    HasText(Property, Vec<u8>, u8),
    HasRawText(Property, Vec<u8>),
    Lt(Property, u64),
    Gt(Property, u64),
    Le(Property, u64),
    Ge(Property, u64),
}

/// Mathematical image of a filter atom; a document set in place of the
/// bitmap.
pub ghost enum AtomV {
    And,
    Or,
    Not,
    End,
    InSet(Set<u32>),
    InBitmap(Property, TagValueV),
    HasText(Property, Seq<u8>, u8),
    HasRawText(Property, Seq<u8>),
    Lt(Property, u64),
    Gt(Property, u64),
    Le(Property, u64),
    Ge(Property, u64),
}

impl View for FilterAtom {
    type V = AtomV;

    open spec fn view(&self) -> AtomV {
        match self {
            FilterAtom::And => AtomV::And,
            FilterAtom::Or => AtomV::Or,
            FilterAtom::Not => AtomV::Not,
            FilterAtom::End => AtomV::End,
            FilterAtom::InSet(b) => AtomV::InSet(crate::bitmap::rb_contents(*b)),
            FilterAtom::InBitmap(p, t) => AtomV::InBitmap(*p, t@),
            FilterAtom::HasText(p, t, l) => AtomV::HasText(*p, t@, *l),
            FilterAtom::HasRawText(p, t) => AtomV::HasRawText(*p, t@),
            FilterAtom::Lt(p, v) => AtomV::Lt(*p, *v),
            FilterAtom::Gt(p, v) => AtomV::Gt(*p, *v),
            FilterAtom::Le(p, v) => AtomV::Le(*p, *v),
            FilterAtom::Ge(p, v) => AtomV::Ge(*p, *v),
        }
    }
}

pub open spec fn atom_views(s: Seq<FilterAtom>) -> Seq<AtomV> {
    s.map_values(|a: FilterAtom| a@)
}

/// Group accounting of one atom: an opening operator, a closing `End`,
/// or a leaf.
pub open spec fn atom_open(a: AtomV) -> int {
    if a is And || a is Or || a is Not {
        1
    } else if a is End {
        -1
    } else {
        0
    }
}

/// Net count of open groups over the first `k` atoms.
pub open spec fn open_depth(s: Seq<AtomV>, k: int) -> int
    decreases k,
{
    if k <= 0 {
        0
    } else {
        open_depth(s, k - 1) + atom_open(s[k - 1])
    }
}

/// Every opening operator has its matching `End`: no prefix closes a
/// group that was never opened, and the whole expression closes every
/// group it opens.
pub open spec fn balanced(s: Seq<AtomV>) -> bool {
    &&& open_depth(s, s.len() as int) == 0
    &&& forall|k: int| 0 <= k <= s.len() ==> open_depth(s, k) >= 0
}

proof fn lemma_open_depth_concat(a: Seq<AtomV>, b: Seq<AtomV>, k: int)
    requires
        0 <= k <= a.len() + b.len(),
    ensures
        open_depth(a + b, k) == (if k <= a.len() {
            open_depth(a, k)
        } else {
            open_depth(a, a.len() as int) + open_depth(b, k - a.len())
        }),
    decreases k,
{
    if k > 0 {
        lemma_open_depth_concat(a, b, k - 1);
        assert(open_depth(a + b, k) == open_depth(a + b, k - 1) + atom_open((a + b)[k - 1]));
        if k <= a.len() {
            assert((a + b)[k - 1] == a[k - 1]);
            assert(open_depth(a, k) == open_depth(a, k - 1) + atom_open(a[k - 1]));
        } else {
            assert((a + b)[k - 1] == b[k - 1 - a.len()]);
            assert(open_depth(b, k - a.len()) == open_depth(b, k - a.len() - 1) + atom_open(
                b[k - a.len() - 1],
            ));
            if k - 1 == a.len() {
                assert(open_depth(b, 0) == 0);
                assert(open_depth(a + b, k - 1) == open_depth(a, a.len() as int));
            }
        }
    }
}

/// How the depth of a concatenation decomposes.
pub proof fn lemma_open_depth_concat_pub(a: Seq<AtomV>, b: Seq<AtomV>, k: int)
    requires
        0 <= k <= a.len() + b.len(),
    ensures
        open_depth(a + b, k) == (if k <= a.len() {
            open_depth(a, k)
        } else {
            open_depth(a, a.len() as int) + open_depth(b, k - a.len())
        }),
{
    lemma_open_depth_concat(a, b, k);
}

/// Balance is preserved under concatenation.
pub proof fn lemma_balanced_concat(a: Seq<AtomV>, b: Seq<AtomV>)
    requires
        balanced(a),
        balanced(b),
    ensures
        balanced(a + b),
{
    assert forall|k: int| 0 <= k <= (a + b).len() implies open_depth(a + b, k) >= 0 by {
        lemma_open_depth_concat(a, b, k);
    }
    lemma_open_depth_concat(a, b, a.len() + b.len() as int);
}

/// The parsed IMAP search keys, as the session hands them to the
/// compiler; grouping operators arrive in postfix form already.
pub enum Filter {
    Sequence(Sequence, bool),
    All,
    Answered,
    Bcc(Vec<u8>),
    Before(u64),
    Body(Vec<u8>),
    Cc(Vec<u8>),
    Deleted,
    Draft,
    Flagged,
    From(Vec<u8>),
    Header(Vec<u8>, Vec<u8>),
    Keyword(Vec<u8>),
    Larger(u64),
    On(u64),
    Seen,
    SentBefore(u64),
    SentOn(u64),
    SentSince(u64),
    Since(u64),
    Smaller(u64),
    Subject(Vec<u8>),
    Text(Vec<u8>),
    To(Vec<u8>),
    Unanswered,
    Undeleted,
    Undraft,
    Unflagged,
    Unkeyword(Vec<u8>),
    Unseen,
    And,
    Or,
    Not,
    End,
    Recent,
    New,
    Old,
    Older(u64),
    Younger(u64),
    ModSeq(u64),
    EmailId(Vec<u8>),
    ThreadId(Vec<u8>),
}

/// A message-set argument: the saved search, or a literal sequence
/// set.
pub enum Sequence {
    SavedSearch,
    SequenceSet(Vec<SeqItem>),
}

/// One entry of the backend change log.
#[derive(Clone, Copy, PartialEq, Eq, Structural, Debug)]
pub struct ChangeEntry {
    pub modseq: u64,
    pub id: u64,
}

/// Why a search fails with a tagged NO before it runs.
#[derive(PartialEq, Eq, Debug)]
pub enum SearchError {
    NoSavedSearch,
    DisallowedHeader(Vec<u8>),
    InvalidEmailId(Vec<u8>),
    InvalidThreadId(Vec<u8>),
    TooManyResults,
}

pub ghost enum SearchErrorV {
    NoSavedSearch,
    DisallowedHeader(Seq<u8>),
    InvalidEmailId(Seq<u8>),
    InvalidThreadId(Seq<u8>),
    TooManyResults,
}

impl View for SearchError {
    type V = SearchErrorV;

    open spec fn view(&self) -> SearchErrorV {
        match self {
            SearchError::NoSavedSearch => SearchErrorV::NoSavedSearch,
            SearchError::DisallowedHeader(h) => SearchErrorV::DisallowedHeader(h@),
            SearchError::InvalidEmailId(v) => SearchErrorV::InvalidEmailId(v@),
            SearchError::InvalidThreadId(v) => SearchErrorV::InvalidThreadId(v@),
            SearchError::TooManyResults => SearchErrorV::TooManyResults,
        }
    }
}

} // verus!
