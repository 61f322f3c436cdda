//! An in-memory index store: the abstract capability the search core
//! consumes. It holds the document universe, tag bitmaps, token
//! bitmaps, sorted numeric value indexes and the change log, and
//! evaluates compiled postfix filter expressions over them.

use vstd::prelude::*;

use crate::bitmap::{
    rb_and_assign, rb_clone, rb_contains, rb_contents, rb_insert, rb_is_empty, rb_new,
    rb_or_assign, rb_sub_assign,
};
use crate::filter::{ChangeEntry, Property, TagValue, TagValueV};

verus! {

/// A numeric index entry: an indexed value and the document carrying
/// it.
pub struct ValueEntry {
    pub value: u64,
    pub document_id: u32,
}

/// One property's numeric index, sorted by value then document.
pub struct ValueIndex {
    pub property: Property,
    pub entries: Vec<ValueEntry>,
}

/// One tag bitmap: the documents carrying a value of a property.
pub struct TagBitmap {
    pub property: Property,
    pub value: TagValue,
    pub documents: roaring::RoaringBitmap,
}

/// One token bitmap: the documents whose property contains a token.
pub struct TokenBitmap {
    pub property: Property,
    pub token: Vec<u8>,
    pub documents: roaring::RoaringBitmap,
}

/// The store of one account's message collection.
pub struct IndexStore {
    pub document_ids: roaring::RoaringBitmap,
    pub tags: Vec<TagBitmap>,
    pub tokens: Vec<TokenBitmap>,
    pub values: Vec<ValueIndex>,
    pub change_log: Vec<ChangeEntry>,
}

/// Tag keys, token keys and value properties are unique, and each
/// numeric index is sorted by value then document.
pub open spec fn store_wf(s: IndexStore) -> bool {
    &&& forall|i: int, j: int|
        0 <= i < j < s.tags@.len() ==> !(s.tags@[i].property == s.tags@[j].property
            && s.tags@[i].value@ == s.tags@[j].value@)
    &&& forall|i: int, j: int|
        0 <= i < j < s.tokens@.len() ==> !(s.tokens@[i].property == s.tokens@[j].property
            && s.tokens@[i].token@ == s.tokens@[j].token@)
    &&& forall|i: int, j: int|
        0 <= i < j < s.values@.len() ==> s.values@[i].property != s.values@[j].property
    &&& forall|p: int, i: int, j: int|
        0 <= p < s.values@.len() && 0 <= i < j < s.values@[p].entries@.len() ==> (
        s.values@[p].entries@[i].value < s.values@[p].entries@[j].value || (
        s.values@[p].entries@[i].value == s.values@[p].entries@[j].value
            && s.values@[p].entries@[i].document_id < s.values@[p].entries@[j].document_id))
}

/// The documents tagged with a value of a property.
pub open spec fn tag_docs(s: IndexStore, p: Property, v: TagValueV) -> Set<u32> {
    if exists|i: int|
        0 <= i < s.tags@.len() && s.tags@[i].property == p && s.tags@[i].value@ == v {
        let i = choose|i: int|
            0 <= i < s.tags@.len() && s.tags@[i].property == p && s.tags@[i].value@ == v;
        rb_contents(s.tags@[i].documents)
    } else {
        Set::empty()
    }
}

/// The documents whose property holds a token.
pub open spec fn token_docs(s: IndexStore, p: Property, t: Seq<u8>) -> Set<u32> {
    if exists|i: int|
        0 <= i < s.tokens@.len() && s.tokens@[i].property == p && s.tokens@[i].token@ == t {
        let i = choose|i: int|
            0 <= i < s.tokens@.len() && s.tokens@[i].property == p && s.tokens@[i].token@ == t;
        rb_contents(s.tokens@[i].documents)
    } else {
        Set::empty()
    }
}

/// A property's numeric index, empty when the property has none.
pub open spec fn prop_entries(s: IndexStore, p: Property) -> Seq<ValueEntry> {
    if exists|i: int| 0 <= i < s.values@.len() && s.values@[i].property == p {
        let i = choose|i: int| 0 <= i < s.values@.len() && s.values@[i].property == p;
        s.values@[i].entries@
    } else {
        Seq::empty()
    }
}

/// The comparison a range filter asks for.
#[derive(Clone, Copy, PartialEq, Eq, Structural, Debug)]
pub enum Operator {
    LowerThan,
    LowerEqualThan,
    GreaterThan,
    GreaterEqualThan,
    Equal,
}

pub open spec fn op_matches(op: Operator, value: u64, bound: u64) -> bool {
    match op {
        Operator::LowerThan => value < bound,
        Operator::LowerEqualThan => value <= bound,
        Operator::GreaterThan => value > bound,
        Operator::GreaterEqualThan => value >= bound,
        Operator::Equal => value == bound,
    }
}

/// The documents whose indexed value satisfies the comparison.
pub open spec fn range_docs(s: IndexStore, p: Property, op: Operator, bound: u64) -> Set<u32> {
    Set::new(
        |d: u32|
            exists|j: int|
                0 <= j < prop_entries(s, p).len() && #[trigger] prop_entries(s, p)[j].document_id
                    == d && op_matches(op, prop_entries(s, p)[j].value, bound),
    )
}

fn keyword_eq(a: &crate::filter::Keyword, b: &crate::filter::Keyword) -> (r: bool)
    ensures
        r == (a@ == b@),
{
    match (a, b) {
        (crate::filter::Keyword::Answered, crate::filter::Keyword::Answered) => true,
        (crate::filter::Keyword::Deleted, crate::filter::Keyword::Deleted) => true,
        (crate::filter::Keyword::Draft, crate::filter::Keyword::Draft) => true,
        (crate::filter::Keyword::Flagged, crate::filter::Keyword::Flagged) => true,
        (crate::filter::Keyword::Recent, crate::filter::Keyword::Recent) => true,
        (crate::filter::Keyword::Seen, crate::filter::Keyword::Seen) => true,
        (crate::filter::Keyword::User(x), crate::filter::Keyword::User(y)) => {
            crate::bytes::bytes_eq(x.as_slice(), y.as_slice())
        },
        _ => false,
    }
}

fn tag_value_eq(a: &TagValue, b: &TagValue) -> (r: bool)
    ensures
        r == (a@ == b@),
{
    match (a, b) {
        (TagValue::KeywordTag(x), TagValue::KeywordTag(y)) => keyword_eq(x, y),
        (TagValue::Id(x), TagValue::Id(y)) => *x == *y,
        _ => false,
    }
}

fn find_value_index(values: &Vec<ValueIndex>, p: Property) -> (r: Option<usize>)
    ensures
        match r {
            Some(i) => i < values@.len() && values@[i as int].property == p,
            None => forall|k: int| 0 <= k < values@.len() ==> values@[k].property != p,
        },
{
    let mut i: usize = 0;
    while i < values.len()
        invariant
            i <= values@.len(),
            forall|k: int| 0 <= k < i ==> values@[k].property != p,
        decreases values@.len() - i,
    {
        if values[i].property == p {
            return Some(i);
        }
        i = i + 1;
    }
    None
}

impl IndexStore {
    /// The bitmap tagged with a value of a property, if any.
    pub fn get_tag(&self, p: Property, v: &TagValue) -> (r: Option<roaring::RoaringBitmap>)
        requires
            store_wf(*self),
        ensures
            match r {
                Some(bm) => rb_contents(bm) == tag_docs(*self, p, v@) && tag_docs(*self, p, v@)
                    != Set::<u32>::empty(),
                None => tag_docs(*self, p, v@) == Set::<u32>::empty(),
            },
    {
        let mut i: usize = 0;
        while i < self.tags.len()
            invariant
                i <= self.tags@.len(),
                store_wf(*self),
                forall|k: int|
                    0 <= k < i ==> !(self.tags@[k].property == p && self.tags@[k].value@ == v@),
            decreases self.tags@.len() - i,
        {
            let t = &self.tags[i];
            if t.property == p && tag_value_eq(&t.value, v) {
                proof {
                    let w = choose|w: int|
                        0 <= w < self.tags@.len() && self.tags@[w].property == p
                            && self.tags@[w].value@ == v@;
                    if w != i as int {
                        assert(false);
                    }
                }
                if rb_is_empty(&t.documents) {
                    assert(tag_docs(*self, p, v@) =~= Set::<u32>::empty());
                    return None;
                }
                return Some(rb_clone(&t.documents));
            }
            i = i + 1;
        }
        assert(tag_docs(*self, p, v@) =~= Set::<u32>::empty());
        None
    }

    /// The bitmap of a token of a property, if any.
    pub fn get_token(&self, p: Property, tok: &[u8]) -> (r: Option<roaring::RoaringBitmap>)
        requires
            store_wf(*self),
        ensures
            match r {
                Some(bm) => rb_contents(bm) == token_docs(*self, p, tok@),
                None => token_docs(*self, p, tok@) == Set::<u32>::empty(),
            },
    {
        let mut i: usize = 0;
        while i < self.tokens.len()
            invariant
                i <= self.tokens@.len(),
                store_wf(*self),
                forall|k: int|
                    0 <= k < i ==> !(self.tokens@[k].property == p && self.tokens@[k].token@
                        == tok@),
            decreases self.tokens@.len() - i,
        {
            let t = &self.tokens[i];
            if t.property == p && crate::bytes::bytes_eq(t.token.as_slice(), tok) {
                proof {
                    let w = choose|w: int|
                        0 <= w < self.tokens@.len() && self.tokens@[w].property == p
                            && self.tokens@[w].token@ == tok@;
                    if w != i as int {
                        assert(false);
                    }
                }
                return Some(rb_clone(&t.documents));
            }
            i = i + 1;
        }
        assert(token_docs(*self, p, tok@) =~= Set::<u32>::empty());
        None
    }

    /// The documents of all messages.
    pub fn get_document_ids(&self) -> (r: roaring::RoaringBitmap)
        ensures
            rb_contents(r) == rb_contents(self.document_ids),
    {
        rb_clone(&self.document_ids)
    }

    /// Scan a property's numeric index into the bitmap of documents
    /// whose value satisfies the comparison.
    pub fn range_to_bitmap(&self, p: Property, bound: u64, op: Operator) -> (r:
        roaring::RoaringBitmap)
        requires
            store_wf(*self),
        ensures
            rb_contents(r) == range_docs(*self, p, op, bound),
    {
        let mut bm = rb_new();
        let ghost entries = prop_entries(*self, p);
        let idx = match find_value_index(&self.values, p) {
            Some(i) => i,
            None => {
                assert(entries =~= Seq::<ValueEntry>::empty());
                assert(rb_contents(bm) =~= range_docs(*self, p, op, bound));
                return bm;
            },
        };
        proof {
            let w = choose|w: int| 0 <= w < self.values@.len() && self.values@[w].property == p;
            if w != idx as int {
                assert(false);
            }
            assert(entries == self.values@[idx as int].entries@);
        }
        let list = &self.values[idx];
        let mut j: usize = 0;
        while j < list.entries.len()
            invariant
                j <= list.entries@.len(),
                entries == list.entries@,
                rb_contents(bm) == Set::new(
                    |d: u32|
                        exists|k: int|
                            0 <= k < j && #[trigger] entries[k].document_id == d && op_matches(
                                op,
                                entries[k].value,
                                bound,
                            ),
                ),
            decreases list.entries@.len() - j,
        {
            let e = &list.entries[j];
            let keep = match op {
                Operator::LowerThan => e.value < bound,
                Operator::LowerEqualThan => e.value <= bound,
                Operator::GreaterThan => e.value > bound,
                Operator::GreaterEqualThan => e.value >= bound,
                Operator::Equal => e.value == bound,
            };
            let ghost before = rb_contents(bm);
            if keep {
                rb_insert(&mut bm, e.document_id);
            }
            proof {
                let inv_set = |jj: int|
                    Set::new(
                        |d: u32|
                            exists|k: int|
                                0 <= k < jj && #[trigger] entries[k].document_id == d
                                    && op_matches(op, entries[k].value, bound),
                    );
                assert forall|d: u32| #[trigger]
                    rb_contents(bm).contains(d) == inv_set(j as int + 1).contains(d) by {
                    if rb_contents(bm).contains(d) {
                        if keep && d == entries[j as int].document_id {
                            assert(entries[j as int].document_id == d && op_matches(
                                op,
                                entries[j as int].value,
                                bound,
                            ));
                        } else {
                            assert(before.contains(d));
                            let k = choose|k: int|
                                0 <= k < j && #[trigger] entries[k].document_id == d && op_matches(
                                    op,
                                    entries[k].value,
                                    bound,
                                );
                            assert(0 <= k < j as int + 1);
                        }
                    }
                    if inv_set(j as int + 1).contains(d) {
                        let k = choose|k: int|
                            0 <= k < j as int + 1 && #[trigger] entries[k].document_id == d
                                && op_matches(op, entries[k].value, bound);
                        if k < j {
                            assert(before.contains(d));
                        }
                    }
                }
                assert(rb_contents(bm) =~= inv_set(j as int + 1));
            }
            j = j + 1;
        }
        assert(rb_contents(bm) =~= range_docs(*self, p, op, bound));
        bm
    }
}

/// Fold a batch of optional bitmaps by intersection: absence of any
/// one empties the whole result; the scan stops early once the
/// running intersection is empty.
pub open spec fn intersection_fold(maps: Seq<Option<Set<u32>>>, k: int) -> Option<Set<u32>>
    decreases k,
{
    if k <= 0 {
        None
    } else {
        let pre = intersection_fold(maps, k - 1);
        match pre {
            Some(acc) => if acc == Set::<u32>::empty() && k >= 3 {
                pre
            } else {
                match maps[k - 1] {
                    Some(b) => Some(acc.intersect(b)),
                    None => None,
                }
            },
            None => if k == 1 {
                maps[0]
            } else {
                None
            },
        }
    }
}

pub open spec fn bitmap_opt_views(s: Seq<Option<roaring::RoaringBitmap>>) -> Seq<Option<Set<u32>>> {
    s.map_values(
        |o: Option<roaring::RoaringBitmap>|
            match o {
                Some(b) => Some(rb_contents(b)),
                None => None,
            },
    )
}

proof fn lemma_intersection_fold_none(maps: Seq<Option<Set<u32>>>, k: int, m: int)
    requires
        1 <= k <= m <= maps.len(),
        intersection_fold(maps, k) is None,
    ensures
        intersection_fold(maps, m) is None,
    decreases m,
{
    if m > k {
        lemma_intersection_fold_none(maps, k, m - 1);
    }
}

proof fn lemma_intersection_fold_empty(maps: Seq<Option<Set<u32>>>, k: int, m: int)
    requires
        2 <= k <= m <= maps.len(),
        intersection_fold(maps, k) == Some(Set::<u32>::empty()),
    ensures
        intersection_fold(maps, m) == Some(Set::<u32>::empty()),
    decreases m,
{
    if m > k {
        lemma_intersection_fold_empty(maps, k, m - 1);
    }
}

/// Intersect a batch of optional bitmaps, as the backend read path
/// does: a missing bitmap empties the whole result, and the scan
/// stops as soon as the running intersection is empty.
pub fn get_bitmaps_intersection(maps: &Vec<Option<roaring::RoaringBitmap>>) -> (r: Option<
    roaring::RoaringBitmap,
>)
    ensures
        ({
            let folded = intersection_fold(bitmap_opt_views(maps@), maps@.len() as int);
            match r {
                Some(bm) => (folded matches Some(s) && rb_contents(bm) == s),
                None => folded is None,
            }
        }),
{
    let ghost views = bitmap_opt_views(maps@);
    let mut result: Option<roaring::RoaringBitmap> = None;
    let mut i: usize = 0;
    while i < maps.len()
        invariant
            i <= maps@.len(),
            views == bitmap_opt_views(maps@),
            views.len() == maps@.len(),
            i == 0 ==> result is None,
            i > 0 ==> (result matches Some(bm) && intersection_fold(views, i as int) == Some(
                rb_contents(bm),
            )),
            i >= 2 ==> (result matches Some(bm) && rb_contents(bm) != Set::<u32>::empty()),
        decreases maps@.len() - i,
    {
        assert(views[i as int] == (match maps@[i as int] {
            Some(b) => Some(rb_contents(b)),
            None => None,
        }));
        match &maps[i] {
            Some(b) => {
                match result {
                    Some(mut acc) => {
                        let ghost acc_set = rb_contents(acc);
                        rb_and_assign(&mut acc, b);
                        let now_empty = rb_is_empty(&acc);
                        proof {
                            if acc_set == Set::<u32>::empty() {
                                assert(rb_contents(acc) =~= acc_set);
                            }
                        }
                        if now_empty {
                            proof {
                                assert(intersection_fold(views, i as int + 1) == Some(
                                    rb_contents(acc),
                                ));
                                lemma_intersection_fold_empty(
                                    views,
                                    i as int + 1,
                                    views.len() as int,
                                );
                            }
                            return Some(acc);
                        }
                        result = Some(acc);
                    },
                    None => {
                        result = Some(rb_clone(b));
                    },
                }
            },
            None => {
                if i == 0 {
                    assert(intersection_fold(views, 1) is None);
                    proof {
                        lemma_intersection_fold_none(views, 1, views.len() as int);
                    }
                    return None;
                }
                proof {
                    lemma_intersection_fold_none(views, i as int + 1, views.len() as int);
                }
                return None;
            },
        }
        i = i + 1;
    }
    if maps.len() == 0 {
        assert(intersection_fold(views, 0) is None);
    }
    result
}

/// A grouping operator of the evaluation stack.
#[derive(Clone, Copy, PartialEq, Eq, Structural, Debug)]
pub enum GroupOp {
    AndGroup,
    OrGroup,
    NotGroup,
}

/// One open group under evaluation: its operator and the value
/// combined so far, if an operand has been seen.
pub struct EvalFrame {
    pub op: GroupOp,
    pub acc: Option<roaring::RoaringBitmap>,
}

pub ghost struct EvalFrameV {
    pub op: GroupOp,
    pub acc: Option<Set<u32>>,
}

impl View for EvalFrame {
    type V = EvalFrameV;

    open spec fn view(&self) -> EvalFrameV {
        EvalFrameV {
            op: self.op,
            acc: match self.acc {
                Some(b) => Some(rb_contents(b)),
                None => None,
            },
        }
    }
}

pub open spec fn frame_views(s: Seq<EvalFrame>) -> Seq<EvalFrameV> {
    s.map_values(|f: EvalFrame| f@)
}

/// The document set one leaf atom denotes.
pub open spec fn leaf_value(s: IndexStore, a: crate::filter::AtomV) -> Set<u32> {
    match a {
        crate::filter::AtomV::InSet(v) => v,
        crate::filter::AtomV::InBitmap(p, t) => tag_docs(s, p, t),
        crate::filter::AtomV::HasText(p, t, _) => token_docs(s, p, t),
        crate::filter::AtomV::HasRawText(p, t) => token_docs(s, p, t),
        crate::filter::AtomV::Lt(p, v) => range_docs(s, p, Operator::LowerThan, v),
        crate::filter::AtomV::Gt(p, v) => range_docs(s, p, Operator::GreaterThan, v),
        crate::filter::AtomV::Le(p, v) => range_docs(s, p, Operator::LowerEqualThan, v),
        crate::filter::AtomV::Ge(p, v) => range_docs(s, p, Operator::GreaterEqualThan, v),
        _ => Set::empty(),
    }
}

/// Combine an operand into a group: a NOT group complements each
/// operand against the document universe and intersects; AND
/// intersects, OR unites.
pub open spec fn combine(s: IndexStore, op: GroupOp, acc: Option<Set<u32>>, v: Set<u32>) -> Option<
    Set<u32>,
> {
    let v2 = if op is NotGroup {
        rb_contents(s.document_ids).difference(v)
    } else {
        v
    };
    match acc {
        Some(a) => Some(
            if op is OrGroup {
                a.union(v2)
            } else {
                a.intersect(v2)
            },
        ),
        None => Some(v2),
    }
}

/// What a closed group evaluates to; a group that never saw an
/// operand imposes no constraint.
pub open spec fn close_value(s: IndexStore, op: GroupOp, acc: Option<Set<u32>>) -> Set<u32> {
    match acc {
        Some(a) => a,
        None => if op is OrGroup {
            Set::empty()
        } else {
            rb_contents(s.document_ids)
        },
    }
}

pub open spec fn mk_frame(op: GroupOp, acc: Option<Set<u32>>) -> EvalFrameV {
    EvalFrameV { op, acc }
}

/// One step of the stack machine.
pub open spec fn eval_step(s: IndexStore, st: Seq<EvalFrameV>, a: crate::filter::AtomV) -> Seq<
    EvalFrameV,
> {
    if a is And {
        st.push(mk_frame(GroupOp::AndGroup, None))
    } else if a is Or {
        st.push(mk_frame(GroupOp::OrGroup, None))
    } else if a is Not {
        st.push(mk_frame(GroupOp::NotGroup, None))
    } else if a is End {
        if st.len() >= 2 {
            let top = st.last();
            let v = close_value(s, top.op, top.acc);
            let parent = st[st.len() - 2];
            st.take(st.len() - 2).push(mk_frame(parent.op, combine(s, parent.op, parent.acc, v)))
        } else {
            st
        }
    } else {
        let top = st.last();
        st.take(st.len() - 1).push(mk_frame(top.op, combine(s, top.op, top.acc, leaf_value(s, a))))
    }
}

/// The stack after the first `k` atoms; evaluation starts inside one
/// implicit AND group.
pub open spec fn eval_upto(s: IndexStore, atoms: Seq<crate::filter::AtomV>, k: int) -> Seq<
    EvalFrameV,
>
    decreases k,
{
    if k <= 0 {
        seq![mk_frame(GroupOp::AndGroup, None)]
    } else {
        eval_step(s, eval_upto(s, atoms, k - 1), atoms[k - 1])
    }
}

/// The documents a compiled filter expression selects.
pub open spec fn eval_result(s: IndexStore, atoms: Seq<crate::filter::AtomV>) -> Set<u32> {
    let st = eval_upto(s, atoms, atoms.len() as int);
    close_value(s, st[0].op, st[0].acc)
}

/// The outcome of running a filter.
pub struct ResultSet {
    pub results: roaring::RoaringBitmap,
}

impl IndexStore {
    /// The bitmap one leaf atom denotes.
    fn leaf_bitmap(&self, a: &crate::filter::FilterAtom) -> (r: roaring::RoaringBitmap)
        requires
            store_wf(*self),
        ensures
            rb_contents(r) == leaf_value(*self, a@),
    {
        match a {
            crate::filter::FilterAtom::InSet(b) => rb_clone(b),
            crate::filter::FilterAtom::InBitmap(p, t) => {
                match self.get_tag(*p, t) {
                    Some(bm) => bm,
                    None => {
                        let bm = rb_new();
                        assert(rb_contents(bm) =~= leaf_value(*self, a@));
                        bm
                    },
                }
            },
            crate::filter::FilterAtom::HasText(p, t, _) => {
                match self.get_token(*p, t.as_slice()) {
                    Some(bm) => bm,
                    None => {
                        let bm = rb_new();
                        assert(rb_contents(bm) =~= leaf_value(*self, a@));
                        bm
                    },
                }
            },
            crate::filter::FilterAtom::HasRawText(p, t) => {
                match self.get_token(*p, t.as_slice()) {
                    Some(bm) => bm,
                    None => {
                        let bm = rb_new();
                        assert(rb_contents(bm) =~= leaf_value(*self, a@));
                        bm
                    },
                }
            },
            crate::filter::FilterAtom::Lt(p, v) => self.range_to_bitmap(
                *p,
                *v,
                Operator::LowerThan,
            ),
            crate::filter::FilterAtom::Gt(p, v) => self.range_to_bitmap(
                *p,
                *v,
                Operator::GreaterThan,
            ),
            crate::filter::FilterAtom::Le(p, v) => self.range_to_bitmap(
                *p,
                *v,
                Operator::LowerEqualThan,
            ),
            crate::filter::FilterAtom::Ge(p, v) => self.range_to_bitmap(
                *p,
                *v,
                Operator::GreaterEqualThan,
            ),
            _ => {
                let bm = rb_new();
                assert(rb_contents(bm) =~= leaf_value(*self, a@));
                bm
            },
        }
    }

    /// Combine an operand bitmap into a frame.
    fn combine_frame(&self, f: EvalFrame, v: roaring::RoaringBitmap) -> (r: EvalFrame)
        ensures
            r@ == mk_frame(f@.op, combine(*self, f@.op, f@.acc, rb_contents(v))),
    {
        let v2 = match f.op {
            GroupOp::NotGroup => {
                let mut c = rb_clone(&self.document_ids);
                rb_sub_assign(&mut c, &v);
                c
            },
            _ => v,
        };
        match f.acc {
            Some(mut a) => {
                match f.op {
                    GroupOp::OrGroup => rb_or_assign(&mut a, &v2),
                    _ => rb_and_assign(&mut a, &v2),
                }
                EvalFrame { op: f.op, acc: Some(a) }
            },
            None => EvalFrame { op: f.op, acc: Some(v2) },
        }
    }

    /// What a closed frame evaluates to.
    fn close_frame(&self, f: EvalFrame) -> (r: roaring::RoaringBitmap)
        ensures
            rb_contents(r) == close_value(*self, f@.op, f@.acc),
    {
        match f.acc {
            Some(a) => a,
            None => match f.op {
                GroupOp::OrGroup => rb_new(),
                _ => rb_clone(&self.document_ids),
            },
        }
    }

    /// Run a compiled filter expression: a stack machine over the
    /// postfix atoms, starting inside one implicit AND group.
    pub fn filter(&self, atoms: &Vec<crate::filter::FilterAtom>) -> (r: ResultSet)
        requires
            store_wf(*self),
        ensures
            rb_contents(r.results) == eval_result(*self, crate::filter::atom_views(atoms@)),
    {
        let ghost views = crate::filter::atom_views(atoms@);
        let mut stack: Vec<EvalFrame> = Vec::new();
        stack.push(EvalFrame { op: GroupOp::AndGroup, acc: None });
        assert(frame_views(stack@) =~= eval_upto(*self, views, 0));
        let mut k: usize = 0;
        while k < atoms.len()
            invariant
                k <= atoms@.len(),
                store_wf(*self),
                views == crate::filter::atom_views(atoms@),
                views.len() == atoms@.len(),
                frame_views(stack@) == eval_upto(*self, views, k as int),
                stack@.len() >= 1,
            decreases atoms@.len() - k,
        {
            let ghost st = frame_views(stack@);
            assert(views[k as int] == atoms@[k as int]@);
            let a = &atoms[k];
            match a {
                crate::filter::FilterAtom::And => {
                    stack.push(EvalFrame { op: GroupOp::AndGroup, acc: None });
                    assert(frame_views(stack@) =~= eval_step(*self, st, views[k as int]));
                },
                crate::filter::FilterAtom::Or => {
                    stack.push(EvalFrame { op: GroupOp::OrGroup, acc: None });
                    assert(frame_views(stack@) =~= eval_step(*self, st, views[k as int]));
                },
                crate::filter::FilterAtom::Not => {
                    stack.push(EvalFrame { op: GroupOp::NotGroup, acc: None });
                    assert(frame_views(stack@) =~= eval_step(*self, st, views[k as int]));
                },
                crate::filter::FilterAtom::End => {
                    if stack.len() >= 2 {
                        let top = stack.pop().unwrap();
                        let v = self.close_frame(top);
                        let parent = stack.pop().unwrap();
                        let merged = self.combine_frame(parent, v);
                        stack.push(merged);
                        assert(frame_views(stack@) =~= eval_step(*self, st, views[k as int]));
                    } else {
                        assert(frame_views(stack@) =~= eval_step(*self, st, views[k as int]));
                    }
                },
                _ => {
                    let v = self.leaf_bitmap(a);
                    let top = stack.pop().unwrap();
                    let merged = self.combine_frame(top, v);
                    stack.push(merged);
                    assert(!(views[k as int] is And) && !(views[k as int] is Or) && !(views[
                        k as int
                    ] is Not) && !(views[k as int] is End));
                    assert(frame_views(stack@) =~= eval_step(*self, st, views[k as int]));
                },
            }
            k = k + 1;
        }
        let mut stack = stack;
        let root = stack.remove(0);
        assert(root@ == eval_upto(*self, views, views.len() as int)[0]);
        let results = self.close_frame(root);
        ResultSet { results }
    }
}

/// One sorted result: a single document, or the documents sharing one
/// indexed value, in index order.
pub enum SortedId {
    Id(u32),
    GroupedId(Vec<u32>),
}

pub open spec fn sorted_id_view(s: SortedId) -> Seq<u32> {
    match s {
        SortedId::Id(d) => seq![d],
        SortedId::GroupedId(v) => v@,
    }
}

pub open spec fn sorted_id_views(s: Seq<SortedId>) -> Seq<Seq<u32>> {
    s.map_values(|x: SortedId| sorted_id_view(x))
}

/// The index entries in the requested direction.
pub open spec fn oriented(vals: Seq<ValueEntry>, ascending: bool) -> Seq<ValueEntry> {
    if ascending {
        vals
    } else {
        vals.reverse()
    }
}

/// The value groups of the first `k` oriented entries restricted to
/// `docs`: consecutive entries of one value share a group, and the
/// scan stops as soon as `limit` groups exist.
pub open spec fn sort_groups_upto(
    vals: Seq<ValueEntry>,
    docs: Set<u32>,
    limit: nat,
    k: int,
) -> Seq<(u64, Seq<u32>)>
    decreases k,
{
    if k <= 0 {
        Seq::empty()
    } else {
        let pre = sort_groups_upto(vals, docs, limit, k - 1);
        if limit > 0 && pre.len() == limit {
            pre
        } else {
            let e = vals[k - 1];
            if !docs.contains(e.document_id) {
                pre
            } else if pre.len() > 0 && pre.last().0 == e.value {
                pre.update(pre.len() - 1, (e.value, pre.last().1.push(e.document_id)))
            } else {
                pre.push((e.value, seq![e.document_id]))
            }
        }
    }
}

pub open spec fn group_seqs(gs: Seq<(u64, Seq<u32>)>) -> Seq<Seq<u32>> {
    gs.map_values(|g: (u64, Seq<u32>)| g.1)
}

proof fn lemma_sort_groups_stable(vals: Seq<ValueEntry>, docs: Set<u32>, limit: nat, k: int, m: int)
    requires
        0 <= k <= m <= vals.len(),
        limit > 0,
        sort_groups_upto(vals, docs, limit, k).len() == limit,
    ensures
        sort_groups_upto(vals, docs, limit, m) == sort_groups_upto(vals, docs, limit, k),
    decreases m,
{
    if m > k {
        lemma_sort_groups_stable(vals, docs, limit, k, m - 1);
    }
}

impl IndexStore {
    /// Walk a property's numeric index in the requested direction,
    /// keeping documents of the given set, grouping those that share
    /// one indexed value, until `limit` groups exist.
    pub fn sort_bitmap(
        &self,
        p: Property,
        documents: &roaring::RoaringBitmap,
        limit: usize,
        ascending: bool,
    ) -> (r: Vec<SortedId>)
        requires
            store_wf(*self),
        ensures
            sorted_id_views(r@) == group_seqs(
                sort_groups_upto(
                    oriented(prop_entries(*self, p), ascending),
                    rb_contents(*documents),
                    limit as nat,
                    oriented(prop_entries(*self, p), ascending).len() as int,
                ),
            ),
    {
        let ghost docs = rb_contents(*documents);
        let ghost ov = oriented(prop_entries(*self, p), ascending);
        let mut out: Vec<SortedId> = Vec::new();
        let idx = match find_value_index(&self.values, p) {
            Some(i) => i,
            None => {
                assert(prop_entries(*self, p) =~= Seq::<ValueEntry>::empty());
                assert(ov =~= Seq::<ValueEntry>::empty());
                assert(sorted_id_views(out@) =~= group_seqs(
                    sort_groups_upto(ov, docs, limit as nat, 0),
                ));
                return out;
            },
        };
        proof {
            let w = choose|w: int| 0 <= w < self.values@.len() && self.values@[w].property == p;
            if w != idx as int {
                assert(false);
            }
        }
        let list = &self.values[idx];
        let n = list.entries.len();
        assert(ov.len() == n) by {
            if !ascending {
                assert(prop_entries(*self, p).reverse().len() == prop_entries(*self, p).len());
            }
        }
        let mut last_value: u64 = 0;
        let mut t: usize = 0;
        while t < n
            invariant
                t <= n,
                n == list.entries@.len(),
                list.entries@ == prop_entries(*self, p),
                ov == oriented(prop_entries(*self, p), ascending),
                ov.len() == n,
                docs == rb_contents(*documents),
                forall|z: int| 0 <= z < n ==> ov[z] == (if ascending {
                    list.entries@[z]
                } else {
                    list.entries@[n - 1 - z]
                }),
                sorted_id_views(out@) == group_seqs(
                    sort_groups_upto(ov, docs, limit as nat, t as int),
                ),
                out@.len() == sort_groups_upto(ov, docs, limit as nat, t as int).len(),
                out@.len() > 0 ==> sort_groups_upto(ov, docs, limit as nat, t as int).last().0
                    == last_value,
                limit > 0 ==> out@.len() < limit,
            decreases n - t,
        {
            let ghost gs = sort_groups_upto(ov, docs, limit as nat, t as int);
            let e = if ascending {
                ValueEntry { value: list.entries[t].value, document_id: list.entries[t].document_id }
            } else {
                ValueEntry {
                    value: list.entries[n - 1 - t].value,
                    document_id: list.entries[n - 1 - t].document_id,
                }
            };
            assert(e == ov[t as int]);
            if rb_contains(documents, e.document_id) {
                if out.len() > 0 && last_value == e.value {
                    let ghost out_before = out@;
                    let prev = out.pop().unwrap();
                    proof {
                        assert(sorted_id_views(out_before)[out_before.len() - 1]
                            == sorted_id_view(out_before.last()));
                        assert(sorted_id_view(prev) == gs.last().1);
                    }
                    let merged = match prev {
                        SortedId::Id(x) => {
                            let mut v: Vec<u32> = Vec::new();
                            v.push(x);
                            v.push(e.document_id);
                            assert(v@ =~= seq![x].push(e.document_id));
                            SortedId::GroupedId(v)
                        },
                        SortedId::GroupedId(mut v) => {
                            v.push(e.document_id);
                            SortedId::GroupedId(v)
                        },
                    };
                    assert(sorted_id_view(merged) == gs.last().1.push(e.document_id));
                    out.push(merged);
                    proof {
                        let gs2 = sort_groups_upto(ov, docs, limit as nat, t as int + 1);
                        assert(gs2 == gs.update(
                            gs.len() - 1,
                            (e.value, gs.last().1.push(e.document_id)),
                        ));
                        assert(out@ == out_before.drop_last().push(merged)) by {
                            assert(out@ =~= out_before.drop_last().push(merged));
                        }
                        assert forall|z: int|
                            0 <= z < out@.len() implies sorted_id_views(out@)[z] == group_seqs(
                            gs2,
                        )[z] by {
                            if z < out@.len() - 1 {
                                assert(out@[z] == out_before[z]);
                                assert(sorted_id_views(out_before)[z] == sorted_id_view(
                                    out_before[z],
                                ));
                            }
                        }
                        assert(sorted_id_views(out@) =~= group_seqs(gs2));
                    }
                } else {
                    let ghost out_before = out@;
                    out.push(SortedId::Id(e.document_id));
                    last_value = e.value;
                    proof {
                        let gs2 = sort_groups_upto(ov, docs, limit as nat, t as int + 1);
                        assert(gs2 == gs.push((e.value, seq![e.document_id])));
                        assert forall|z: int|
                            0 <= z < out@.len() implies sorted_id_views(out@)[z] == group_seqs(
                            gs2,
                        )[z] by {
                            if z < out@.len() - 1 {
                                assert(out@[z] == out_before[z]);
                                assert(sorted_id_views(out_before)[z] == sorted_id_view(
                                    out_before[z],
                                ));
                            } else {
                                assert(out@[z] == SortedId::Id(e.document_id));
                            }
                        }
                        assert(sorted_id_views(out@) =~= group_seqs(gs2));
                    }
                    if limit > 0 && out.len() == limit {
                        proof {
                            lemma_sort_groups_stable(
                                ov,
                                docs,
                                limit as nat,
                                t as int + 1,
                                ov.len() as int,
                            );
                        }
                        return out;
                    }
                }
            } else {
                assert(sort_groups_upto(ov, docs, limit as nat, t as int + 1) == gs);
            }
            t = t + 1;
        }
        out
    }
}

/// The largest change id the log holds; zero on an empty log.
pub open spec fn log_max_upto(log: Seq<ChangeEntry>, k: int) -> u64
    decreases k,
{
    if k <= 0 {
        0
    } else {
        let pre = log_max_upto(log, k - 1);
        if log[k - 1].modseq > pre {
            log[k - 1].modseq
        } else {
            pre
        }
    }
}

pub open spec fn log_max(log: Seq<ChangeEntry>) -> u64 {
    log_max_upto(log, log.len() as int)
}

impl IndexStore {
    /// The highest modseq the change log records.
    pub fn highest_modseq(&self) -> (r: u64)
        ensures
            r == log_max(self.change_log@),
    {
        let mut m: u64 = 0;
        let mut i: usize = 0;
        while i < self.change_log.len()
            invariant
                i <= self.change_log@.len(),
                m == log_max_upto(self.change_log@, i as int),
            decreases self.change_log@.len() - i,
        {
            if self.change_log[i].modseq > m {
                m = self.change_log[i].modseq;
            }
            i = i + 1;
        }
        m
    }
}

/// Concatenate the grouped sorted documents into one ordered list.
pub open spec fn flat_groups(gs: Seq<Seq<u32>>, k: int) -> Seq<u32>
    decreases k,
{
    if k <= 0 {
        Seq::empty()
    } else {
        flat_groups(gs, k - 1) + gs[k - 1]
    }
}

/// Flatten grouped sorted results into the plain document order.
pub fn flatten_sorted(ids: &Vec<SortedId>) -> (r: Vec<u32>)
    ensures
        r@ == flat_groups(sorted_id_views(ids@), ids@.len() as int),
{
    let mut r: Vec<u32> = Vec::new();
    let mut i: usize = 0;
    while i < ids.len()
        invariant
            i <= ids@.len(),
            r@ == flat_groups(sorted_id_views(ids@), i as int),
        decreases ids@.len() - i,
    {
        let ghost before = r@;
        match &ids[i] {
            SortedId::Id(d) => {
                r.push(*d);
            },
            SortedId::GroupedId(v) => {
                let mut j: usize = 0;
                while j < v.len()
                    invariant
                        j <= v@.len(),
                        r@ == before + v@.take(j as int),
                    decreases v@.len() - j,
                {
                    r.push(v[j]);
                    assert(r@ =~= before + v@.take(j as int + 1));
                    j = j + 1;
                }
                assert(v@.take(v@.len() as int) =~= v@);
            },
        }
        assert(r@ =~= flat_groups(sorted_id_views(ids@), i as int + 1)) by {
            assert(sorted_id_views(ids@)[i as int] == sorted_id_view(ids@[i as int]));
        }
        i = i + 1;
    }
    r
}

/// Fold a batch of optional bitmaps by union, skipping absent ones.
pub open spec fn union_fold(maps: Seq<Option<Set<u32>>>, k: int) -> Option<Set<u32>>
    decreases k,
{
    if k <= 0 {
        None
    } else {
        let pre = union_fold(maps, k - 1);
        match maps[k - 1] {
            Some(b) => match pre {
                Some(a) => Some(a.union(b)),
                None => Some(b),
            },
            None => pre,
        }
    }
}

/// Unite a batch of optional bitmaps, skipping absent ones; nothing
/// comes back only when every bitmap was absent.
pub fn get_bitmaps_union(maps: &Vec<Option<roaring::RoaringBitmap>>) -> (r: Option<
    roaring::RoaringBitmap,
>)
    ensures
        ({
            let folded = union_fold(bitmap_opt_views(maps@), maps@.len() as int);
            match r {
                Some(bm) => (folded matches Some(s) && rb_contents(bm) == s),
                None => folded is None,
            }
        }),
{
    let ghost views = bitmap_opt_views(maps@);
    let mut result: Option<roaring::RoaringBitmap> = None;
    let mut i: usize = 0;
    while i < maps.len()
        invariant
            i <= maps@.len(),
            views == bitmap_opt_views(maps@),
            views.len() == maps@.len(),
            match result {
                Some(bm) => union_fold(views, i as int) == Some(rb_contents(bm)),
                None => union_fold(views, i as int) is None,
            },
        decreases maps@.len() - i,
    {
        assert(views[i as int] == (match maps@[i as int] {
            Some(b) => Some(rb_contents(b)),
            None => None,
        }));
        match &maps[i] {
            Some(b) => {
                match result {
                    Some(mut acc) => {
                        rb_or_assign(&mut acc, b);
                        result = Some(acc);
                    },
                    None => {
                        result = Some(rb_clone(b));
                    },
                }
            },
            None => (),
        }
        i = i + 1;
    }
    result
}

} // verus!
