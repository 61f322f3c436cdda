//! The search executor: maps the document ids a query produced to
//! reported numbers, computes the extended-search aggregates, and
//! assembles the reply.

use vstd::prelude::*;
use vstd::multiset::Multiset;

use crate::mailbox::{
    fold_max, fold_min, mapped_results, opt_entry_seq, firsts, seconds, state_wf, ImapId,
    SelectedMailbox,
};

verus! {

/// ESEARCH return options.
#[derive(Clone, Copy, PartialEq, Eq, Structural, Debug)]
pub enum ResultOption {
    Min,
    Max,
    Count,
    All,
    Save,
}

pub open spec fn opt_has(s: Seq<ResultOption>, o: ResultOption) -> bool {
    exists|i: int| 0 <= i < s.len() && s[i] == o
}

/// Whether the option list asks for `o`.
pub fn has_option(opts: &Vec<ResultOption>, o: ResultOption) -> (r: bool)
    ensures
        r == opt_has(opts@, o),
{
    let mut i: usize = 0;
    while i < opts.len()
        invariant
            i <= opts@.len(),
            forall|k: int| 0 <= k < i ==> opts@[k] != o,
        decreases opts@.len() - i,
    {
        if opts[i] == o {
            return true;
        }
        i = i + 1;
    }
    false
}

pub open spec fn sorted_ascending(s: Seq<u32>) -> bool {
    forall|i: int, j: int| 0 <= i < j < s.len() ==> s[i] <= s[j]
}

/// Sort reported numbers ascending.
pub fn sort_ids(v: Vec<u32>) -> (r: Vec<u32>)
    ensures
        sorted_ascending(r@),
        r@.to_multiset() == v@.to_multiset(),
{
    broadcast use vstd::seq_lib::group_to_multiset_ensures;

    let ghost orig = v@;
    let mut src = v;
    let mut out: Vec<u32> = Vec::new();
    while src.len() > 0
        invariant
            sorted_ascending(out@),
            out@.to_multiset().add(src@.to_multiset()) == orig.to_multiset(),
            forall|i: int, j: int|
                0 <= i < out@.len() && 0 <= j < src@.len() ==> out@[i] <= src@[j],
        decreases src@.len(),
    {
        let mut m: usize = 0;
        let mut k: usize = 1;
        while k < src.len()
            invariant
                m < k <= src@.len() || (k <= src@.len() && m < src@.len()),
                m < src@.len(),
                forall|j: int| 0 <= j < k ==> src@[m as int] <= src@[j],
            decreases src@.len() - k,
        {
            if src[k] < src[m] {
                m = k;
            }
            k = k + 1;
        }
        let ghost src_old = src@;
        let ghost out_old = out@;
        let x = src.remove(m);
        out.push(x);
        proof {
            src_old.to_multiset_ensures();
            out_old.to_multiset_ensures();
            assert(src@.to_multiset() =~= src_old.to_multiset().remove(x));
            assert(out@.to_multiset() =~= out_old.to_multiset().insert(x));
            assert(src_old.contains(x)) by {
                assert(src_old[m as int] == x);
            }
            assert(src_old.to_multiset().count(x) > 0);
            assert(out@.to_multiset().add(src@.to_multiset()) =~= orig.to_multiset());
            assert(forall|j: int|
                0 <= j < src@.len() ==> src@[j] == (if j < m {
                    src_old[j]
                } else {
                    src_old[j + 1]
                }));
            assert(forall|j: int| 0 <= j < src@.len() ==> x <= src@[j]);
        }
    }
    proof {
        assert(src@.to_multiset() =~= Multiset::<u32>::empty());
        assert(out@.to_multiset() =~= orig.to_multiset());
    }
    out
}

/// IMAP sort keys.
#[derive(Clone, Copy, PartialEq, Eq, Structural, Debug)]
pub enum SortKey {
    Arrival,
    Cc,
    Date,
    From,
    Size,
    Subject,
    To,
    DisplayFrom,
    DisplayTo,
}

/// One sort criterion: a key and its direction.
#[derive(Clone, Copy, PartialEq, Eq, Structural, Debug)]
pub struct Comparator {
    pub key: SortKey,
    pub ascending: bool,
}

/// The indexed property a sort key orders by.
pub open spec fn spec_comparator_property(k: SortKey) -> crate::filter::Property {
    match k {
        SortKey::Arrival => crate::filter::Property::ReceivedAt,
        SortKey::Cc => crate::filter::Property::Cc,
        SortKey::Date => crate::filter::Property::SentAt,
        SortKey::From => crate::filter::Property::From,
        SortKey::Size => crate::filter::Property::Size,
        SortKey::Subject => crate::filter::Property::Subject,
        SortKey::To => crate::filter::Property::To,
        SortKey::DisplayFrom => crate::filter::Property::From,
        SortKey::DisplayTo => crate::filter::Property::To,
    }
}

pub fn comparator_property(k: SortKey) -> (r: crate::filter::Property)
    ensures
        r == spec_comparator_property(k),
{
    match k {
        SortKey::Arrival => crate::filter::Property::ReceivedAt,
        SortKey::Cc => crate::filter::Property::Cc,
        SortKey::Date => crate::filter::Property::SentAt,
        SortKey::From => crate::filter::Property::From,
        SortKey::Size => crate::filter::Property::Size,
        SortKey::Subject => crate::filter::Property::Subject,
        SortKey::To => crate::filter::Property::To,
        SortKey::DisplayFrom => crate::filter::Property::From,
        SortKey::DisplayTo => crate::filter::Property::To,
    }
}

/// The assembled reply of one SEARCH or SORT command.
#[derive(Debug)]
pub struct SearchResponse {
    pub is_uid: bool,
    pub min: Option<u32>,
    pub max: Option<u32>,
    pub count: Option<u32>,
    pub ids: Vec<u32>,
    pub is_sort: bool,
    pub is_esearch: bool,
    pub highest_modseq: Option<u64>,
}

pub open spec fn opt_first(o: Option<(u32, ImapId)>) -> Option<u32> {
    match o {
        Some(p) => Some(p.0),
        None => None,
    }
}

/// Map the query's document ids to reported numbers and assemble the
/// reply: MIN, MAX and COUNT as requested, the full list under ALL or
/// when no option was named, and the list to install in the
/// saved-search slot when SAVE was requested. Ids of an unsorted
/// query are reported in ascending order; a sorted query keeps the
/// store's order.
pub fn build_search_response(
    mailbox: &SelectedMailbox,
    result_ids: &Vec<u32>,
    is_sort: bool,
    result_options: &Vec<ResultOption>,
    is_uid: bool,
    is_esearch: bool,
    highest_modseq: Option<u64>,
) -> (r: (SearchResponse, Option<Vec<ImapId>>))
    requires
        state_wf(mailbox.state),
        result_ids@.len() <= u32::MAX,
    ensures
        ({
            let m = mapped_results(mailbox.state, result_ids@, is_uid);
            let find_min = opt_has(result_options@, ResultOption::Min);
            let find_max = opt_has(result_options@, ResultOption::Max);
            let min = if find_min {
                fold_min(Option::None, m)
            } else {
                Option::None
            };
            let max = if find_max {
                fold_max(Option::None, m)
            } else {
                Option::None
            };
            let emitted = if find_min || find_max {
                opt_entry_seq(min) + opt_entry_seq(max)
            } else {
                m
            };
            &&& r.0.is_uid == is_uid
            &&& r.0.is_sort == is_sort
            &&& r.0.is_esearch == is_esearch
            &&& r.0.highest_modseq == highest_modseq
            &&& r.0.min == opt_first(min)
            &&& r.0.max == opt_first(max)
            &&& r.0.count == (if opt_has(result_options@, ResultOption::Count) {
                Some(m.len() as u32)
            } else {
                Option::<u32>::None
            })
            &&& (if result_options@.len() == 0 || opt_has(result_options@, ResultOption::All) {
                (if is_sort {
                    r.0.ids@ == firsts(emitted)
                } else {
                    sorted_ascending(r.0.ids@) && r.0.ids@.to_multiset() == firsts(
                        emitted,
                    ).to_multiset()
                })
            } else {
                r.0.ids@.len() == 0
            })
            &&& (if opt_has(result_options@, ResultOption::Save) {
                (r.1 matches Some(w) && w@ == seconds(emitted))
            } else {
                r.1 is None
            })
        }),
{
    let find_min = has_option(result_options, ResultOption::Min);
    let find_max = has_option(result_options, ResultOption::Max);
    let want_save = has_option(result_options, ResultOption::Save);

    let mut min: Option<(u32, ImapId)> = None;
    let mut max: Option<(u32, ImapId)> = None;
    let mut total: u32 = 0;
    let mut imap_ids: Vec<u32> = Vec::new();
    let mut saved_results: Option<Vec<ImapId>> = if want_save {
        Some(Vec::new())
    } else {
        None
    };

    mailbox.map_search_results(
        result_ids,
        is_uid,
        find_min,
        find_max,
        &mut min,
        &mut max,
        &mut total,
        &mut imap_ids,
        &mut saved_results,
    );
    proof {
        crate::mailbox::lemma_mapped_results_len(
            mailbox.state,
            result_ids@,
            is_uid,
            result_ids@.len() as int,
        );
    }

    let ids = if !is_sort {
        sort_ids(imap_ids)
    } else {
        imap_ids
    };

    let all = result_options.len() == 0 || has_option(result_options, ResultOption::All);
    let response = SearchResponse {
        is_uid,
        min: match &min {
            Some(p) => Some(p.0),
            None => None,
        },
        max: match &max {
            Some(p) => Some(p.0),
            None => None,
        },
        count: if has_option(result_options, ResultOption::Count) {
            Some(total)
        } else {
            None
        },
        ids: if all {
            ids
        } else {
            Vec::new()
        },
        is_sort,
        is_esearch,
        highest_modseq,
    };
    (response, saved_results)
}


/// The document universe of a selection: a real mailbox's membership
/// bitmap, or every message for the virtual all-mail view.
pub open spec fn search_universe(store: crate::store::IndexStore, id: crate::mailbox::MailboxId) -> Set<u32> {
    match id.mailbox_id {
        Some(m) => crate::store::tag_docs(
            store,
            crate::filter::Property::MailboxIds,
            crate::filter::TagValueV::Id(m),
        ),
        None => crate::bitmap::rb_contents(store.document_ids),
    }
}

/// The saved search a slot offers to a new command: its published
/// results, and nothing while empty or still pending.
pub open spec fn resolved_slot(s: crate::mailbox::SavedSearch) -> Option<Seq<ImapId>> {
    match s {
        crate::mailbox::SavedSearch::Saved { items } => Some(items@),
        _ => None,
    }
}

/// How the reported document order arises from the selected set:
/// through the sort index when a comparator is given, else as the
/// ascending enumeration of the set.
pub open spec fn ids_of_selection(
    store: crate::store::IndexStore,
    selected: Set<u32>,
    sort: Option<Comparator>,
    rids: Seq<u32>,
) -> bool {
    match sort {
        Some(c) => {
            let entries = crate::store::oriented(
                crate::store::prop_entries(store, spec_comparator_property(c.key)),
                c.ascending,
            );
            rids == crate::store::flat_groups(
                crate::store::group_seqs(
                    crate::store::sort_groups_upto(
                        entries,
                        selected,
                        selected.len(),
                        entries.len() as int,
                    ),
                ),
                crate::store::sort_groups_upto(
                    entries,
                    selected,
                    selected.len(),
                    entries.len() as int,
                ).len() as int,
            )
        },
        None => {
            &&& (forall|i: int, j: int| 0 <= i < j < rids.len() ==> rids[i] < rids[j])
            &&& (forall|i: int| 0 <= i < rids.len() ==> selected.contains(#[trigger] rids[i]))
            &&& (forall|v: u32| selected.contains(v) ==> rids.contains(v))
        },
    }
}

/// The documents a search selects: the universe constraint pushed
/// first, then the compiled keys, evaluated over the store.
pub open spec fn searched_set(
    store: crate::store::IndexStore,
    filters: Seq<crate::filter::Filter>,
    ctx: crate::compile::CompileCtx,
) -> Set<u32> {
    crate::store::eval_result(
        store,
        seq![crate::filter::AtomV::InSet(ctx.universe)] + crate::compile::compiled(filters, ctx),
    )
}

/// The one machine limit a search can hit: replies count in u32, so a
/// selection — or, under sort, the walk of the sort index restricted
/// to it — beyond u32::MAX entries cannot be reported.
pub open spec fn search_overflow(
    store: crate::store::IndexStore,
    selected: Set<u32>,
    sort: Option<Comparator>,
) -> bool {
    ||| selected.len() > u32::MAX
    ||| (match sort {
        Some(c) => {
            let entries = crate::store::oriented(
                crate::store::prop_entries(store, spec_comparator_property(c.key)),
                c.ascending,
            );
            let gs = crate::store::sort_groups_upto(
                entries,
                selected,
                selected.len(),
                entries.len() as int,
            );
            crate::store::flat_groups(crate::store::group_seqs(gs), gs.len() as int).len()
                > u32::MAX
        },
        None => false,
    })
}

/// A strictly increasing enumeration of exactly the members of a set
/// counts them.
proof fn lemma_enumeration_cardinality(s: Seq<u32>, t: Set<u32>)
    requires
        forall|i: int, j: int| 0 <= i < j < s.len() ==> s[i] < s[j],
        forall|i: int| 0 <= i < s.len() ==> t.contains(#[trigger] s[i]),
        forall|v: u32| t.contains(v) ==> s.contains(v),
    ensures
        t.finite(),
        t.len() == s.len(),
{
    broadcast use vstd::seq_lib::seq_to_set_is_finite;

    assert(s.no_duplicates()) by {
        assert forall|i: int, j: int|
            0 <= i < s.len() && 0 <= j < s.len() && i != j implies s[i] != s[j] by {
            if i < j {
            } else {
            }
        }
    }
    s.unique_seq_to_set();
    assert(t =~= s.to_set());
}

/// Run one SEARCH or SORT command against the index store: compile
/// the keys, evaluate the plan, map the selected documents, assemble
/// the reply, and keep the saved-search slot honest. When SAVE was
/// requested, a successful search publishes its result list and a
/// failing one restores what the slot offered before the command; a
/// pending marker left by an interrupted producer degrades to an
/// empty slot. A refused key is the only failure short of the u32
/// limit on result counts: on a selection within that limit the
/// search succeeds.
pub fn run_search(
    store: &crate::store::IndexStore,
    mailbox: &mut SelectedMailbox,
    filters: &Vec<crate::filter::Filter>,
    result_options: &Vec<ResultOption>,
    sort: &Option<Comparator>,
    is_uid: bool,
    is_esearch: bool,
    now: u64,
    default_language: u8,
) -> (r: Result<SearchResponse, crate::filter::SearchError>)
    requires
        state_wf(old(mailbox).state),
        crate::store::store_wf(*store),
        crate::compile::filters_wf(filters@),
    ensures
        final(mailbox).state == old(mailbox).state,
        final(mailbox).id == old(mailbox).id,
        ({
            let ctx = crate::compile::CompileCtx {
                universe: search_universe(*store, old(mailbox).id),
                state: old(mailbox).state,
                saved: resolved_slot(old(mailbox).saved_search),
                is_uid,
                now,
                default_language,
                change_log: store.change_log@,
            };
            let want_save = opt_has(result_options@, ResultOption::Save);
            match r {
                Err(e) => {
                    &&& (crate::compile::first_error(filters@, ctx) == Some(e@) || (e@
                        is TooManyResults && crate::compile::first_error(filters@, ctx) is None
                        && search_overflow(*store, searched_set(*store, filters@, ctx), *sort)))
                    &&& (if want_save {
                        (match resolved_slot(old(mailbox).saved_search) {
                            Some(v) => (final(mailbox).saved_search matches
                                crate::mailbox::SavedSearch::Saved { items } && items@ == v),
                            None => final(mailbox).saved_search is Empty,
                        })
                    } else {
                        final(mailbox).saved_search == old(mailbox).saved_search
                    })
                },
                Ok(resp) => {
                    &&& crate::compile::first_error(filters@, ctx) is None
                    &&& resp.is_uid == is_uid
                    &&& resp.is_esearch == is_esearch
                    &&& resp.is_sort == (sort is Some)
                    &&& resp.highest_modseq == (if crate::compile::wants_modseq(filters@) {
                        Some(crate::store::log_max(store.change_log@))
                    } else {
                        Option::<u64>::None
                    })
                    &&& exists|rids: Seq<u32>|
                        {
                            let selected = searched_set(*store, filters@, ctx);
                            let m = #[trigger] mapped_results(old(mailbox).state, rids, is_uid);
                            let find_min = opt_has(result_options@, ResultOption::Min);
                            let find_max = opt_has(result_options@, ResultOption::Max);
                            let min = if find_min { fold_min(Option::None, m) } else { Option::None };
                            let max = if find_max { fold_max(Option::None, m) } else { Option::None };
                            let emitted = if find_min || find_max {
                                opt_entry_seq(min) + opt_entry_seq(max)
                            } else {
                                m
                            };
                            &&& ids_of_selection(*store, selected, *sort, rids)
                            &&& resp.min == opt_first(min)
                            &&& resp.max == opt_first(max)
                            &&& resp.count == (if opt_has(result_options@, ResultOption::Count) {
                                Some(m.len() as u32)
                            } else {
                                Option::<u32>::None
                            })
                            &&& (if result_options@.len() == 0 || opt_has(
                                result_options@,
                                ResultOption::All,
                            ) {
                                (if sort is Some {
                                    resp.ids@ == firsts(emitted)
                                } else {
                                    sorted_ascending(resp.ids@) && resp.ids@.to_multiset()
                                        == firsts(emitted).to_multiset()
                                })
                            } else {
                                resp.ids@.len() == 0
                            })
                            &&& (if want_save {
                                (final(mailbox).saved_search matches
                                    crate::mailbox::SavedSearch::Saved { items } && items@
                                    == seconds(emitted))
                            } else {
                                final(mailbox).saved_search == old(mailbox).saved_search
                            })
                        }
                },
            }
        }),
{
    let ghost ctx = crate::compile::CompileCtx {
        universe: search_universe(*store, old(mailbox).id),
        state: old(mailbox).state,
        saved: resolved_slot(old(mailbox).saved_search),
        is_uid,
        now,
        default_language,
        change_log: store.change_log@,
    };
    let want_save = has_option(result_options, ResultOption::Save);
    let prev: Option<Vec<ImapId>> = match mailbox.saved_search.current_items() {
        Some(v) => Some(crate::bytes::copy_vec(v)),
        None => None,
    };
    if want_save {
        let _ = crate::mailbox::SavedSearch::begin_save(&mut mailbox.saved_search);
    }

    let universe = match mailbox.id.mailbox_id {
        Some(mid) => {
            match store.get_tag(
                crate::filter::Property::MailboxIds,
                &crate::filter::TagValue::Id(mid),
            ) {
                Some(bm) => bm,
                None => {
                    let bm = crate::bitmap::rb_new();
                    assert(crate::bitmap::rb_contents(bm) =~= search_universe(
                        *store,
                        mailbox.id,
                    ));
                    bm
                },
            }
        },
        None => store.get_document_ids(),
    };

    assert(crate::bitmap::rb_contents(universe) == ctx.universe);
    let compiledr = crate::compile::compile_filters(
        filters,
        &universe,
        true,
        &mailbox.state,
        &prev,
        is_uid,
        now,
        default_language,
        &store.change_log,
    );
    let (atoms, include_modseq) = match compiledr {
        Ok(p) => p,
        Err(e) => {
            if want_save {
                crate::mailbox::SavedSearch::rollback_save(&mut mailbox.saved_search, prev);
            }
            return Err(e);
        },
    };

    let result_set = store.filter(&atoms);
    let highest_modseq = if include_modseq {
        Some(store.highest_modseq())
    } else {
        None
    };

    let (result_ids, is_sort) = match sort {
        Some(c) => {
            let n = crate::bitmap::rb_len(&result_set.results);
            if n > 0xFFFF_FFFFu64 {
                proof {
                    assert(crate::bitmap::rb_contents(result_set.results) == searched_set(
                        *store,
                        filters@,
                        ctx,
                    ));
                }
                if want_save {
                    crate::mailbox::SavedSearch::rollback_save(&mut mailbox.saved_search, prev);
                }
                return Err(crate::filter::SearchError::TooManyResults);
            }
            let sorted = store.sort_bitmap(
                comparator_property(c.key),
                &result_set.results,
                n as usize,
                c.ascending,
            );
            proof {
                let selected = crate::bitmap::rb_contents(result_set.results);
                assert(n == selected.len());
                assert((n as usize) as nat == selected.len());
                let entries = crate::store::oriented(
                    crate::store::prop_entries(*store, spec_comparator_property(c.key)),
                    c.ascending,
                );
                let gs = crate::store::sort_groups_upto(
                    entries,
                    selected,
                    selected.len(),
                    entries.len() as int,
                );
                assert(crate::store::sorted_id_views(sorted@) == crate::store::group_seqs(gs));
                assert(sorted@.len() == crate::store::group_seqs(gs).len());
                assert(crate::store::group_seqs(gs).len() == gs.len());
            }
            let rids = crate::store::flatten_sorted(&sorted);
            if rids.len() as u64 > 0xFFFF_FFFFu64 {
                proof {
                    let selected = crate::bitmap::rb_contents(result_set.results);
                    assert(selected == searched_set(*store, filters@, ctx));
                    let entries = crate::store::oriented(
                        crate::store::prop_entries(*store, spec_comparator_property(c.key)),
                        c.ascending,
                    );
                    let gs = crate::store::sort_groups_upto(
                        entries,
                        selected,
                        selected.len(),
                        entries.len() as int,
                    );
                    assert(rids@ == crate::store::flat_groups(
                        crate::store::group_seqs(gs),
                        gs.len() as int,
                    ));
                }
                if want_save {
                    crate::mailbox::SavedSearch::rollback_save(&mut mailbox.saved_search, prev);
                }
                return Err(crate::filter::SearchError::TooManyResults);
            }
            (rids, true)
        },
        None => {
            let rids = crate::bitmap::rb_to_vec(&result_set.results);
            if rids.len() as u64 > 0xFFFF_FFFFu64 {
                proof {
                    let selected = crate::bitmap::rb_contents(result_set.results);
                    assert(selected == searched_set(*store, filters@, ctx));
                    lemma_enumeration_cardinality(rids@, selected);
                }
                if want_save {
                    crate::mailbox::SavedSearch::rollback_save(&mut mailbox.saved_search, prev);
                }
                return Err(crate::filter::SearchError::TooManyResults);
            }
            (rids, false)
        },
    };

    let (response, saved_items) = build_search_response(
        &*mailbox,
        &result_ids,
        is_sort,
        result_options,
        is_uid,
        is_esearch,
        highest_modseq,
    );
    if want_save {
        let items = match saved_items {
            Some(v) => v,
            None => Vec::new(),
        };
        crate::mailbox::SavedSearch::commit_save(&mut mailbox.saved_search, items);
    }
    proof {
        assert(crate::store::eval_result(*store, crate::filter::atom_views(atoms@))
            == searched_set(*store, filters@, ctx));
        assert(ids_of_selection(*store, searched_set(*store, filters@, ctx), *sort, result_ids@));
    }
    Ok(response)
}

} // verus!
