use imap_core::filter::{ChangeEntry, Filter, FilterAtom, Keyword, Property, SearchError, Sequence, TagValue};
use imap_core::mailbox::{ImapId, MailboxId, MailboxState, SavedSearch, SelectedMailbox, SeqItem};
use imap_core::search::{run_search, Comparator, ResultOption, SortKey};
use imap_core::store::{IndexStore, TagBitmap, TokenBitmap, ValueEntry, ValueIndex};
use roaring::RoaringBitmap;

/// Five messages: document ids 0..4, uids 10..14, seqnums 1..5.
fn mailbox_state() -> MailboxState {
    MailboxState {
        entries: (0u32..5)
            .map(|i| (i, ImapId { uid: 10 + i, seqnum: i + 1 }))
            .collect(),
        next_state: None,
    }
}

fn selected() -> SelectedMailbox {
    SelectedMailbox {
        id: MailboxId { account_id: 1, mailbox_id: Some(7) },
        state: mailbox_state(),
        saved_search: SavedSearch::Empty,
    }
}

fn bitmap(ids: &[u32]) -> RoaringBitmap {
    let mut bm = RoaringBitmap::new();
    for &i in ids {
        bm.insert(i);
    }
    bm
}

fn store() -> IndexStore {
    IndexStore {
        document_ids: bitmap(&[0, 1, 2, 3, 4]),
        tags: vec![
            TagBitmap {
                property: Property::MailboxIds,
                value: TagValue::Id(7),
                documents: bitmap(&[0, 1, 2, 3, 4]),
            },
            TagBitmap {
                property: Property::Keywords,
                value: TagValue::KeywordTag(Keyword::Seen),
                documents: bitmap(&[2]),
            },
            TagBitmap {
                property: Property::Keywords,
                value: TagValue::KeywordTag(Keyword::Flagged),
                documents: bitmap(&[1, 3]),
            },
        ],
        tokens: vec![TokenBitmap {
            property: Property::Subject,
            token: b"hello".to_vec(),
            documents: bitmap(&[4]),
        }],
        values: vec![
            ValueIndex {
                property: Property::Size,
                entries: vec![
                    ValueEntry { value: 100, document_id: 1 },
                    ValueEntry { value: 100, document_id: 3 },
                    ValueEntry { value: 200, document_id: 0 },
                    ValueEntry { value: 300, document_id: 2 },
                    ValueEntry { value: 400, document_id: 4 },
                ],
            },
            ValueIndex {
                property: Property::ReceivedAt,
                entries: vec![
                    ValueEntry { value: 1000, document_id: 0 },
                    ValueEntry { value: 2000, document_id: 1 },
                    ValueEntry { value: 86_500, document_id: 2 },
                    ValueEntry { value: 90_000, document_id: 3 },
                    ValueEntry { value: 200_000, document_id: 4 },
                ],
            },
        ],
        change_log: vec![
            ChangeEntry { modseq: 39, id: 0 },
            ChangeEntry { modseq: 41, id: 2 },
            ChangeEntry { modseq: 42, id: 3 },
        ],
    }
}

#[test]
fn uid_search_seen() {
    let st = store();
    let mut mb = selected();
    let resp = run_search(
        &st,
        &mut mb,
        &vec![Filter::Seen],
        &vec![],
        &None,
        true,
        false,
        1_000_000,
        0,
    )
    .unwrap();
    assert!(resp.is_uid);
    assert_eq!(resp.ids, vec![12]);
    assert!(resp.min.is_none() && resp.max.is_none() && resp.count.is_none());
    assert!(resp.highest_modseq.is_none());
}

#[test]
fn esearch_min_max_count() {
    let st = store();
    let mut mb = selected();
    let resp = run_search(
        &st,
        &mut mb,
        &vec![Filter::All],
        &vec![ResultOption::Min, ResultOption::Max, ResultOption::Count],
        &None,
        true,
        true,
        1_000_000,
        0,
    )
    .unwrap();
    assert_eq!(resp.min, Some(10));
    assert_eq!(resp.max, Some(14));
    assert_eq!(resp.count, Some(5));
    assert!(resp.ids.is_empty());
    assert!(resp.is_esearch);
}

#[test]
fn saved_search_replay_and_failed_save_rolls_back() {
    let st = store();
    let mut mb = selected();
    let resp = run_search(
        &st,
        &mut mb,
        &vec![Filter::Flagged],
        &vec![ResultOption::Save],
        &None,
        false,
        false,
        1_000_000,
        0,
    )
    .unwrap();
    // SAVE without ALL reports no id list; the slot still gets the
    // results.
    assert!(resp.ids.is_empty());
    match &mb.saved_search {
        SavedSearch::Saved { items } => {
            assert_eq!(
                items,
                &vec![ImapId { uid: 11, seqnum: 2 }, ImapId { uid: 13, seqnum: 4 }]
            );
        }
        _ => panic!("expected saved results"),
    }

    // Replay through `$` under uid numbering.
    let resp2 = run_search(
        &st,
        &mut mb,
        &vec![Filter::Sequence(Sequence::SavedSearch, false)],
        &vec![],
        &None,
        true,
        false,
        1_000_000,
        0,
    )
    .unwrap();
    assert_eq!(resp2.ids, vec![11, 13]);

    // A failing save leaves the slot as it was.
    let err = run_search(
        &st,
        &mut mb,
        &vec![Filter::Header(b"Foo".to_vec(), b"x".to_vec())],
        &vec![ResultOption::Save],
        &None,
        false,
        false,
        1_000_000,
        0,
    )
    .unwrap_err();
    assert_eq!(err, SearchError::DisallowedHeader(b"Foo".to_vec()));
    match &mb.saved_search {
        SavedSearch::Saved { items } => {
            assert_eq!(items.len(), 2);
            assert_eq!(items[0].uid, 11);
            assert_eq!(items[1].uid, 13);
        }
        _ => panic!("slot must hold the previous results"),
    }
}

#[test]
fn saved_search_missing_is_an_error() {
    let st = store();
    let mut mb = selected();
    let err = run_search(
        &st,
        &mut mb,
        &vec![Filter::Sequence(Sequence::SavedSearch, false)],
        &vec![],
        &None,
        false,
        false,
        1_000_000,
        0,
    )
    .unwrap_err();
    assert_eq!(err, SearchError::NoSavedSearch);
}

#[test]
fn modseq_search_reports_highest_modseq() {
    let st = store();
    let mut mb = selected();
    let resp = run_search(
        &st,
        &mut mb,
        &vec![Filter::ModSeq(40)],
        &vec![],
        &None,
        false,
        false,
        1_000_000,
        0,
    )
    .unwrap();
    // Documents 2 and 3 changed at or above modseq 40: seqnums 3 and 4.
    assert_eq!(resp.ids, vec![3, 4]);
    assert_eq!(resp.highest_modseq, Some(42));
}

#[test]
fn sorted_search_follows_the_size_index() {
    let st = store();
    let mut mb = selected();
    let resp = run_search(
        &st,
        &mut mb,
        &vec![Filter::All],
        &vec![],
        &Some(Comparator { key: SortKey::Size, ascending: false }),
        true,
        false,
        1_000_000,
        0,
    )
    .unwrap();
    assert!(resp.is_sort);
    // Sizes descending: doc 4 (400), 2 (300), 0 (200), then 3 and 1 (100).
    assert_eq!(resp.ids, vec![14, 12, 10, 13, 11]);
}

#[test]
fn sequence_set_search() {
    let st = store();
    let mut mb = selected();
    let resp = run_search(
        &st,
        &mut mb,
        &vec![Filter::Sequence(
            Sequence::SequenceSet(vec![SeqItem::Range(11, 12), SeqItem::Star]),
            true,
        )],
        &vec![],
        &None,
        false,
        false,
        1_000_000,
        0,
    )
    .unwrap();
    // Uids 11, 12 and the largest uid 14: seqnums 2, 3 and 5.
    assert_eq!(resp.ids, vec![2, 3, 5]);
}

#[test]
fn text_search_probes_the_token_index() {
    let st = store();
    let mut mb = selected();
    let resp = run_search(
        &st,
        &mut mb,
        &vec![Filter::Subject(b"hello".to_vec())],
        &vec![],
        &None,
        true,
        false,
        1_000_000,
        0,
    )
    .unwrap();
    assert_eq!(resp.ids, vec![14]);
}

#[test]
fn size_window_search() {
    let st = store();
    let mut mb = selected();
    let resp = run_search(
        &st,
        &mut mb,
        &vec![Filter::Larger(150), Filter::Smaller(350)],
        &vec![],
        &None,
        false,
        false,
        1_000_000,
        0,
    )
    .unwrap();
    // Sizes 200 and 300: documents 0 and 2, seqnums 1 and 3.
    assert_eq!(resp.ids, vec![1, 3]);
}

#[test]
fn unseen_complements_within_the_mailbox() {
    let st = store();
    let mut mb = selected();
    let resp = run_search(
        &st,
        &mut mb,
        &vec![Filter::Unseen],
        &vec![],
        &None,
        true,
        false,
        1_000_000,
        0,
    )
    .unwrap();
    assert_eq!(resp.ids, vec![10, 11, 13, 14]);
}

#[test]
fn or_group_unites_operands() {
    let st = store();
    let mut mb = selected();
    let resp = run_search(
        &st,
        &mut mb,
        &vec![Filter::Or, Filter::Seen, Filter::Flagged, Filter::End],
        &vec![],
        &None,
        true,
        false,
        1_000_000,
        0,
    )
    .unwrap();
    assert_eq!(resp.ids, vec![11, 12, 13]);
}

#[test]
fn bad_ids_are_rejected() {
    let st = store();
    let mut mb = selected();
    let err = run_search(
        &st,
        &mut mb,
        &vec![Filter::EmailId(b"!!".to_vec())],
        &vec![],
        &None,
        false,
        false,
        1_000_000,
        0,
    )
    .unwrap_err();
    assert_eq!(err, SearchError::InvalidEmailId(b"!!".to_vec()));
    let err2 = run_search(
        &st,
        &mut mb,
        &vec![Filter::ThreadId(b"".to_vec())],
        &vec![],
        &None,
        false,
        false,
        1_000_000,
        0,
    )
    .unwrap_err();
    assert_eq!(err2, SearchError::InvalidThreadId(b"".to_vec()));
}

#[test]
fn header_compile_tokens() {
    let st = store();
    let mut mb = selected();
    // A known id-carrying header keeps token case; searching it here
    // simply selects nothing, but must not be rejected.
    let r = run_search(
        &st,
        &mut mb,
        &vec![Filter::Header(b"Message-Id".to_vec(), b"AbC".to_vec())],
        &vec![],
        &None,
        false,
        false,
        1_000_000,
        0,
    );
    assert!(r.is_ok());
    assert!(r.unwrap().ids.is_empty());
}

#[test]
fn header_search_folds_token_case() {
    // Subject header tokens are prefixed with the header id 0 and
    // case-folded; a search with mixed case must hit the folded token.
    let mut st = store();
    st.tokens.push(TokenBitmap {
        property: Property::Headers,
        token: b"0hello".to_vec(),
        documents: bitmap(&[1]),
    });
    let mut mb = selected();
    let resp = run_search(
        &st,
        &mut mb,
        &vec![Filter::Header(b"Subject".to_vec(), b"HeLLo".to_vec())],
        &vec![],
        &None,
        true,
        false,
        1_000_000,
        0,
    )
    .unwrap();
    assert_eq!(resp.ids, vec![11]);
}

#[test]
fn header_search_with_several_tokens_needs_all() {
    let mut st = store();
    st.tokens.push(TokenBitmap {
        property: Property::Headers,
        token: b"0foo".to_vec(),
        documents: bitmap(&[1, 2]),
    });
    st.tokens.push(TokenBitmap {
        property: Property::Headers,
        token: b"0bar".to_vec(),
        documents: bitmap(&[2]),
    });
    let mut mb = selected();
    let resp = run_search(
        &st,
        &mut mb,
        &vec![Filter::Header(b"Subject".to_vec(), b"Foo  Bar".to_vec())],
        &vec![],
        &None,
        true,
        false,
        1_000_000,
        0,
    )
    .unwrap();
    assert_eq!(resp.ids, vec![12]);
}

#[test]
fn email_id_search_selects_one_document() {
    let st = store();
    let mut mb = selected();
    // Base-32 "2" denotes message id 2: document 2, uid 12.
    let resp = run_search(
        &st,
        &mut mb,
        &vec![Filter::EmailId(b"2".to_vec())],
        &vec![],
        &None,
        true,
        false,
        1_000_000,
        0,
    )
    .unwrap();
    assert_eq!(resp.ids, vec![12]);
}

#[test]
fn date_window_search() {
    let st = store();
    let mut mb = selected();
    // ON day 1 covers arrivals in [86400, 172800): documents 2 and 3.
    let resp = run_search(
        &st,
        &mut mb,
        &vec![Filter::On(86_400)],
        &vec![],
        &None,
        true,
        false,
        1_000_000,
        0,
    )
    .unwrap();
    assert_eq!(resp.ids, vec![12, 13]);
    // BEFORE and SINCE split the same index.
    let before = run_search(
        &st,
        &mut mb,
        &vec![Filter::Before(2000)],
        &vec![],
        &None,
        true,
        false,
        1_000_000,
        0,
    )
    .unwrap();
    assert_eq!(before.ids, vec![10]);
    let since = run_search(
        &st,
        &mut mb,
        &vec![Filter::Since(90_000)],
        &vec![],
        &None,
        true,
        false,
        1_000_000,
        0,
    )
    .unwrap();
    assert_eq!(since.ids, vec![13, 14]);
}

#[test]
fn older_and_younger_measure_from_now() {
    let st = store();
    let mut mb = selected();
    // With now = 100000, OLDER 50000 keeps arrivals at or before
    // 50000: documents 0 and 1.
    let older = run_search(
        &st,
        &mut mb,
        &vec![Filter::Older(50_000)],
        &vec![],
        &None,
        true,
        false,
        100_000,
        0,
    )
    .unwrap();
    assert_eq!(older.ids, vec![10, 11]);
    // The cutoff saturates at zero when the age exceeds the clock.
    let all = run_search(
        &st,
        &mut mb,
        &vec![Filter::Younger(200_000)],
        &vec![],
        &None,
        true,
        false,
        100_000,
        0,
    )
    .unwrap();
    assert_eq!(all.ids, vec![10, 11, 12, 13, 14]);
}

#[test]
fn virtual_selection_is_constrained_to_the_universe() {
    // Under the virtual all-mail view the universe of all documents
    // is pushed first, so a stray tag entry outside it cannot
    // surface.
    let mut st = store();
    st.tags[1].documents.insert(9);
    let mut mb = selected();
    mb.id = MailboxId { account_id: 1, mailbox_id: None };
    let resp = run_search(
        &st,
        &mut mb,
        &vec![Filter::Seen],
        &vec![ResultOption::Count],
        &None,
        true,
        true,
        1_000_000,
        0,
    )
    .unwrap();
    assert_eq!(resp.count, Some(1));
}

#[test]
fn compiled_all_includes_universe_first() {
    let st = store();
    let universe = bitmap(&[0, 1, 2, 3, 4]);
    let state = mailbox_state();
    let r = imap_core::compile::compile_filters(
        &vec![Filter::All],
        &universe,
        true,
        &state,
        &None,
        false,
        0,
        0,
        &st.change_log,
    )
    .unwrap();
    let atoms = r.0;
    assert_eq!(atoms.len(), 2);
    match &atoms[0] {
        FilterAtom::InSet(bm) => {
            assert_eq!(bm.iter().collect::<Vec<u32>>(), vec![0, 1, 2, 3, 4]);
        }
        _ => panic!("leading atom must constrain to the universe"),
    }
    match &atoms[1] {
        FilterAtom::InSet(bm) => {
            assert_eq!(bm.iter().collect::<Vec<u32>>(), vec![0, 1, 2, 3, 4]);
        }
        _ => panic!("ALL compiles to the universe set"),
    }
}

#[test]
fn compiled_groups_balance() {
    let st = store();
    let universe = bitmap(&[0, 1]);
    let state = mailbox_state();
    let r = imap_core::compile::compile_filters(
        &vec![
            Filter::And,
            Filter::Seen,
            Filter::Or,
            Filter::Flagged,
            Filter::New,
            Filter::End,
            Filter::End,
            Filter::Text(b"x".to_vec()),
        ],
        &universe,
        true,
        &state,
        &None,
        false,
        0,
        0,
        &st.change_log,
    )
    .unwrap();
    let mut depth: i64 = 0;
    for a in r.0.iter() {
        match a {
            FilterAtom::And | FilterAtom::Or | FilterAtom::Not => depth += 1,
            FilterAtom::End => depth -= 1,
            _ => (),
        }
        assert!(depth >= 0);
    }
    assert_eq!(depth, 0);
}
