use imap_core::mailbox::{ImapId, MailboxState, SavedSearch, SeqItem};
use imap_core::search::sort_ids;
use imap_core::store::{
    flatten_sorted, get_bitmaps_intersection, get_bitmaps_union, IndexStore, SortedId,
};
use imap_core::filter::Property;
use imap_core::store::{Operator, ValueEntry, ValueIndex};
use imap_core::text::{parse_base32, parse_rfc_header, split_ascii_ws};
use imap_core::websocket::{ws_step, WsAccountChanges, WsConfig, WsEvent, WsState};
use roaring::RoaringBitmap;

fn bitmap(ids: &[u32]) -> RoaringBitmap {
    let mut bm = RoaringBitmap::new();
    for &i in ids {
        bm.insert(i);
    }
    bm
}

fn state_with_successor() -> MailboxState {
    MailboxState {
        entries: vec![(5, ImapId { uid: 20, seqnum: 1 }), (9, ImapId { uid: 21, seqnum: 2 })],
        next_state: Some(Box::new(MailboxState {
            entries: vec![
                (5, ImapId { uid: 20, seqnum: 1 }),
                (11, ImapId { uid: 22, seqnum: 2 }),
            ],
            next_state: None,
        })),
    }
}

#[test]
fn map_result_id_prefers_the_snapshot() {
    let st = state_with_successor();
    assert_eq!(st.map_result_id(5, true), Some((20, ImapId { uid: 20, seqnum: 1 })));
    assert_eq!(st.map_result_id(9, false), Some((2, ImapId { uid: 21, seqnum: 2 })));
    // A document only the successor knows is recalled under uid
    // numbering alone.
    assert_eq!(st.map_result_id(11, true), Some((22, ImapId { uid: 22, seqnum: 2 })));
    assert_eq!(st.map_result_id(11, false), None);
    assert_eq!(st.map_result_id(77, true), None);
}

#[test]
fn sequence_resolution_by_uid_and_seqnum() {
    let st = state_with_successor();
    assert_eq!(st.sequence_to_ids(&vec![SeqItem::Number(20)], true), vec![5]);
    assert_eq!(st.sequence_to_ids(&vec![SeqItem::Number(1)], false), vec![5]);
    assert_eq!(st.sequence_to_ids(&vec![SeqItem::Star], true), vec![9]);
    assert_eq!(st.sequence_to_ids(&vec![SeqItem::RangeFrom(21)], true), vec![9]);
    assert_eq!(
        st.sequence_to_ids(&vec![SeqItem::Range(1, 2)], false),
        vec![5, 9]
    );
}

#[test]
fn saved_search_slot_transitions() {
    let mut slot = SavedSearch::Empty;
    assert!(slot.current_items().is_none());
    let prev = SavedSearch::begin_save(&mut slot);
    assert!(matches!(prev, SavedSearch::Empty));
    assert!(matches!(slot, SavedSearch::Pending));
    SavedSearch::commit_save(&mut slot, vec![ImapId { uid: 3, seqnum: 1 }]);
    match slot.current_items() {
        Some(items) => assert_eq!(items, &vec![ImapId { uid: 3, seqnum: 1 }]),
        None => panic!("commit must publish"),
    }
    let captured = match slot.current_items() {
        Some(v) => Some(v.clone()),
        None => None,
    };
    let _ = SavedSearch::begin_save(&mut slot);
    SavedSearch::rollback_save(&mut slot, captured);
    match slot.current_items() {
        Some(items) => assert_eq!(items.len(), 1),
        None => panic!("rollback must restore"),
    }
    SavedSearch::rollback_save(&mut slot, None);
    assert!(matches!(slot, SavedSearch::Empty));
}

#[test]
fn sort_ids_orders_ascending() {
    assert_eq!(sort_ids(vec![5, 1, 4, 1, 3]), vec![1, 1, 3, 4, 5]);
    assert_eq!(sort_ids(vec![]), Vec::<u32>::new());
}

#[test]
fn bitmap_batch_intersection_and_union() {
    let a = Some(bitmap(&[1, 2, 3]));
    let b = Some(bitmap(&[2, 3, 4]));
    let r = get_bitmaps_intersection(&vec![a, b]).unwrap();
    assert_eq!(r.iter().collect::<Vec<u32>>(), vec![2, 3]);
    assert!(get_bitmaps_intersection(&vec![Some(bitmap(&[1])), None]).is_none());
    assert!(get_bitmaps_intersection(&vec![]).is_none());

    let u = get_bitmaps_union(&vec![Some(bitmap(&[1])), None, Some(bitmap(&[9]))]).unwrap();
    assert_eq!(u.iter().collect::<Vec<u32>>(), vec![1, 9]);
    assert!(get_bitmaps_union(&vec![None, None]).is_none());
}

#[test]
fn range_scan_and_grouped_sort() {
    let st = IndexStore {
        document_ids: bitmap(&[0, 1, 2, 3]),
        tags: vec![],
        tokens: vec![],
        values: vec![ValueIndex {
            property: Property::ReceivedAt,
            entries: vec![
                ValueEntry { value: 10, document_id: 0 },
                ValueEntry { value: 10, document_id: 2 },
                ValueEntry { value: 20, document_id: 1 },
                ValueEntry { value: 30, document_id: 3 },
            ],
        }],
        change_log: vec![],
    };
    let lt = st.range_to_bitmap(Property::ReceivedAt, 20, Operator::LowerThan);
    assert_eq!(lt.iter().collect::<Vec<u32>>(), vec![0, 2]);
    let ge = st.range_to_bitmap(Property::ReceivedAt, 20, Operator::GreaterEqualThan);
    assert_eq!(ge.iter().collect::<Vec<u32>>(), vec![1, 3]);
    let eq = st.range_to_bitmap(Property::ReceivedAt, 10, Operator::Equal);
    assert_eq!(eq.iter().collect::<Vec<u32>>(), vec![0, 2]);

    let sorted = st.sort_bitmap(Property::ReceivedAt, &bitmap(&[0, 1, 2, 3]), 10, true);
    let flat = flatten_sorted(&sorted);
    assert_eq!(flat, vec![0, 2, 1, 3]);
    match &sorted[0] {
        SortedId::GroupedId(v) => assert_eq!(v, &vec![0, 2]),
        SortedId::Id(_) => panic!("equal values must group"),
    }

    // The limit counts groups and cuts the scan as it is reached.
    let limited = st.sort_bitmap(Property::ReceivedAt, &bitmap(&[0, 1, 2, 3]), 2, true);
    let flat2 = flatten_sorted(&limited);
    assert_eq!(flat2, vec![0, 2, 1]);
}

#[test]
fn base32_and_header_parsing() {
    assert_eq!(parse_base32(b"0"), Some(0));
    assert_eq!(parse_base32(b"10"), Some(32));
    assert_eq!(parse_base32(b"v"), Some(31));
    assert_eq!(parse_base32(b""), None);
    assert_eq!(parse_base32(b"x"), None);

    assert_eq!(parse_rfc_header(b"Subject"), Some(0));
    assert_eq!(parse_rfc_header(b"message-id"), Some(12));
    assert_eq!(parse_rfc_header(b"In-Reply-To"), Some(9));
    assert_eq!(parse_rfc_header(b"X-Custom"), None);
    assert_eq!(parse_rfc_header(b""), None);
}

#[test]
fn whitespace_tokenizer() {
    let toks = split_ascii_ws(b"  one\ttwo \r\n three ");
    assert_eq!(toks, vec![b"one".to_vec(), b"two".to_vec(), b"three".to_vec()]);
    assert_eq!(split_ascii_ws(b"   "), Vec::<Vec<u8>>::new());
}

fn ws_config() -> WsConfig {
    WsConfig { throttle_ms: 1000, timeout_ms: 10_000, heartbeat_ms: 5000 }
}

fn ws_state() -> WsState {
    WsState {
        change_types: imap_core::websocket::ALL_DATA_TYPES,
        pending: Vec::new(),
        last_request_ms: 0,
        last_changes_sent_ms: 0,
        last_heartbeat_ms: 0,
        next_event_ms: 5000,
    }
}

#[test]
fn ws_push_enable_and_disable() {
    let cfg = ws_config();
    let mut st = ws_state();
    let acts = ws_step(&cfg, &mut st, WsEvent::PushDisable, 10);
    assert!(!acts.end);
    assert_eq!(st.change_types, 0);
    // A disabled stream queues nothing.
    let acts2 = ws_step(&cfg, &mut st, WsEvent::StateChange(1, vec![(2, 7)]), 20);
    assert!(!acts2.end && acts2.flush_changes.is_none());
    assert!(st.pending.is_empty());
    let acts3 = ws_step(&cfg, &mut st, WsEvent::PushEnable(vec![2]), 30);
    assert!(!acts3.end);
    assert_ne!(st.change_types, 0);
}

#[test]
fn ws_throttle_and_flush() {
    let cfg = ws_config();
    let mut st = ws_state();
    // A subscribed change inside the throttle window is queued, and
    // the timer aims at the window's end.
    let acts = ws_step(&cfg, &mut st, WsEvent::StateChange(1, vec![(2, 7)]), 400);
    assert!(acts.flush_changes.is_none());
    assert_eq!(st.pending.len(), 1);
    assert_eq!(st.next_event_ms, 600);
    // A later change sees the throttle satisfied and flushes both.
    let acts2 = ws_step(&cfg, &mut st, WsEvent::StateChange(1, vec![(3, 8)]), 1200);
    let flushed: Vec<WsAccountChanges> = acts2.flush_changes.expect("flush");
    assert_eq!(flushed.len(), 1);
    assert_eq!(flushed[0].account_id, 1);
    assert_eq!(flushed[0].types, vec![(2, 7), (3, 8)]);
    assert!(st.pending.is_empty());
    assert_eq!(st.last_changes_sent_ms, 1200);
}

#[test]
fn ws_newer_change_id_wins() {
    let cfg = ws_config();
    let mut st = ws_state();
    let _ = ws_step(&cfg, &mut st, WsEvent::StateChange(1, vec![(2, 7)]), 100);
    let _ = ws_step(&cfg, &mut st, WsEvent::StateChange(1, vec![(2, 9)]), 200);
    assert_eq!(st.pending.len(), 1);
    assert_eq!(st.pending[0].types, vec![(2, 9)]);
}

#[test]
fn ws_timeout_and_heartbeat() {
    let cfg = ws_config();
    let mut st = ws_state();
    // Quiet but not idle long enough: a ping goes out after the
    // heartbeat interval.
    let acts = ws_step(&cfg, &mut st, WsEvent::TimedOut, 6000);
    assert!(!acts.end);
    assert!(acts.send_ping);
    assert_eq!(st.last_heartbeat_ms, 6000);
    // Idle past the timeout: the session ends.
    let acts2 = ws_step(&cfg, &mut st, WsEvent::TimedOut, 20_000);
    assert!(acts2.end);
    // A close frame ends it immediately.
    let mut st2 = ws_state();
    assert!(ws_step(&cfg, &mut st2, WsEvent::Close, 5).end);
}

#[test]
fn ws_other_frames_reset_the_idle_clock() {
    let cfg = ws_config();
    let mut st = ws_state();
    let acts = ws_step(&cfg, &mut st, WsEvent::OtherFrame, 9000);
    assert!(!acts.end && !acts.send_response && !acts.send_pong);
    assert_eq!(st.last_request_ms, 9000);
    // The frame kept the client from counting as idle.
    let acts2 = ws_step(&cfg, &mut st, WsEvent::TimedOut, 15_000);
    assert!(!acts2.end);
}

#[test]
fn ws_request_answers_and_ping_pongs() {
    let cfg = ws_config();
    let mut st = ws_state();
    let acts = ws_step(&cfg, &mut st, WsEvent::TextRequest, 50);
    assert!(acts.send_response && !acts.end);
    assert_eq!(st.last_request_ms, 50);
    let acts2 = ws_step(&cfg, &mut st, WsEvent::Ping, 60);
    assert!(acts2.send_pong);
}
