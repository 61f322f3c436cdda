//! The decision core of a push-capable session stream: which data
//! types are subscribed, which state changes are queued, when queued
//! changes are flushed under the throttle, when a heartbeat goes out,
//! and when the connection ends. The surrounding loop performs the
//! actual reads, writes and timers and hands events back in.

use vstd::prelude::*;
use vstd::pervasive::VecAdditionalExecFns;

use crate::bytes::copy_vec;

verus! {

/// All data types, as a subscription bitmap.
pub const ALL_DATA_TYPES: u64 = 0xFFFF_FFFF_FFFF_FFFF;

/// Stream timing configuration, in milliseconds.
pub struct WsConfig {
    pub throttle_ms: u64,
    pub timeout_ms: u64,
    pub heartbeat_ms: u64,
}

/// The queued change ids of one account, one entry per data type.
pub struct WsAccountChanges {
    pub account_id: u32,
    pub types: Vec<(u8, u64)>,
}

pub ghost struct WsAccountChangesV {
    pub account_id: u32,
    pub types: Seq<(u8, u64)>,
}

impl View for WsAccountChanges {
    type V = WsAccountChangesV;

    open spec fn view(&self) -> WsAccountChangesV {
        WsAccountChangesV { account_id: self.account_id, types: self.types@ }
    }
}

pub open spec fn pending_views(p: Seq<WsAccountChanges>) -> Seq<WsAccountChangesV> {
    p.map_values(|a: WsAccountChanges| a@)
}

/// The stream's decision state.
pub struct WsState {
    pub change_types: u64,
    pub pending: Vec<WsAccountChanges>,
    pub last_request_ms: u64,
    pub last_changes_sent_ms: u64,
    pub last_heartbeat_ms: u64,
    pub next_event_ms: u64,
}

/// An event the surrounding loop hands in: an inbound frame, a lapse
/// of the event timer, or a push from the state manager. `OtherFrame`
/// stands for any further inbound frame (binary, pong): it resets the
/// idle clock like a request but calls for no reply.
pub enum WsEvent {
    TextRequest,
    PushEnable(Vec<u8>),
    PushDisable,
    Ping,
    OtherFrame,
    Close,
    StreamError,
    StreamEnd,
    TimedOut,
    StateChange(u32, Vec<(u8, u64)>),
    ChannelClosed,
}

/// What the surrounding loop must do after a step: at most one frame
/// goes out, and `end` closes the session.
pub struct WsActions {
    pub send_response: bool,
    pub send_pong: bool,
    pub send_ping: bool,
    pub flush_changes: Option<Vec<WsAccountChanges>>,
    pub end: bool,
}

/// The subscription bitmap an enable request asks for.
pub open spec fn spec_types_bitmap(types: Seq<u8>) -> u64
    decreases types.len(),
{
    if types.len() == 0 {
        0
    } else {
        spec_types_bitmap(types.drop_last()) | (1u64 << ((types.last() as u64) % 64))
    }
}

fn types_bitmap(types: &Vec<u8>) -> (r: u64)
    ensures
        r == spec_types_bitmap(types@),
{
    let mut r: u64 = 0;
    let mut i: usize = 0;
    while i < types.len()
        invariant
            i <= types@.len(),
            r == spec_types_bitmap(types@.take(i as int)),
        decreases types@.len() - i,
    {
        assert(types@.take(i as int + 1).drop_last() =~= types@.take(i as int));
        assert(types@.take(i as int + 1).last() == types@[i as int]);
        r = r | (1u64 << ((types[i] as u64) % 64));
        i = i + 1;
    }
    assert(types@.take(types@.len() as int) =~= types@);
    r
}

/// Whether the subscription covers some type of the pushed change.
pub open spec fn any_type_subscribed(mask: u64, types: Seq<(u8, u64)>) -> bool {
    exists|i: int|
        0 <= i < types.len() && (mask & (1u64 << ((#[trigger] types[i].0 as u64) % 64))) != 0
}

fn any_subscribed(mask: u64, types: &Vec<(u8, u64)>) -> (r: bool)
    ensures
        r == any_type_subscribed(mask, types@),
{
    let mut i: usize = 0;
    while i < types.len()
        invariant
            i <= types@.len(),
            forall|k: int|
                0 <= k < i ==> (mask & (1u64 << ((#[trigger] types@[k].0 as u64) % 64))) == 0,
        decreases types@.len() - i,
    {
        if (mask & (1u64 << ((types[i].0 as u64) % 64))) != 0 {
            return true;
        }
        i = i + 1;
    }
    false
}

/// Record one data type's newest change id within an account entry.
pub open spec fn set_type(types: Seq<(u8, u64)>, t: u8, id: u64) -> Seq<(u8, u64)> {
    if exists|i: int| 0 <= i < types.len() && types[i].0 == t {
        let i = choose|i: int| 0 <= i < types.len() && types[i].0 == t;
        types.update(i, (t, id))
    } else {
        types.push((t, id))
    }
}

/// Queue one (type, change id) pair under an account.
pub open spec fn set_change(p: Seq<WsAccountChangesV>, acct: u32, t: u8, id: u64) -> Seq<
    WsAccountChangesV,
> {
    if exists|i: int| 0 <= i < p.len() && p[i].account_id == acct {
        let i = choose|i: int| 0 <= i < p.len() && p[i].account_id == acct;
        p.update(i, WsAccountChangesV { account_id: acct, types: set_type(p[i].types, t, id) })
    } else {
        p.push(WsAccountChangesV { account_id: acct, types: seq![(t, id)] })
    }
}

/// Queue every pair of a pushed state change, first to last.
pub open spec fn apply_change_upto(
    p: Seq<WsAccountChangesV>,
    acct: u32,
    types: Seq<(u8, u64)>,
    k: int,
) -> Seq<WsAccountChangesV>
    decreases k,
{
    if k <= 0 {
        p
    } else {
        let pre = apply_change_upto(p, acct, types, k - 1);
        set_change(pre, acct, types[k - 1].0, types[k - 1].1)
    }
}

/// Accounts are unique in the queue, and data types within an
/// account's entry.
pub open spec fn pending_wf(p: Seq<WsAccountChangesV>) -> bool {
    &&& forall|i: int, j: int| 0 <= i < j < p.len() ==> p[i].account_id != p[j].account_id
    &&& forall|a: int, i: int, j: int|
        0 <= a < p.len() && 0 <= i < j < p[a].types.len() ==> (#[trigger] p[a].types[i]).0 != (
        #[trigger] p[a].types[j]).0
}

fn find_account(pending: &Vec<WsAccountChanges>, acct: u32) -> (r: Option<usize>)
    ensures
        match r {
            Some(i) => i < pending@.len() && pending@[i as int].account_id == acct,
            None => forall|k: int| 0 <= k < pending@.len() ==> pending@[k].account_id != acct,
        },
{
    let mut i: usize = 0;
    while i < pending.len()
        invariant
            i <= pending@.len(),
            forall|k: int| 0 <= k < i ==> pending@[k].account_id != acct,
        decreases pending@.len() - i,
    {
        if pending[i].account_id == acct {
            return Some(i);
        }
        i = i + 1;
    }
    None
}

fn find_type(types: &Vec<(u8, u64)>, t: u8) -> (r: Option<usize>)
    ensures
        match r {
            Some(i) => i < types@.len() && types@[i as int].0 == t,
            None => forall|k: int| 0 <= k < types@.len() ==> types@[k].0 != t,
        },
{
    let mut i: usize = 0;
    while i < types.len()
        invariant
            i <= types@.len(),
            forall|k: int| 0 <= k < i ==> types@[k].0 != t,
        decreases types@.len() - i,
    {
        if types[i].0 == t {
            return Some(i);
        }
        i = i + 1;
    }
    None
}

proof fn lemma_type_unique(types: Seq<(u8, u64)>, t: u8, a: int, b: int)
    requires
        0 <= a < types.len(),
        0 <= b < types.len(),
        types[a].0 == t,
        types[b].0 == t,
        forall|i: int, j: int| 0 <= i < j < types.len() ==> types[i].0 != types[j].0,
    ensures
        a == b,
{
    if a < b {
        assert(types[a].0 != types[b].0);
    } else if b < a {
        assert(types[b].0 != types[a].0);
    }
}

proof fn lemma_account_unique(p: Seq<WsAccountChangesV>, acct: u32, a: int, b: int)
    requires
        pending_wf(p),
        0 <= a < p.len(),
        0 <= b < p.len(),
        p[a].account_id == acct,
        p[b].account_id == acct,
    ensures
        a == b,
{
    if a < b {
        assert(p[a].account_id != p[b].account_id);
    } else if b < a {
        assert(p[b].account_id != p[a].account_id);
    }
}

/// Queue one (type, change id) pair of a pushed change.
fn record_change(pending: &mut Vec<WsAccountChanges>, acct: u32, t: u8, id: u64)
    requires
        pending_wf(pending_views(old(pending)@)),
    ensures
        pending_views(final(pending)@) == set_change(pending_views(old(pending)@), acct, t, id),
        pending_wf(pending_views(final(pending)@)),
{
    let ghost p0 = pending_views(pending@);
    match find_account(pending, acct) {
        Some(i) => {
            proof {
                assert(p0[i as int] == pending@[i as int]@);
                assert(p0[i as int].account_id == acct);
                let w = choose|w: int| 0 <= w < p0.len() && p0[w].account_id == acct;
                lemma_account_unique(p0, acct, w, i as int);
            }
            let entry = &pending[i];
            let ghost ts = p0[i as int].types;
            assert(ts == entry.types@);
            let mut new_types = copy_vec(&entry.types);
            match find_type(&entry.types, t) {
                Some(j) => {
                    new_types.set(j, (t, id));
                    proof {
                        assert(ts[j as int].0 == t);
                        let w = choose|w: int| 0 <= w < ts.len() && #[trigger] ts[w].0 == t;
                        lemma_type_unique(ts, t, w, j as int);
                        assert(new_types@ =~= set_type(ts, t, id));
                    }
                },
                None => {
                    new_types.push((t, id));
                    assert(new_types@ =~= set_type(ts, t, id));
                },
            }
            assert(forall|a: int, b: int|
                0 <= a < b < new_types@.len() ==> (#[trigger] new_types@[a]).0 != (
                #[trigger] new_types@[b]).0) by {
                assert(forall|a: int, b: int|
                    0 <= a < b < ts.len() ==> (#[trigger] ts[a]).0 != (#[trigger] ts[b]).0);
            }
            let updated = WsAccountChanges { account_id: acct, types: new_types };
            let ghost uv = updated@;
            pending.set(i, updated);
            proof {
                assert(pending_views(pending@) =~= p0.update(i as int, uv));
                assert(forall|k: int|
                    0 <= k < p0.len() && k != i ==> pending_views(pending@)[k] == p0[k]);
            }
        },
        None => {
            let mut new_types: Vec<(u8, u64)> = Vec::new();
            new_types.push((t, id));
            let entry = WsAccountChanges { account_id: acct, types: new_types };
            let ghost ev = entry@;
            pending.push(entry);
            proof {
                assert(ev.types =~= seq![(t, id)]);
                assert(ev == WsAccountChangesV { account_id: acct, types: seq![(t, id)] });
                assert(pending_views(pending@) =~= p0.push(
                    WsAccountChangesV { account_id: acct, types: seq![(t, id)] },
                ));
                assert(forall|k: int| 0 <= k < p0.len() ==> pending_views(pending@)[k] == p0[k]);
            }
        },
    }
}

/// Queue every pair of a pushed state change, first to last.
pub fn apply_state_change(pending: &mut Vec<WsAccountChanges>, acct: u32, types: &Vec<(u8, u64)>)
    requires
        pending_wf(pending_views(old(pending)@)),
    ensures
        pending_views(final(pending)@) == apply_change_upto(
            pending_views(old(pending)@),
            acct,
            types@,
            types@.len() as int,
        ),
        pending_wf(pending_views(final(pending)@)),
{
    let mut k: usize = 0;
    while k < types.len()
        invariant
            k <= types@.len(),
            pending_wf(pending_views(pending@)),
            pending_views(pending@) == apply_change_upto(
                pending_views(old(pending)@),
                acct,
                types@,
                k as int,
            ),
        decreases types@.len() - k,
    {
        let (t, id) = types[k];
        record_change(pending, acct, t, id);
        k = k + 1;
    }
}

pub open spec fn flush_opt_views(o: Option<Vec<WsAccountChanges>>) -> Option<
    Seq<WsAccountChangesV>,
> {
    match o {
        Some(v) => Some(pending_views(v@)),
        None => None,
    }
}

/// The flush discipline: queued changes go out once the throttle
/// allows, and the timer is aimed at the remainder otherwise; with
/// nothing queued a quiet stream is pinged after the heartbeat
/// interval.
pub open spec fn flush_post(
    cfg: WsConfig,
    pend0: Seq<WsAccountChangesV>,
    sent0: u64,
    hb0: u64,
    next0: u64,
    now: u64,
    pend1: Seq<WsAccountChangesV>,
    sent1: u64,
    hb1: u64,
    next1: u64,
    flushed: Option<Seq<WsAccountChangesV>>,
    ping: bool,
) -> bool {
    if pend0.len() > 0 {
        if now - sent0 >= cfg.throttle_ms {
            &&& flushed == Some(pend0)
            &&& pend1.len() == 0
            &&& sent1 == now
            &&& hb1 == now
            &&& next1 == cfg.heartbeat_ms
            &&& !ping
        } else {
            &&& flushed is None
            &&& !ping
            &&& pend1 == pend0
            &&& sent1 == sent0
            &&& hb1 == hb0
            &&& next1 == cfg.throttle_ms - (now - sent0)
        }
    } else {
        if now - hb0 > cfg.heartbeat_ms {
            &&& ping
            &&& flushed is None
            &&& pend1 == pend0
            &&& sent1 == sent0
            &&& hb1 == now
            &&& next1 == cfg.heartbeat_ms
        } else {
            &&& !ping
            &&& flushed is None
            &&& pend1 == pend0
            &&& sent1 == sent0
            &&& hb1 == hb0
            &&& next1 == next0
        }
    }
}

/// One step of the stream: consume an event, update the subscription
/// and the queued changes, and decide what goes out. Enable and
/// disable requests change the subscription and nothing else; frames
/// and timer lapses that keep the session alive end with the flush
/// discipline; a timed-out stream ends only when the client has been
/// idle past the configured timeout.
pub fn ws_step(cfg: &WsConfig, st: &mut WsState, event: WsEvent, now: u64) -> (acts: WsActions)
    requires
        pending_wf(pending_views(old(st).pending@)),
        old(st).last_request_ms <= now,
        old(st).last_changes_sent_ms <= now,
        old(st).last_heartbeat_ms <= now,
    ensures
        pending_wf(pending_views(final(st).pending@)),
        final(st).last_request_ms <= now,
        final(st).last_changes_sent_ms <= now,
        final(st).last_heartbeat_ms <= now,
        !(event is PushEnable) && !(event is PushDisable) ==> final(st).change_types == old(
            st,
        ).change_types,
        ({
            let p0 = pending_views(old(st).pending@);
            let p1 = pending_views(final(st).pending@);
            match event {
                WsEvent::PushEnable(types) => {
                    &&& final(st).change_types == (if types@.len() == 0 {
                        ALL_DATA_TYPES
                    } else {
                        spec_types_bitmap(types@)
                    })
                    &&& p1 == p0
                    &&& !acts.end && !acts.send_response && !acts.send_pong && !acts.send_ping
                    &&& acts.flush_changes is None
                    &&& final(st).last_request_ms == old(st).last_request_ms
                    &&& final(st).last_changes_sent_ms == old(st).last_changes_sent_ms
                    &&& final(st).last_heartbeat_ms == old(st).last_heartbeat_ms
                    &&& final(st).next_event_ms == old(st).next_event_ms
                },
                WsEvent::PushDisable => {
                    &&& final(st).change_types == 0
                    &&& p1 == p0
                    &&& !acts.end && !acts.send_response && !acts.send_pong && !acts.send_ping
                    &&& acts.flush_changes is None
                    &&& final(st).last_request_ms == old(st).last_request_ms
                    &&& final(st).last_changes_sent_ms == old(st).last_changes_sent_ms
                    &&& final(st).last_heartbeat_ms == old(st).last_heartbeat_ms
                    &&& final(st).next_event_ms == old(st).next_event_ms
                },
                WsEvent::Close | WsEvent::StreamError | WsEvent::StreamEnd
                    | WsEvent::ChannelClosed => {
                    &&& acts.end
                    &&& !acts.send_response && !acts.send_pong && !acts.send_ping
                    &&& acts.flush_changes is None
                    &&& *final(st) == *old(st)
                },
                WsEvent::TimedOut => {
                    &&& acts.end == (now - old(st).last_request_ms > cfg.timeout_ms)
                    &&& !acts.send_response && !acts.send_pong
                    &&& (acts.end ==> *final(st) == *old(st))
                    &&& (!acts.end ==> flush_post(
                        *cfg,
                        p0,
                        old(st).last_changes_sent_ms,
                        old(st).last_heartbeat_ms,
                        old(st).next_event_ms,
                        now,
                        p1,
                        final(st).last_changes_sent_ms,
                        final(st).last_heartbeat_ms,
                        final(st).next_event_ms,
                        flush_opt_views(acts.flush_changes),
                        acts.send_ping,
                    ))
                    &&& (acts.end ==> p1 == p0)
                },
                WsEvent::TextRequest => {
                    &&& acts.send_response && !acts.send_pong && !acts.end
                    &&& final(st).last_request_ms == now
                    &&& flush_post(
                        *cfg,
                        p0,
                        old(st).last_changes_sent_ms,
                        now,
                        old(st).next_event_ms,
                        now,
                        p1,
                        final(st).last_changes_sent_ms,
                        final(st).last_heartbeat_ms,
                        final(st).next_event_ms,
                        flush_opt_views(acts.flush_changes),
                        acts.send_ping,
                    )
                },
                WsEvent::Ping => {
                    &&& acts.send_pong && !acts.send_response && !acts.end
                    &&& final(st).last_request_ms == now
                    &&& flush_post(
                        *cfg,
                        p0,
                        old(st).last_changes_sent_ms,
                        now,
                        old(st).next_event_ms,
                        now,
                        p1,
                        final(st).last_changes_sent_ms,
                        final(st).last_heartbeat_ms,
                        final(st).next_event_ms,
                        flush_opt_views(acts.flush_changes),
                        acts.send_ping,
                    )
                },
                WsEvent::OtherFrame => {
                    &&& !acts.send_response && !acts.send_pong && !acts.end
                    &&& final(st).last_request_ms == now
                    &&& flush_post(
                        *cfg,
                        p0,
                        old(st).last_changes_sent_ms,
                        now,
                        old(st).next_event_ms,
                        now,
                        p1,
                        final(st).last_changes_sent_ms,
                        final(st).last_heartbeat_ms,
                        final(st).next_event_ms,
                        flush_opt_views(acts.flush_changes),
                        acts.send_ping,
                    )
                },
                WsEvent::StateChange(acct, types) => {
                    &&& !acts.end && !acts.send_response && !acts.send_pong
                    &&& final(st).last_request_ms == old(st).last_request_ms
                    &&& ({
                        let merged = if old(st).change_types != 0 && any_type_subscribed(
                            old(st).change_types,
                            types@,
                        ) {
                            apply_change_upto(p0, acct, types@, types@.len() as int)
                        } else {
                            p0
                        };
                        flush_post(
                            *cfg,
                            merged,
                            old(st).last_changes_sent_ms,
                            old(st).last_heartbeat_ms,
                            old(st).next_event_ms,
                            now,
                            p1,
                            final(st).last_changes_sent_ms,
                            final(st).last_heartbeat_ms,
                            final(st).next_event_ms,
                            flush_opt_views(acts.flush_changes),
                            acts.send_ping,
                        )
                    })
                },
            }
        }),
{
    let mut acts = WsActions {
        send_response: false,
        send_pong: false,
        send_ping: false,
        flush_changes: None,
        end: false,
    };
    match &event {
        WsEvent::TextRequest => {
            acts.send_response = true;
            st.last_request_ms = now;
            st.last_heartbeat_ms = now;
        },
        WsEvent::PushEnable(types) => {
            st.change_types = if types.len() == 0 {
                ALL_DATA_TYPES
            } else {
                types_bitmap(types)
            };
            return acts;
        },
        WsEvent::PushDisable => {
            st.change_types = 0;
            return acts;
        },
        WsEvent::Ping => {
            acts.send_pong = true;
            st.last_request_ms = now;
            st.last_heartbeat_ms = now;
        },
        WsEvent::OtherFrame => {
            st.last_request_ms = now;
            st.last_heartbeat_ms = now;
        },
        WsEvent::Close => {
            acts.end = true;
            return acts;
        },
        WsEvent::StreamError => {
            acts.end = true;
            return acts;
        },
        WsEvent::StreamEnd => {
            acts.end = true;
            return acts;
        },
        WsEvent::TimedOut => {
            if now - st.last_request_ms > cfg.timeout_ms {
                acts.end = true;
                return acts;
            }
        },
        WsEvent::StateChange(acct, types) => {
            if st.change_types != 0 && any_subscribed(st.change_types, types) {
                apply_state_change(&mut st.pending, *acct, types);
            }
        },
        WsEvent::ChannelClosed => {
            acts.end = true;
            return acts;
        },
    }
    if st.pending.len() > 0 {
        let elapsed = now - st.last_changes_sent_ms;
        if elapsed >= cfg.throttle_ms {
            let mut drained: Vec<WsAccountChanges> = Vec::new();
            core::mem::swap(&mut drained, &mut st.pending);
            acts.flush_changes = Some(drained);
            st.last_changes_sent_ms = now;
            st.last_heartbeat_ms = now;
            st.next_event_ms = cfg.heartbeat_ms;
            assert(pending_views(st.pending@) =~= Seq::<WsAccountChangesV>::empty());
        } else {
            st.next_event_ms = cfg.throttle_ms - elapsed;
        }
    } else if now - st.last_heartbeat_ms > cfg.heartbeat_ms {
        acts.send_ping = true;
        st.last_heartbeat_ms = now;
        st.next_event_ms = cfg.heartbeat_ms;
    }
    acts
}

} // verus!
