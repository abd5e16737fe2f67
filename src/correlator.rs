//! Correlation of responses with the requests that are waiting for them.

use vstd::prelude::*;

verus! {

/// How a request ended, over plain values.
pub enum ResolutionView {
    Success(Seq<u8>),
    AppError(Seq<u8>),
    ConnectionLost,
}

/// How a request ended.
#[derive(Debug)]
pub enum Resolution {
    /// The remote answered with outcome 0 and this payload.
    Success(Vec<u8>),
    /// The remote answered with a nonzero outcome; the payload is its detail.
    AppError(Vec<u8>),
    /// The connection went away before an answer came.
    ConnectionLost,
}

impl View for Resolution {
    type V = ResolutionView;

    open spec fn view(&self) -> ResolutionView {
        match self {
            Resolution::Success(p) => ResolutionView::Success(p@),
            Resolution::AppError(p) => ResolutionView::AppError(p@),
            Resolution::ConnectionLost => ResolutionView::ConnectionLost,
        }
    }
}

/// Why a request did not produce a payload.
#[derive(Debug)]
pub enum RequestError {
    /// The remote reported an application error, with this detail.
    AppError(Vec<u8>),
    /// The connection went away first.
    ConnectionLost,
}

impl Resolution {
    /// What the caller waiting on the request receives: the payload, `None`
    /// for an empty one, or the error.
    pub fn into_result(self) -> (r: Result<Option<Vec<u8>>, RequestError>)
        ensures
            match self@ {
                ResolutionView::Success(p) => match r {
                    Ok(Some(v)) => p.len() > 0 && v@ == p,
                    Ok(None) => p.len() == 0,
                    Err(_) => false,
                },
                ResolutionView::AppError(p) => r matches Err(RequestError::AppError(d)) && d@ == p,
                ResolutionView::ConnectionLost => r matches Err(RequestError::ConnectionLost),
            },
    {
        match self {
            Resolution::Success(p) => {
                if p.len() == 0 {
                    Ok(None)
                } else {
                    Ok(Some(p))
                }
            },
            Resolution::AppError(d) => Err(RequestError::AppError(d)),
            Resolution::ConnectionLost => Err(RequestError::ConnectionLost),
        }
    }
}

/// What a response frame with `outcome` and `payload` resolves a request to.
pub open spec fn resolution_of(outcome: u8, payload: Seq<u8>) -> ResolutionView {
    if outcome == 0 {
        ResolutionView::Success(payload)
    } else {
        ResolutionView::AppError(payload)
    }
}

pub enum SlotStateView {
    Pending,
    Resolved(ResolutionView),
}

pub struct SlotView {
    pub channel: u16,
    pub request_id: u32,
    pub state: SlotStateView,
}

/// Outstanding and resolved-but-not-collected requests, and whether the
/// connection is gone.
pub struct CorrelatorView {
    pub slots: Seq<SlotView>,
    pub closed: bool,
}

#[derive(Clone, Copy, Debug, PartialEq, Eq, Structural)]
pub enum RegisterError {
    /// The connection is gone: nothing will ever answer.
    ConnectionLost,
    /// A request with the same channel and id is still tracked.
    DuplicateId,
}

#[derive(Clone, Copy, Debug, PartialEq, Eq, Structural)]
pub enum ResolveStatus {
    /// A waiting request received the response.
    Delivered,
    /// No request with that channel and id is waiting: the frame is ignored.
    Unknown,
    /// The connection is already gone: the frame is ignored.
    Closed,
}

pub open spec fn has_key(s: Seq<SlotView>, ch: u16, id: u32) -> bool {
    exists|i: int| 0 <= i < s.len() && s[i].channel == ch && s[i].request_id == id
}

pub open spec fn key_index(s: Seq<SlotView>, ch: u16, id: u32) -> int {
    choose|i: int| 0 <= i < s.len() && s[i].channel == ch && s[i].request_id == id
}

/// No two slots share a channel and request id.
pub open spec fn keys_unique(s: Seq<SlotView>) -> bool {
    forall|i: int, j: int|
        0 <= i < s.len() && 0 <= j < s.len() && i != j ==> !(s[i].channel == s[j].channel && s[i].request_id
            == s[j].request_id)
}

/// The state of the request `(ch, id)`, if it is tracked.
pub open spec fn state_of(v: CorrelatorView, ch: u16, id: u32) -> Option<SlotStateView> {
    if has_key(v.slots, ch, id) {
        Some(v.slots[key_index(v.slots, ch, id)].state)
    } else {
        None
    }
}

pub open spec fn register_spec(v: CorrelatorView, ch: u16, id: u32) -> (CorrelatorView, Result<(), RegisterError>) {
    if v.closed {
        (v, Err(RegisterError::ConnectionLost))
    } else if has_key(v.slots, ch, id) {
        (v, Err(RegisterError::DuplicateId))
    } else {
        (
            CorrelatorView {
                slots: v.slots.push(SlotView { channel: ch, request_id: id, state: SlotStateView::Pending }),
                ..v
            },
            Ok(()),
        )
    }
}

pub open spec fn resolve_spec(v: CorrelatorView, ch: u16, id: u32, outcome: u8, payload: Seq<u8>) -> (
    CorrelatorView,
    ResolveStatus,
) {
    if v.closed {
        (v, ResolveStatus::Closed)
    } else if state_of(v, ch, id) == Some(SlotStateView::Pending) {
        (
            CorrelatorView {
                slots: v.slots.update(
                    key_index(v.slots, ch, id),
                    SlotView {
                        channel: ch,
                        request_id: id,
                        state: SlotStateView::Resolved(resolution_of(outcome, payload)),
                    },
                ),
                ..v
            },
            ResolveStatus::Delivered,
        )
    } else {
        (v, ResolveStatus::Unknown)
    }
}

pub open spec fn fail_slot(s: SlotView) -> SlotView {
    match s.state {
        SlotStateView::Pending => SlotView {
            state: SlotStateView::Resolved(ResolutionView::ConnectionLost),
            ..s
        },
        _ => s,
    }
}

pub open spec fn count_pending(s: Seq<SlotView>) -> nat
    decreases s.len(),
{
    if s.len() == 0 {
        0
    } else {
        count_pending(s.drop_last()) + if s.last().state is Pending {
            1nat
        } else {
            0nat
        }
    }
}

/// Failing every pending request once, and closing; a second call changes nothing.
pub open spec fn fail_all_spec(v: CorrelatorView) -> (CorrelatorView, nat) {
    if v.closed {
        (v, 0)
    } else {
        (CorrelatorView { slots: v.slots.map_values(|s: SlotView| fail_slot(s)), closed: true }, count_pending(v.slots))
    }
}

/// Collecting the result of `(ch, id)` once it is resolved; the slot is then gone.
pub open spec fn take_spec(v: CorrelatorView, ch: u16, id: u32) -> (CorrelatorView, Option<ResolutionView>) {
    match state_of(v, ch, id) {
        Some(SlotStateView::Resolved(r)) => (
            CorrelatorView { slots: v.slots.remove(key_index(v.slots, ch, id)), ..v },
            Some(r),
        ),
        _ => (v, None),
    }
}

/// Dropping the slot of `(ch, id)`, whatever its state; a later response for
/// it is then unknown.
pub open spec fn cancel_spec(v: CorrelatorView, ch: u16, id: u32) -> (CorrelatorView, bool) {
    if has_key(v.slots, ch, id) {
        (CorrelatorView { slots: v.slots.remove(key_index(v.slots, ch, id)), ..v }, true)
    } else {
        (v, false)
    }
}

pub enum SlotState {
    Pending,
    Resolved(Resolution),
}

struct Slot {
    channel: u16,
    request_id: u32,
    state: SlotState,
}

impl View for Slot {
    type V = SlotView;

    closed spec fn view(&self) -> SlotView {
        SlotView {
            channel: self.channel,
            request_id: self.request_id,
            state: match self.state {
                SlotState::Pending => SlotStateView::Pending,
                SlotState::Resolved(r) => SlotStateView::Resolved(r@),
            },
        }
    }
}

/// Maps each live `(channel, request id)` to the slot that its caller waits on.
pub struct Correlator {
    slots: Vec<Slot>,
    closed: bool,
}

impl View for Correlator {
    type V = CorrelatorView;

    closed spec fn view(&self) -> CorrelatorView {
        CorrelatorView { slots: self.slots@.map_values(|s: Slot| s@), closed: self.closed }
    }
}


/// Keys are unique, and once the connection is gone nothing is pending.
pub open spec fn correlator_wf(v: CorrelatorView) -> bool {
    &&& keys_unique(v.slots)
    &&& v.closed ==> forall|i: int| 0 <= i < v.slots.len() ==> !(v.slots[i].state is Pending)
}

proof fn lemma_key_index(s: Seq<SlotView>, ch: u16, id: u32, i: int)
    requires
        keys_unique(s),
        0 <= i < s.len(),
        s[i].channel == ch,
        s[i].request_id == id,
    ensures
        has_key(s, ch, id),
        key_index(s, ch, id) == i,
{
    assert(has_key(s, ch, id));
    let k = key_index(s, ch, id);
    assert(s[k].channel == ch && s[k].request_id == id);
}

impl Correlator {
    /// No request tracked; the connection is open.
    pub fn new() -> (r: Self)
        ensures
            correlator_wf(r@),
            r@.slots.len() == 0,
            !r@.closed,
    {
        let r = Correlator { slots: Vec::new(), closed: false };
        assert(r@.slots =~= Seq::<SlotView>::empty());
        r
    }

    pub fn is_closed(&self) -> (r: bool)
        ensures
            r == self@.closed,
    {
        self.closed
    }

    /// The number of tracked requests.
    pub fn len(&self) -> (r: usize)
        ensures
            r == self@.slots.len(),
    {
        self.slots.len()
    }

    /// Whether `(ch, id)` is tracked, pending or resolved.
    pub fn contains(&self, ch: u16, id: u32) -> (r: bool)
        requires
            correlator_wf(self@),
        ensures
            r == has_key(self@.slots, ch, id),
    {
        self.find(ch, id).is_some()
    }

    /// Where `(ch, id)` is tracked.
    fn find(&self, ch: u16, id: u32) -> (r: Option<usize>)
        requires
            correlator_wf(self@),
        ensures
            r is None <==> !has_key(self@.slots, ch, id),
            r matches Some(i) ==> i == key_index(self@.slots, ch, id) && i < self@.slots.len(),
    {
        let mut i: usize = 0;
        while i < self.slots.len()
            invariant
                i <= self@.slots.len(),
                self@.slots.len() == self.slots@.len(),
                correlator_wf(self@),
                forall|j: int| 0 <= j < i ==> !(self@.slots[j].channel == ch && self@.slots[j].request_id == id),
            decreases self.slots@.len() - i,
        {
            let s = &self.slots[i];
            assert(self@.slots[i as int] == s@);
            if s.channel == ch && s.request_id == id {
                proof {
                    lemma_key_index(self@.slots, ch, id, i as int);
                }
                return Some(i);
            }
            i += 1;
        }
        None
    }

    /// Tracks `(ch, id)` as pending. Must happen before the request's bytes are
    /// written, so that an early response finds it.
    pub fn register(&mut self, ch: u16, id: u32) -> (r: Result<(), RegisterError>)
        requires
            correlator_wf(old(self)@),
        ensures
            correlator_wf(final(self)@),
            (final(self)@, r) == register_spec(old(self)@, ch, id),
    {
        if self.closed {
            return Err(RegisterError::ConnectionLost);
        }
        if self.find(ch, id).is_some() {
            return Err(RegisterError::DuplicateId);
        }
        let ghost before = self@.slots;
        self.slots.push(Slot { channel: ch, request_id: id, state: SlotState::Pending });
        proof {
            let want = register_spec(old(self)@, ch, id).0;
            assert(self@.slots =~= want.slots);
            assert forall|i: int, j: int|
                0 <= i < self@.slots.len() && 0 <= j < self@.slots.len() && i != j implies !(
                self@.slots[i].channel == self@.slots[j].channel && self@.slots[i].request_id
                    == self@.slots[j].request_id) by {
                if i == before.len() as int {
                    assert(!(before[j].channel == ch && before[j].request_id == id));
                } else if j == before.len() as int {
                    assert(!(before[i].channel == ch && before[i].request_id == id));
                }
            }
        }
        Ok(())
    }

    /// Hands a response frame to the request that waits on it. A frame for
    /// no waiting request, or one after the connection is gone, is ignored.
    pub fn resolve(&mut self, ch: u16, id: u32, outcome: u8, payload: Vec<u8>) -> (r: ResolveStatus)
        requires
            correlator_wf(old(self)@),
        ensures
            correlator_wf(final(self)@),
            (final(self)@, r) == resolve_spec(old(self)@, ch, id, outcome, payload@),
    {
        if self.closed {
            return ResolveStatus::Closed;
        }
        match self.find(ch, id) {
            None => ResolveStatus::Unknown,
            Some(i) => {
                let pending = match self.slots[i].state {
                    SlotState::Pending => true,
                    SlotState::Resolved(_) => false,
                };
                assert(self@.slots[i as int] == self.slots@[i as int]@);
                if !pending {
                    return ResolveStatus::Unknown;
                }
                let res = if outcome == 0 {
                    Resolution::Success(payload)
                } else {
                    Resolution::AppError(payload)
                };
                self.slots.set(i, Slot { channel: ch, request_id: id, state: SlotState::Resolved(res) });
                proof {
                    let want = resolve_spec(old(self)@, ch, id, outcome, payload@).0;
                    assert(self@.slots =~= want.slots);
                }
                ResolveStatus::Delivered
            },
        }
    }

    /// Fails every pending request with a lost connection and closes; returns
    /// how many were failed. Only the first call has an effect.
    pub fn fail_all(&mut self) -> (r: usize)
        requires
            correlator_wf(old(self)@),
        ensures
            correlator_wf(final(self)@),
            (final(self)@, r as nat) == fail_all_spec(old(self)@),
    {
        if self.closed {
            return 0;
        }
        let ghost start = self@.slots;
        let mut count: usize = 0;
        let mut i: usize = 0;
        while i < self.slots.len()
            invariant
                self.slots@.len() == start.len(),
                self@.slots.len() == start.len(),
                !self.closed,
                i <= start.len(),
                count <= i,
                count == count_pending(start.subrange(0, i as int)),
                forall|j: int| 0 <= j < i ==> self@.slots[j] == fail_slot(start[j]),
                forall|j: int| i <= j < start.len() ==> self@.slots[j] == start[j],
            decreases start.len() - i,
        {
            assert(self@.slots[i as int] == self.slots@[i as int]@);
            assert(start.subrange(0, i + 1).drop_last() =~= start.subrange(0, i as int));
            let ghost prev = self@.slots;
            let pending = match self.slots[i].state {
                SlotState::Pending => true,
                SlotState::Resolved(_) => false,
            };
            if pending {
                let ch = self.slots[i].channel;
                let id = self.slots[i].request_id;
                self.slots.set(
                    i,
                    Slot { channel: ch, request_id: id, state: SlotState::Resolved(Resolution::ConnectionLost) },
                );
                count += 1;
            }
            assert(self@.slots =~= prev.update(i as int, fail_slot(prev[i as int])));
            i += 1;
        }
        self.closed = true;
        proof {
            assert(start.subrange(0, start.len() as int) =~= start);
            assert(self@.slots =~= start.map_values(|s: SlotView| fail_slot(s)));
        }
        count
    }

    /// Collects the result of `(ch, id)` if it is resolved, and stops tracking it.
    pub fn take(&mut self, ch: u16, id: u32) -> (r: Option<Resolution>)
        requires
            correlator_wf(old(self)@),
        ensures
            correlator_wf(final(self)@),
            final(self)@ == take_spec(old(self)@, ch, id).0,
            r matches Some(res) ==> take_spec(old(self)@, ch, id).1 == Some(res@),
            r is None ==> take_spec(old(self)@, ch, id).1 is None,
    {
        match self.find(ch, id) {
            None => None,
            Some(i) => {
                assert(self@.slots[i as int] == self.slots@[i as int]@);
                let resolved = match self.slots[i].state {
                    SlotState::Pending => false,
                    SlotState::Resolved(_) => true,
                };
                if !resolved {
                    return None;
                }
                let ghost before = self@.slots;
                let slot = self.slots.remove(i);
                proof {
                    assert(self@.slots =~= before.remove(i as int));
                    assert forall|a: int, b: int|
                        0 <= a < self@.slots.len() && 0 <= b < self@.slots.len() && a != b implies !(
                        self@.slots[a].channel == self@.slots[b].channel && self@.slots[a].request_id
                            == self@.slots[b].request_id) by {
                        let a2 = if a < i { a } else { a + 1 };
                        let b2 = if b < i { b } else { b + 1 };
                        assert(self@.slots[a] == before[a2]);
                        assert(self@.slots[b] == before[b2]);
                    }
                }
                match slot.state {
                    SlotState::Resolved(res) => Some(res),
                    SlotState::Pending => None,
                }
            },
        }
    }

    /// Abandons `(ch, id)`, resolved or not; `false` when it was not tracked.
    pub fn cancel(&mut self, ch: u16, id: u32) -> (r: bool)
        requires
            correlator_wf(old(self)@),
        ensures
            correlator_wf(final(self)@),
            (final(self)@, r) == cancel_spec(old(self)@, ch, id),
    {
        match self.find(ch, id) {
            None => false,
            Some(i) => {
                let ghost before = self@.slots;
                let _ = self.slots.remove(i);
                proof {
                    assert(self@.slots =~= before.remove(i as int));
                    assert forall|a: int, b: int|
                        0 <= a < self@.slots.len() && 0 <= b < self@.slots.len() && a != b implies !(
                        self@.slots[a].channel == self@.slots[b].channel && self@.slots[a].request_id
                            == self@.slots[b].request_id) by {
                        let a2 = if a < i { a } else { a + 1 };
                        let b2 = if b < i { b } else { b + 1 };
                        assert(self@.slots[a] == before[a2]);
                        assert(self@.slots[b] == before[b2]);
                    }
                }
                true
            },
        }
    }
}


proof fn lemma_same_keys(s: Seq<SlotView>, s2: Seq<SlotView>, ch: u16, id: u32)
    requires
        keys_unique(s),
        s2.len() == s.len(),
        forall|i: int|
            0 <= i < s.len() ==> s2[i].channel == s[i].channel && s2[i].request_id == s[i].request_id,
    ensures
        keys_unique(s2),
        has_key(s2, ch, id) == has_key(s, ch, id),
        has_key(s, ch, id) ==> key_index(s2, ch, id) == key_index(s, ch, id),
{
    if has_key(s, ch, id) {
        let k = key_index(s, ch, id);
        lemma_key_index(s, ch, id, k);
        lemma_key_index(s2, ch, id, k);
    }
    if has_key(s2, ch, id) {
        let k = key_index(s2, ch, id);
        assert(s[k].channel == ch && s[k].request_id == id);
    }
}

proof fn lemma_push_keys(s: Seq<SlotView>, n: SlotView, ch: u16, id: u32)
    requires
        keys_unique(s.push(n)),
        has_key(s, ch, id),
    ensures
        has_key(s.push(n), ch, id),
        key_index(s.push(n), ch, id) == key_index(s, ch, id),
{
    let k = key_index(s, ch, id);
    assert(s.push(n)[k] == s[k]);
    lemma_key_index(s.push(n), ch, id, k);
}

proof fn lemma_push_new_key(s: Seq<SlotView>, n: SlotView)
    requires
        keys_unique(s.push(n)),
    ensures
        has_key(s.push(n), n.channel, n.request_id),
        key_index(s.push(n), n.channel, n.request_id) == s.len(),
{
    lemma_key_index(s.push(n), n.channel, n.request_id, s.len() as int);
}

proof fn lemma_register_keeps(v: CorrelatorView, ch: u16, id: u32, ch2: u16, id2: u32)
    requires
        correlator_wf(v),
        !v.closed,
        !has_key(v.slots, ch, id),
    ensures
        correlator_wf(register_spec(v, ch, id).0),
        state_of(register_spec(v, ch, id).0, ch, id) == Some(SlotStateView::Pending),
        !(ch2 == ch && id2 == id) ==> state_of(register_spec(v, ch, id).0, ch2, id2) == state_of(v, ch2, id2),
{
    let n = SlotView { channel: ch, request_id: id, state: SlotStateView::Pending };
    let s2 = v.slots.push(n);
    assert forall|i: int, j: int| 0 <= i < s2.len() && 0 <= j < s2.len() && i != j implies !(s2[i].channel
        == s2[j].channel && s2[i].request_id == s2[j].request_id) by {
        if i == v.slots.len() {
            assert(!(v.slots[j].channel == ch && v.slots[j].request_id == id));
        } else if j == v.slots.len() {
            assert(!(v.slots[i].channel == ch && v.slots[i].request_id == id));
        }
    }
    lemma_push_new_key(v.slots, n);
    if !(ch2 == ch && id2 == id) {
        if has_key(v.slots, ch2, id2) {
            lemma_push_keys(v.slots, n, ch2, id2);
        } else {
            if has_key(s2, ch2, id2) {
                let k = key_index(s2, ch2, id2);
                assert(v.slots[k].channel == ch2 && v.slots[k].request_id == id2);
            }
        }
    }
}

proof fn lemma_resolve_keeps(v: CorrelatorView, ch: u16, id: u32, outcome: u8, payload: Seq<u8>, ch2: u16, id2: u32)
    requires
        correlator_wf(v),
    ensures
        correlator_wf(resolve_spec(v, ch, id, outcome, payload).0),
        resolve_spec(v, ch, id, outcome, payload).1 == ResolveStatus::Delivered ==> state_of(
            resolve_spec(v, ch, id, outcome, payload).0,
            ch,
            id,
        ) == Some(SlotStateView::Resolved(resolution_of(outcome, payload))),
        !(ch2 == ch && id2 == id) ==> state_of(resolve_spec(v, ch, id, outcome, payload).0, ch2, id2)
            == state_of(v, ch2, id2),
{
    let v1 = resolve_spec(v, ch, id, outcome, payload).0;
    if v1 != v {
        let k = key_index(v.slots, ch, id);
        lemma_key_index(v.slots, ch, id, k);
        lemma_same_keys(v.slots, v1.slots, ch, id);
        lemma_same_keys(v.slots, v1.slots, ch2, id2);
        if !(ch2 == ch && id2 == id) && has_key(v.slots, ch2, id2) {
            let k2 = key_index(v.slots, ch2, id2);
            assert(v.slots[k2].channel == ch2 && v.slots[k2].request_id == id2);
        }
    }
}

proof fn lemma_fail_all_keeps(v: CorrelatorView, ch: u16, id: u32)
    requires
        correlator_wf(v),
    ensures
        correlator_wf(fail_all_spec(v).0),
        fail_all_spec(v).0.closed,
        state_of(fail_all_spec(v).0, ch, id) == match state_of(v, ch, id) {
            Some(SlotStateView::Pending) => Some(SlotStateView::Resolved(ResolutionView::ConnectionLost)),
            other => other,
        },
{
    if !v.closed {
        let v2 = fail_all_spec(v).0;
        lemma_same_keys(v.slots, v2.slots, ch, id);
    } else if has_key(v.slots, ch, id) {
        lemma_key_index(v.slots, ch, id, key_index(v.slots, ch, id));
    }
}


/// A resolved request stays resolved with the same result: no later response,
/// for it or for another request, and no connection loss changes it, and a
/// second response for it is not delivered.
pub proof fn lemma_resolution_is_final(
    v: CorrelatorView,
    ch: u16,
    id: u32,
    r: ResolutionView,
    ch2: u16,
    id2: u32,
    outcome: u8,
    payload: Seq<u8>,
)
    requires
        correlator_wf(v),
        state_of(v, ch, id) == Some(SlotStateView::Resolved(r)),
    ensures
        state_of(resolve_spec(v, ch2, id2, outcome, payload).0, ch, id) == Some(SlotStateView::Resolved(r)),
        (ch2 == ch && id2 == id) ==> resolve_spec(v, ch2, id2, outcome, payload).1 != ResolveStatus::Delivered,
        state_of(fail_all_spec(v).0, ch, id) == Some(SlotStateView::Resolved(r)),
{
    lemma_resolve_keeps(v, ch2, id2, outcome, payload, ch, id);
    lemma_fail_all_keeps(v, ch, id);
}

/// A pending request ends exactly once, whichever comes first: its response,
/// or the loss of the connection. What comes second has no effect on it.
pub proof fn lemma_exactly_once(v: CorrelatorView, ch: u16, id: u32, outcome: u8, payload: Seq<u8>)
    requires
        correlator_wf(v),
        state_of(v, ch, id) == Some(SlotStateView::Pending),
    ensures
        !v.closed,
        resolve_spec(v, ch, id, outcome, payload).1 == ResolveStatus::Delivered,
        state_of(fail_all_spec(resolve_spec(v, ch, id, outcome, payload).0).0, ch, id) == Some(
            SlotStateView::Resolved(resolution_of(outcome, payload)),
        ),
        state_of(fail_all_spec(v).0, ch, id) == Some(SlotStateView::Resolved(ResolutionView::ConnectionLost)),
        resolve_spec(fail_all_spec(v).0, ch, id, outcome, payload) == (
            fail_all_spec(v).0,
            ResolveStatus::Closed,
        ),
{
    lemma_key_index(v.slots, ch, id, key_index(v.slots, ch, id));
    lemma_resolve_keeps(v, ch, id, outcome, payload, ch, id);
    let v1 = resolve_spec(v, ch, id, outcome, payload).0;
    lemma_fail_all_keeps(v1, ch, id);
    lemma_fail_all_keeps(v, ch, id);
}

/// Two requests registered one after the other, whose responses arrive in the
/// opposite order, each end with their own response.
pub proof fn lemma_out_of_order(
    v: CorrelatorView,
    ch_a: u16,
    id_a: u32,
    ch_b: u16,
    id_b: u32,
    outcome_a: u8,
    payload_a: Seq<u8>,
    outcome_b: u8,
    payload_b: Seq<u8>,
)
    requires
        correlator_wf(v),
        !v.closed,
        !has_key(v.slots, ch_a, id_a),
        !has_key(v.slots, ch_b, id_b),
        !(ch_a == ch_b && id_a == id_b),
    ensures
        ({
            let (v1, r1) = register_spec(v, ch_a, id_a);
            let (v2, r2) = register_spec(v1, ch_b, id_b);
            let (v3, s3) = resolve_spec(v2, ch_b, id_b, outcome_b, payload_b);
            let (v4, s4) = resolve_spec(v3, ch_a, id_a, outcome_a, payload_a);
            &&& r1 is Ok && r2 is Ok
            &&& s3 == ResolveStatus::Delivered && s4 == ResolveStatus::Delivered
            &&& state_of(v4, ch_a, id_a) == Some(SlotStateView::Resolved(resolution_of(outcome_a, payload_a)))
            &&& state_of(v4, ch_b, id_b) == Some(SlotStateView::Resolved(resolution_of(outcome_b, payload_b)))
        }),
{
    let v1 = register_spec(v, ch_a, id_a).0;
    lemma_register_keeps(v, ch_a, id_a, ch_b, id_b);
    let v2 = register_spec(v1, ch_b, id_b).0;
    lemma_register_keeps(v1, ch_b, id_b, ch_a, id_a);
    lemma_key_index(v2.slots, ch_b, id_b, key_index(v2.slots, ch_b, id_b));
    lemma_resolve_keeps(v2, ch_b, id_b, outcome_b, payload_b, ch_a, id_a);
    let v3 = resolve_spec(v2, ch_b, id_b, outcome_b, payload_b).0;
    lemma_key_index(v3.slots, ch_a, id_a, key_index(v3.slots, ch_a, id_a));
    lemma_resolve_keeps(v3, ch_a, id_a, outcome_a, payload_a, ch_b, id_b);
}

/// Losing the connection fails every pending request, on every channel, with
/// a lost connection, leaves none pending and the others as they were; it
/// reports how many it failed, and a second loss fails none.
pub proof fn lemma_fail_all_fan_out(v: CorrelatorView)
    requires
        correlator_wf(v),
        !v.closed,
    ensures
        ({
            let (v2, n) = fail_all_spec(v);
            &&& n == count_pending(v.slots)
            &&& v2.closed
            &&& v2.slots.len() == v.slots.len()
            &&& forall|i: int| 0 <= i < v.slots.len() ==> !(#[trigger] v2.slots[i].state is Pending)
            &&& forall|i: int|
                0 <= i < v.slots.len() && v.slots[i].state is Pending ==> #[trigger] v2.slots[i] == (SlotView {
                    state: SlotStateView::Resolved(ResolutionView::ConnectionLost),
                    ..v.slots[i]
                })
            &&& forall|i: int|
                0 <= i < v.slots.len() && !(v.slots[i].state is Pending) ==> #[trigger] v2.slots[i] == v.slots[i]
            &&& fail_all_spec(v2) == (v2, 0nat)
        }),
{
}

} // verus!
