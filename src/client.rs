//! The caller-facing side of a connection: it admits, frames and tracks
//! requests, and turns received bytes into resolved requests. The event loop
//! around it writes the bytes it returns and feeds it the bytes it reads.

use vstd::prelude::*;
use crate::admission::{
    acquire_spec, admission_wf, release_spec, size_check_spec, Admission, AdmissionError,
    AdmissionView, ChannelConfig,
};
use crate::correlator::{
    cancel_spec, state_of, SlotStateView, correlator_wf, fail_all_spec, has_key, register_spec, resolve_spec, take_spec,
    Correlator, CorrelatorView, ResolveStatus, Resolution,
};
use crate::frame::{decode_frame, decode_spec, encode_frame, frame_bytes, DecodeView, Decoded, FrameError};

verus! {

#[derive(Clone, Copy, Debug, PartialEq, Eq, Structural)]
pub enum ClientError {
    /// No channel of that id was configured.
    UnknownChannel,
    /// The payload is larger than the channel accepts; nothing was sent.
    PayloadTooLarge,
    /// The channel has no free slot; retry after a request on it ends.
    WouldBlock,
    /// The connection is gone.
    ConnectionLost,
    /// The next id of the channel still belongs to a tracked request.
    IdInUse,
}

/// A request ready to be written: its frame's bytes, and the key to collect
/// its response by.
pub struct OutgoingRequest {
    pub channel: u16,
    pub request_id: u32,
    pub bytes: Vec<u8>,
}

/// What one step of the reader found at the start of its buffer.
#[derive(Clone, Copy, Debug, PartialEq, Eq, Structural)]
pub enum Received {
    /// A frame of `consumed` bytes was handed to the correlator.
    Frame { consumed: usize, status: ResolveStatus },
    /// More bytes are needed.
    NeedMore,
    /// The stream is unusable: every pending request was failed.
    Corrupt(FrameError),
}

pub struct ClientView {
    pub admission: AdmissionView,
    pub correlator: CorrelatorView,
    /// The id that the next request on each channel will take.
    pub next_ids: Seq<u32>,
}

pub open spec fn client_wf(v: ClientView) -> bool {
    &&& admission_wf(v.admission)
    &&& correlator_wf(v.correlator)
    &&& v.next_ids.len() == v.admission.configs.len()
}

pub open spec fn response_limits(configs: Seq<ChannelConfig>) -> Seq<u32> {
    configs.map_values(|c: ChannelConfig| c.max_response_payload_size)
}

/// The id after `id`, wrapping to 0.
pub open spec fn next_id(id: u32) -> u32 {
    if id == u32::MAX {
        0
    } else {
        (id + 1) as u32
    }
}

/// Sending a request of `len` payload bytes on `ch`: the size is checked
/// first, so that an oversized payload is refused before anything else.
pub open spec fn send_spec(v: ClientView, ch: u16, len: nat) -> (ClientView, Result<u32, ClientError>) {
    match size_check_spec(v.admission, ch, len) {
        Err(AdmissionError::UnknownChannel) => (v, Err(ClientError::UnknownChannel)),
        Err(_) => (v, Err(ClientError::PayloadTooLarge)),
        Ok(_) => {
            let id = v.next_ids[ch as int];
            if v.correlator.closed {
                (v, Err(ClientError::ConnectionLost))
            } else if acquire_spec(v.admission, ch).1 is Err {
                (v, Err(ClientError::WouldBlock))
            } else if has_key(v.correlator.slots, ch, id) {
                (v, Err(ClientError::IdInUse))
            } else {
                (
                    ClientView {
                        admission: acquire_spec(v.admission, ch).0,
                        correlator: register_spec(v.correlator, ch, id).0,
                        next_ids: v.next_ids.update(ch as int, next_id(id)),
                    },
                    Ok(id),
                )
            }
        },
    }
}

/// One step of the reader on the bytes `b` it has accumulated.
pub open spec fn receive_spec(v: ClientView, b: Seq<u8>) -> (ClientView, Received) {
    match decode_spec(b, response_limits(v.admission.configs)) {
        DecodeView::Complete { channel, request_id, outcome, payload, consumed } => {
            let (c, status) = resolve_spec(v.correlator, channel, request_id, outcome, payload);
            (ClientView { correlator: c, ..v }, Received::Frame { consumed: consumed as usize, status })
        },
        DecodeView::Incomplete => (v, Received::NeedMore),
        DecodeView::Corrupt(e) => (
            ClientView { correlator: fail_all_spec(v.correlator).0, ..v },
            Received::Corrupt(e),
        ),
    }
}

/// Collecting the result of `(ch, id)`; its admission slot is then free.
pub open spec fn poll_spec(v: ClientView, ch: u16, id: u32) -> (ClientView, Option<crate::correlator::ResolutionView>) {
    let (c, r) = take_spec(v.correlator, ch, id);
    if r is Some {
        (ClientView { admission: release_spec(v.admission, ch).0, correlator: c, ..v }, r)
    } else {
        (v, r)
    }
}

/// Abandoning `(ch, id)`; its admission slot is then free.
pub open spec fn cancel_request_spec(v: ClientView, ch: u16, id: u32) -> (ClientView, bool) {
    let (c, r) = cancel_spec(v.correlator, ch, id);
    if r {
        (ClientView { admission: release_spec(v.admission, ch).0, correlator: c, ..v }, r)
    } else {
        (v, r)
    }
}

pub struct Client {
    admission: Admission,
    correlator: Correlator,
    next_ids: Vec<u32>,
    response_limits: Vec<u32>,
}

impl View for Client {
    type V = ClientView;

    closed spec fn view(&self) -> ClientView {
        ClientView { admission: self.admission@, correlator: self.correlator@, next_ids: self.next_ids@ }
    }
}

impl Client {
    /// The client's own consistency: its view is well formed.
    pub closed spec fn inv(&self) -> bool {
        &&& client_wf(self@)
        &&& self.response_limits@ == response_limits(self@.admission.configs)
    }

    /// A client over channels `0 .. configs.len()`, with nothing in flight and
    /// every channel's ids starting at 0.
    pub fn new(configs: Vec<ChannelConfig>) -> (r: Self)
        requires
            configs@.len() <= 0x10000,
        ensures
            r.inv(),
            client_wf(r@),
            r@.admission.configs == configs@,
            r@.admission.in_flight == Seq::new(configs@.len(), |i: int| 0u32),
            r@.correlator.slots.len() == 0,
            !r@.correlator.closed,
            r@.next_ids == Seq::new(configs@.len(), |i: int| 0u32),
    {
        let mut limits: Vec<u32> = Vec::new();
        let mut ids: Vec<u32> = Vec::new();
        let mut i: usize = 0;
        while i < configs.len()
            invariant
                i <= configs@.len(),
                limits@ =~= response_limits(configs@.subrange(0, i as int)),
                ids@ =~= Seq::new(i as nat, |j: int| 0u32),
            decreases configs@.len() - i,
        {
            limits.push(configs[i].max_response_payload_size);
            ids.push(0);
            i += 1;
            assert(limits@ =~= response_limits(configs@.subrange(0, i as int)));
            assert(ids@ =~= Seq::new(i as nat, |j: int| 0u32));
        }
        assert(configs@.subrange(0, configs@.len() as int) =~= configs@);
        let admission = Admission::new(configs);
        let correlator = Correlator::new();
        Client { admission, correlator, next_ids: ids, response_limits: limits }
    }

    /// Admits, registers and frames a request with `payload` on `channel`.
    /// Registration happens before the caller writes the returned bytes.
    pub fn send_request(&mut self, channel: u16, payload: &[u8]) -> (r: Result<OutgoingRequest, ClientError>)
        requires
            old(self).inv(),
        ensures
            final(self).inv(),
            final(self)@ == send_spec(old(self)@, channel, payload@.len()).0,
            match r {
                Ok(o) => send_spec(old(self)@, channel, payload@.len()).1 == Ok::<u32, ClientError>(o.request_id)
                    && o.channel == channel && o.bytes@ == frame_bytes(channel, o.request_id, 0, payload@),
                Err(e) => send_spec(old(self)@, channel, payload@.len()).1 == Err::<u32, ClientError>(e),
            },
    {
        match self.admission.check_request_size(channel, payload.len()) {
            Err(AdmissionError::UnknownChannel) => {
                return Err(ClientError::UnknownChannel);
            },
            Err(_) => {
                return Err(ClientError::PayloadTooLarge);
            },
            Ok(_) => {},
        }
        let ch = channel as usize;
        let id = self.next_ids[ch];
        if self.correlator.is_closed() {
            return Err(ClientError::ConnectionLost);
        }
        let ghost a0 = self@.admission;
        match self.admission.try_acquire(channel) {
            Err(_) => {
                return Err(ClientError::WouldBlock);
            },
            Ok(_) => {},
        }
        if self.correlator.contains(channel, id) {
            let _ = self.admission.release(channel);
            proof {
                assert(self@.admission.in_flight =~= a0.in_flight);
            }
            return Err(ClientError::IdInUse);
        }
        let _ = self.correlator.register(channel, id);
        let next: u32 = if id == u32::MAX { 0 } else { id + 1 };
        self.next_ids.set(ch, next);
        let bytes = encode_frame(channel, id, 0, payload);
        Ok(OutgoingRequest { channel, request_id: id, bytes })
    }

    /// One step of the reader: looks for a frame at the start of `buf` and
    /// hands it to the request waiting on it. A corrupt stream fails every
    /// pending request. The caller drops `consumed` bytes of a frame it was told of.
    pub fn receive(&mut self, buf: &[u8]) -> (r: Received)
        requires
            old(self).inv(),
        ensures
            final(self).inv(),
            (final(self)@, r) == receive_spec(old(self)@, buf@),
    {
        match decode_frame(buf, self.response_limits.as_slice()) {
            Decoded::Complete { frame, consumed } => {
                let status = self.correlator.resolve(frame.channel, frame.request_id, frame.outcome, frame.payload);
                Received::Frame { consumed, status }
            },
            Decoded::Incomplete => Received::NeedMore,
            Decoded::Corrupt(e) => {
                let _ = self.correlator.fail_all();
                Received::Corrupt(e)
            },
        }
    }

    /// The transport failed or closed: every pending request ends with a lost
    /// connection, and later sends are refused. Returns how many were failed.
    pub fn connection_lost(&mut self) -> (r: usize)
        requires
            old(self).inv(),
        ensures
            final(self).inv(),
            final(self)@ == (ClientView { correlator: fail_all_spec(old(self)@.correlator).0, ..old(self)@ }),
            r as nat == fail_all_spec(old(self)@.correlator).1,
    {
        self.correlator.fail_all()
    }

    /// The result of `(channel, request_id)` once it has one; its slot is then
    /// given back to the channel.
    pub fn poll_response(&mut self, channel: u16, request_id: u32) -> (r: Option<Resolution>)
        requires
            old(self).inv(),
        ensures
            final(self).inv(),
            final(self)@ == poll_spec(old(self)@, channel, request_id).0,
            r matches Some(res) ==> poll_spec(old(self)@, channel, request_id).1 == Some(res@),
            r is None ==> poll_spec(old(self)@, channel, request_id).1 is None,
    {
        let r = self.correlator.take(channel, request_id);
        if r.is_some() {
            let _ = self.admission.release(channel);
        }
        r
    }

    /// Abandons `(channel, request_id)`: a response that still comes for it is
    /// ignored, and its slot is given back to the channel.
    pub fn cancel(&mut self, channel: u16, request_id: u32) -> (r: bool)
        requires
            old(self).inv(),
        ensures
            final(self).inv(),
            (final(self)@, r) == cancel_request_spec(old(self)@, channel, request_id),
    {
        let r = self.correlator.cancel(channel, request_id);
        if r {
            let _ = self.admission.release(channel);
        }
        r
    }

    pub fn is_closed(&self) -> (r: bool)
        ensures
            r == self@.correlator.closed,
    {
        self.correlator.is_closed()
    }
}

/// A request payload one byte over its channel's limit is refused, and
/// nothing changes: no slot is taken, no id is used and no bytes are framed.
pub proof fn lemma_oversized_rejected(v: ClientView, ch: u16)
    requires
        client_wf(v),
        ch < v.admission.configs.len(),
    ensures
        send_spec(v, ch, (v.admission.configs[ch as int].max_request_payload_size + 1) as nat) == (
            v,
            Err::<u32, ClientError>(ClientError::PayloadTooLarge),
        ),
{
}


/// On a channel whose slots are all taken, a send is told to wait and changes
/// nothing; once the result of one of its requests has been collected, the
/// channel admits again.
pub proof fn lemma_client_admission_bound(v: ClientView, ch: u16, len: nat, done: u32)
    requires
        client_wf(v),
        !v.correlator.closed,
        ch < v.admission.configs.len(),
        len <= v.admission.configs[ch as int].max_request_payload_size,
        v.admission.in_flight[ch as int] == v.admission.configs[ch as int].request_limit,
        v.admission.in_flight[ch as int] > 0,
        state_of(v.correlator, ch, done) matches Some(SlotStateView::Resolved(_)),
    ensures
        send_spec(v, ch, len) == (v, Err::<u32, ClientError>(ClientError::WouldBlock)),
        poll_spec(v, ch, done).1 is Some,
        acquire_spec(poll_spec(v, ch, done).0.admission, ch).1 is Ok,
        send_spec(poll_spec(v, ch, done).0, ch, len).1 != Err::<u32, ClientError>(ClientError::WouldBlock),
{
}

} // verus!
