//! Per-channel admission control: a bound on outstanding requests and on
//! request payload size.

use vstd::prelude::*;

verus! {

/// Limits of one channel.
#[derive(Clone, Copy, Debug, PartialEq, Eq, Structural)]
pub struct ChannelConfig {
    /// Largest number of requests that may be outstanding at once.
    pub request_limit: u32,
    /// Largest request payload, in bytes.
    pub max_request_payload_size: u32,
    /// Largest response payload, in bytes.
    pub max_response_payload_size: u32,
}

#[derive(Clone, Copy, Debug, PartialEq, Eq, Structural)]
pub enum AdmissionError {
    /// No channel of that id was configured.
    UnknownChannel,
    /// All slots of the channel are taken; try again after a release.
    WouldBlock,
    /// The payload is larger than the channel accepts.
    PayloadTooLarge,
}

/// Configured channels and the number of slots taken on each.
pub struct AdmissionView {
    pub configs: Seq<ChannelConfig>,
    pub in_flight: Seq<u32>,
}

pub open spec fn admission_wf(v: AdmissionView) -> bool {
    &&& v.configs.len() == v.in_flight.len()
    &&& v.configs.len() <= 0x10000
    &&& forall|i: int| 0 <= i < v.in_flight.len() ==> v.in_flight[i] <= v.configs[i].request_limit
}

/// Taking a slot on `ch`.
pub open spec fn acquire_spec(v: AdmissionView, ch: u16) -> (AdmissionView, Result<(), AdmissionError>) {
    if ch >= v.configs.len() {
        (v, Err(AdmissionError::UnknownChannel))
    } else if v.in_flight[ch as int] >= v.configs[ch as int].request_limit {
        (v, Err(AdmissionError::WouldBlock))
    } else {
        (
            AdmissionView {
                in_flight: v.in_flight.update(ch as int, (v.in_flight[ch as int] + 1) as u32),
                ..v
            },
            Ok(()),
        )
    }
}

/// Giving back a slot on `ch`; `false` when none was taken.
pub open spec fn release_spec(v: AdmissionView, ch: u16) -> (AdmissionView, bool) {
    if ch >= v.configs.len() || v.in_flight[ch as int] == 0 {
        (v, false)
    } else {
        (
            AdmissionView {
                in_flight: v.in_flight.update(ch as int, (v.in_flight[ch as int] - 1) as u32),
                ..v
            },
            true,
        )
    }
}

/// The check made on a request payload of `len` bytes before anything is sent.
pub open spec fn size_check_spec(v: AdmissionView, ch: u16, len: nat) -> Result<(), AdmissionError> {
    if ch >= v.configs.len() {
        Err(AdmissionError::UnknownChannel)
    } else if len > v.configs[ch as int].max_request_payload_size {
        Err(AdmissionError::PayloadTooLarge)
    } else {
        Ok(())
    }
}

/// `n` acquisitions in a row on `ch`.
pub open spec fn acquire_times(v: AdmissionView, ch: u16, n: nat) -> AdmissionView
    decreases n,
{
    if n == 0 {
        v
    } else {
        acquire_spec(acquire_times(v, ch, (n - 1) as nat), ch).0
    }
}

/// The admission state of a connection.
pub struct Admission {
    configs: Vec<ChannelConfig>,
    in_flight: Vec<u32>,
}

impl View for Admission {
    type V = AdmissionView;

    closed spec fn view(&self) -> AdmissionView {
        AdmissionView { configs: self.configs@, in_flight: self.in_flight@ }
    }
}

impl Admission {
    /// One channel per entry of `configs`, channel `i` taking `configs[i]`;
    /// no slot is taken.
    pub fn new(configs: Vec<ChannelConfig>) -> (r: Self)
        requires
            configs@.len() <= 0x10000,
        ensures
            admission_wf(r@),
            r@.configs == configs@,
            r@.in_flight =~= Seq::new(configs@.len(), |i: int| 0u32),
    {
        let mut in_flight: Vec<u32> = Vec::new();
        let mut i: usize = 0;
        while i < configs.len()
            invariant
                i <= configs@.len(),
                in_flight@ =~= Seq::new(i as nat, |j: int| 0u32),
            decreases configs@.len() - i,
        {
            in_flight.push(0);
            i += 1;
            assert(in_flight@ =~= Seq::new(i as nat, |j: int| 0u32));
        }
        let r = Admission { configs, in_flight };
        r
    }

    pub fn num_channels(&self) -> (r: usize)
        ensures
            r == self@.configs.len(),
    {
        self.configs.len()
    }

    /// The configuration of `channel`, if there is such a channel.
    pub fn config(&self, channel: u16) -> (r: Option<ChannelConfig>)
        ensures
            r == (if channel < self@.configs.len() {
                Some(self@.configs[channel as int])
            } else {
                None
            }),
    {
        if (channel as usize) < self.configs.len() {
            Some(self.configs[channel as usize])
        } else {
            None
        }
    }

    /// Takes a slot on `channel`, or tells the caller to retry later.
    pub fn try_acquire(&mut self, channel: u16) -> (r: Result<(), AdmissionError>)
        requires
            admission_wf(old(self)@),
        ensures
            admission_wf(final(self)@),
            (final(self)@, r) == acquire_spec(old(self)@, channel),
    {
        let ch = channel as usize;
        if ch >= self.configs.len() {
            return Err(AdmissionError::UnknownChannel);
        }
        let taken = self.in_flight[ch];
        if taken >= self.configs[ch].request_limit {
            return Err(AdmissionError::WouldBlock);
        }
        self.in_flight.set(ch, taken + 1);
        proof {
            let v = acquire_spec(old(self)@, channel).0;
            assert(self@.in_flight =~= v.in_flight);
        }
        Ok(())
    }

    /// Gives back a slot on `channel`.
    pub fn release(&mut self, channel: u16) -> (r: bool)
        requires
            admission_wf(old(self)@),
        ensures
            admission_wf(final(self)@),
            (final(self)@, r) == release_spec(old(self)@, channel),
    {
        let ch = channel as usize;
        if ch >= self.configs.len() || self.in_flight[ch] == 0 {
            return false;
        }
        let taken = self.in_flight[ch];
        self.in_flight.set(ch, taken - 1);
        proof {
            let v = release_spec(old(self)@, channel).0;
            assert(self@.in_flight =~= v.in_flight);
        }
        true
    }

    /// Rejects a request payload of `len` bytes that `channel` does not accept,
    /// before any byte of it is written.
    pub fn check_request_size(&self, channel: u16, len: usize) -> (r: Result<(), AdmissionError>)
        ensures
            r == size_check_spec(self@, channel, len as nat),
    {
        let ch = channel as usize;
        if ch >= self.configs.len() {
            Err(AdmissionError::UnknownChannel)
        } else if len as u64 > self.configs[ch].max_request_payload_size as u64 {
            Err(AdmissionError::PayloadTooLarge)
        } else {
            Ok(())
        }
    }
}

proof fn lemma_acquire_times(v: AdmissionView, ch: u16, n: nat)
    requires
        admission_wf(v),
        ch < v.configs.len(),
        v.in_flight[ch as int] == 0,
        n <= v.configs[ch as int].request_limit,
    ensures
        admission_wf(acquire_times(v, ch, n)),
        acquire_times(v, ch, n).configs == v.configs,
        acquire_times(v, ch, n).in_flight.len() == v.in_flight.len(),
        acquire_times(v, ch, n).in_flight[ch as int] == n,
        n > 0 ==> acquire_spec(acquire_times(v, ch, (n - 1) as nat), ch).1 == Ok::<(), AdmissionError>(()),
    decreases n,
{
    if n > 0 {
        lemma_acquire_times(v, ch, (n - 1) as nat);
    }
}

/// With every slot of a channel free, each of the first `request_limit`
/// acquisitions succeeds, the next one is told to wait, and after one release
/// it succeeds.
pub proof fn lemma_admission_bound(v: AdmissionView, ch: u16)
    requires
        admission_wf(v),
        ch < v.configs.len(),
        v.in_flight[ch as int] == 0,
    ensures
        forall|k: nat|
            k < v.configs[ch as int].request_limit ==> #[trigger] acquire_spec(acquire_times(v, ch, k), ch).1
                == Ok::<(), AdmissionError>(()),
        acquire_spec(acquire_times(v, ch, v.configs[ch as int].request_limit as nat), ch).1
            == Err::<(), AdmissionError>(AdmissionError::WouldBlock),
        v.configs[ch as int].request_limit > 0 ==> acquire_spec(
            release_spec(acquire_times(v, ch, v.configs[ch as int].request_limit as nat), ch).0,
            ch,
        ).1 == Ok::<(), AdmissionError>(()),
{
    let limit = v.configs[ch as int].request_limit as nat;
    assert forall|k: nat| k < limit implies #[trigger] acquire_spec(acquire_times(v, ch, k), ch).1
        == Ok::<(), AdmissionError>(()) by {
        lemma_acquire_times(v, ch, k + 1);
    }
    lemma_acquire_times(v, ch, limit);
}

} // verus!
