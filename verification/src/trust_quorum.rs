//! The exchange of shares of the rack secret between sleds at boot.
//!
//! Each sled serves its share to every peer that completes the handshake,
//! and collects the shares of its peers until it holds as many as the
//! secret needs.  This module holds what a sled decides on the way; the
//! sockets, the handshake and the check of a share against the verifier are
//! the caller's.

use crate::error::ApiError;
use crate::error::ApiErrorView;
use vstd::prelude::*;
use vstd::string::*;

verus! {

/// The port on which a sled serves its share.
pub const TRUST_QUORUM_PORT: u16 = 7645;

/// The number of bytes in front of a message that say how long it is.
pub const FRAME_HEADER_LENGTH: usize = 4;

/// The length `n` as the four bytes in front of a message, most
/// significant first.
pub open spec fn length_header(n: nat) -> Seq<u8> {
    seq![
        ((n / 0x100_0000) % 0x100) as u8,
        ((n / 0x1_0000) % 0x100) as u8,
        ((n / 0x100) % 0x100) as u8,
        (n % 0x100) as u8,
    ]
}

/// The length that the four bytes at the front of `bytes` say.
pub open spec fn header_length(bytes: Seq<u8>) -> nat {
    (bytes[0] as nat) * 0x100_0000 + (bytes[1] as nat) * 0x1_0000 + (bytes[2] as nat) * 0x100
        + bytes[3] as nat
}

/// `payload` as a message on the wire: its length, then its bytes.
pub open spec fn framed(payload: Seq<u8>) -> Seq<u8> {
    length_header(payload.len()) + payload
}

/// The error for a share that is too long for a message.
pub open spec fn share_too_long() -> ApiErrorView {
    ApiErrorView::InvalidRequest { message: "share is too long for a message"@ }
}

/// The error for a boot that could not collect the shares it needs.
pub open spec fn quorum_not_reached() -> ApiErrorView {
    ApiErrorView::InternalError {
        message: "too few shares of the rack secret could be collected"@,
    }
}

/// Puts the length of `payload` in front of it, or says that `payload` is
/// too long for its length to fit in the header.
pub fn frame(payload: &Vec<u8>) -> (r: Result<Vec<u8>, ApiError>)
    ensures
        match r {
            Ok(message) => payload@.len() <= u32::MAX && message@ == framed(payload@),
            Err(e) => payload@.len() > u32::MAX && e@ == share_too_long(),
        },
{
    let n = payload.len();
    if n > 0xffff_ffff {
        return Err(ApiError::invalid_request("share is too long for a message"));
    }
    let mut message: Vec<u8> = Vec::new();
    message.push(((n / 0x100_0000) % 0x100) as u8);
    message.push(((n / 0x1_0000) % 0x100) as u8);
    message.push(((n / 0x100) % 0x100) as u8);
    message.push((n % 0x100) as u8);
    let mut i: usize = 0;
    while i < n
        invariant
            i <= n,
            n == payload@.len(),
            message@ == length_header(n as nat) + payload@.subrange(0, i as int),
        decreases n - i,
    {
        message.push(payload[i]);
        i += 1;
    }
    assert(payload@.subrange(0, n as int) =~= payload@);
    Ok(message)
}

/// Takes the first message off `bytes`: returns its payload and the number
/// of bytes that the message took, or nothing if `bytes` does not hold a
/// whole message yet.
pub fn unframe(bytes: &Vec<u8>) -> (r: Option<(Vec<u8>, usize)>)
    ensures
        match r {
            Some((payload, used)) => {
                &&& bytes@.len() >= FRAME_HEADER_LENGTH
                &&& payload@.len() == header_length(bytes@)
                &&& used == FRAME_HEADER_LENGTH + payload@.len()
                &&& used <= bytes@.len()
                &&& payload@ == bytes@.subrange(FRAME_HEADER_LENGTH as int, used as int)
            },
            None => bytes@.len() < FRAME_HEADER_LENGTH || bytes@.len() < FRAME_HEADER_LENGTH
                + header_length(bytes@),
        },
{
    if bytes.len() < FRAME_HEADER_LENGTH {
        return None;
    }
    let n: u64 = (bytes[0] as u64) * 0x100_0000 + (bytes[1] as u64) * 0x1_0000 + (bytes[2] as u64)
        * 0x100 + (bytes[3] as u64);
    if ((bytes.len() - FRAME_HEADER_LENGTH) as u64) < n {
        return None;
    }
    let len = n as usize;
    let mut payload: Vec<u8> = Vec::new();
    let mut i: usize = 0;
    while i < len
        invariant
            i <= len,
            FRAME_HEADER_LENGTH + len <= bytes@.len(),
            bytes@.len() <= usize::MAX,
            payload@ == bytes@.subrange(FRAME_HEADER_LENGTH as int, FRAME_HEADER_LENGTH + i),
        decreases len - i,
    {
        payload.push(bytes[FRAME_HEADER_LENGTH + i]);
        i += 1;
    }
    Some((payload, FRAME_HEADER_LENGTH + len))
}

/// A length of 32 bits is the sum of its four bytes, each at its weight.
pub proof fn lemma_length_digits(m: u32)
    ensures
        ((m / 0x100_0000) % 0x100) * 0x100_0000 + ((m / 0x1_0000) % 0x100) * 0x1_0000 + ((m
            / 0x100) % 0x100) * 0x100 + m % 0x100 == m,
{
    assert(((m / 0x100_0000u32) % 0x100u32) * 0x100_0000u32 + ((m / 0x1_0000u32) % 0x100u32)
        * 0x1_0000u32 + ((m / 0x100u32) % 0x100u32) * 0x100u32 + m % 0x100u32 == m)
        by (bit_vector);
}

/// A message that has been framed comes off the wire as it went on.
pub proof fn lemma_frame_round_trip(payload: Seq<u8>)
    requires
        payload.len() <= u32::MAX,
    ensures
        header_length(framed(payload)) == payload.len(),
        framed(payload).len() == FRAME_HEADER_LENGTH + payload.len(),
        framed(payload).subrange(
            FRAME_HEADER_LENGTH as int,
            FRAME_HEADER_LENGTH + payload.len(),
        ) == payload,
{
    let n = payload.len();
    lemma_length_digits(n as u32);
    let b0 = ((n / 0x100_0000) % 0x100) as u8;
    let b1 = ((n / 0x1_0000) % 0x100) as u8;
    let b2 = ((n / 0x100) % 0x100) as u8;
    let b3 = (n % 0x100) as u8;
    assert(framed(payload)[0] == b0);
    assert(framed(payload)[1] == b1);
    assert(framed(payload)[2] == b2);
    assert(framed(payload)[3] == b3);
    assert(framed(payload).subrange(FRAME_HEADER_LENGTH as int, FRAME_HEADER_LENGTH + n)
        =~= payload);
}

/// What a sled that serves its share does next.
#[derive(Clone, Copy, Debug, PartialEq, Eq, Structural)]
pub enum ResponderAction {
    /// Run the handshake with the peer.
    Handshake,
    /// Send the share, framed, as the one message of the connection.
    SendShare,
    /// Close the connection.
    Close,
}

/// How far a sled has come with a peer that asked for its share.
#[derive(Clone, Copy, Debug, PartialEq, Eq, Structural)]
pub enum ResponderState {
    /// The connection has been accepted; the handshake is under way.
    Handshaking,
    /// The handshake is done; the share is on its way.
    Sending,
    /// The connection is over.
    Closed,
}

impl ResponderState {
    /// The state in which a connection begins.
    pub fn accept() -> (r: (ResponderState, ResponderAction))
        ensures
            r == (ResponderState::Handshaking, ResponderAction::Handshake),
    {
        (ResponderState::Handshaking, ResponderAction::Handshake)
    }

    /// The state after the step that `self` asked for has succeeded or, if
    /// not `ok`, failed.
    pub open spec fn spec_next(self, ok: bool) -> (ResponderState, ResponderAction) {
        match self {
            ResponderState::Handshaking => if ok {
                (ResponderState::Sending, ResponderAction::SendShare)
            } else {
                (ResponderState::Closed, ResponderAction::Close)
            },
            ResponderState::Sending => (ResponderState::Closed, ResponderAction::Close),
            ResponderState::Closed => (ResponderState::Closed, ResponderAction::Close),
        }
    }

    /// Where the connection goes once the step under way has succeeded or,
    /// if not `ok`, failed: a peer that completes the handshake is sent the
    /// share, once; the connection is closed after that, and at once where
    /// the handshake fails.
    #[verifier::when_used_as_spec(spec_next)]
    pub fn next(self, ok: bool) -> (r: (ResponderState, ResponderAction))
        ensures
            r == self.spec_next(ok),
    {
        match self {
            ResponderState::Handshaking => if ok {
                (ResponderState::Sending, ResponderAction::SendShare)
            } else {
                (ResponderState::Closed, ResponderAction::Close)
            },
            ResponderState::Sending => (ResponderState::Closed, ResponderAction::Close),
            ResponderState::Closed => (ResponderState::Closed, ResponderAction::Close),
        }
    }
}

/// A connection sends the share at most once: after the share has been
/// sent nothing but closing follows.
pub proof fn lemma_share_sent_once(state: ResponderState, first: bool, second: bool)
    ensures
        state.spec_next(first).1 is SendShare ==> state.spec_next(first).0.spec_next(second).1
            is Close,
        state.spec_next(first).1 is SendShare <==> (state is Handshaking && first),
{
}

/// What became of a share that a peer sent.
#[derive(Clone, Copy, Debug, PartialEq, Eq, Structural)]
pub enum ShareVerdict {
    /// The share did not pass the check against the verifier.
    Invalid,
    /// The share is one of those collected already.
    Duplicate,
    /// The shares were complete before this one came.
    Surplus,
    /// The share was collected; more are needed.
    Accepted,
    /// The share was collected and the shares are complete.
    Complete,
}

/// The shares that a sled has collected from its peers.
pub struct ShareCollector {
    threshold: usize,
    shares: Vec<Vec<u8>>,
}

/// What a collector holds.
pub struct ShareCollectorView {
    /// The number of shares that the secret needs.
    pub threshold: usize,
    /// The shares collected, in the order in which they came.
    pub shares: Seq<Seq<u8>>,
}

impl ShareCollectorView {
    /// What becomes of a share that passed the check, or did not.
    pub open spec fn verdict(self, share: Seq<u8>, valid: bool) -> ShareVerdict {
        if self.shares.len() >= self.threshold {
            ShareVerdict::Surplus
        } else if !valid {
            ShareVerdict::Invalid
        } else if self.shares.contains(share) {
            ShareVerdict::Duplicate
        } else if self.shares.len() + 1 == self.threshold {
            ShareVerdict::Complete
        } else {
            ShareVerdict::Accepted
        }
    }

    /// The collector after a share has come.
    pub open spec fn offered(self, share: Seq<u8>, valid: bool) -> ShareCollectorView {
        match self.verdict(share, valid) {
            ShareVerdict::Accepted | ShareVerdict::Complete => ShareCollectorView {
                shares: self.shares.push(share),
                ..self
            },
            _ => self,
        }
    }

    /// The collector holds no share twice and no more shares than needed.
    pub open spec fn wf(self) -> bool {
        &&& self.shares.len() <= self.threshold
        &&& self.shares.no_duplicates()
    }
}

impl View for ShareCollector {
    type V = ShareCollectorView;

    closed spec fn view(&self) -> ShareCollectorView {
        ShareCollectorView {
            threshold: self.threshold,
            shares: self.shares@.map_values(|s: Vec<u8>| s@),
        }
    }
}

/// Whether two shares are the same, byte for byte.
pub fn same_share(a: &Vec<u8>, b: &Vec<u8>) -> (r: bool)
    ensures
        r == (a@ == b@),
{
    if a.len() != b.len() {
        return false;
    }
    let mut i: usize = 0;
    while i < a.len()
        invariant
            i <= a@.len(),
            a@.len() == b@.len(),
            forall|j: int| 0 <= j < i ==> a@[j] == b@[j],
        decreases a@.len() - i,
    {
        if a[i] != b[i] {
            return false;
        }
        i += 1;
    }
    assert(a@ =~= b@);
    true
}

impl ShareCollector {
    /// The collector is in order.
    pub open spec fn wf(&self) -> bool {
        self@.wf()
    }

    /// A collector for a secret that needs `threshold` shares.
    pub fn new(threshold: usize) -> (r: ShareCollector)
        ensures
            r.wf(),
            r@ == (ShareCollectorView { threshold, shares: Seq::empty() }),
    {
        let r = ShareCollector { threshold, shares: Vec::new() };
        assert(r@.shares =~= Seq::empty());
        r
    }

    /// Whether the collector holds as many shares as the secret needs.
    pub fn is_complete(&self) -> (r: bool)
        ensures
            r == (self@.shares.len() >= self@.threshold),
    {
        self.shares.len() >= self.threshold
    }

    /// The number of shares collected.
    pub fn count(&self) -> (r: usize)
        ensures
            r == self@.shares.len(),
    {
        self.shares.len()
    }

    /// Takes a share that a peer sent, where `valid` says whether the share
    /// passed the check against the verifier.  A share that did not, a share
    /// that is held already and a share beyond those needed is dropped; any
    /// other share is collected.
    pub fn offer(&mut self, share: Vec<u8>, valid: bool) -> (r: ShareVerdict)
        requires
            old(self).wf(),
        ensures
            final(self).wf(),
            r == old(self)@.verdict(share@, valid),
            final(self)@ == old(self)@.offered(share@, valid),
    {
        if self.shares.len() >= self.threshold {
            return ShareVerdict::Surplus;
        }
        if !valid {
            return ShareVerdict::Invalid;
        }
        let mut i: usize = 0;
        while i < self.shares.len()
            invariant
                i <= self.shares@.len(),
                self@ == old(self)@,
                self.wf(),
                valid,
                self.shares@.len() < self.threshold,
                forall|j: int| 0 <= j < i ==> (#[trigger] self.shares@[j])@ != share@,
            decreases self.shares@.len() - i,
        {
            if same_share(&self.shares[i], &share) {
                assert(self@.shares[i as int] == share@);
                assert(self@.shares.contains(share@));
                return ShareVerdict::Duplicate;
            }
            i += 1;
        }
        proof {
            if self@.shares.contains(share@) {
                let k = choose|k: int| 0 <= k < self@.shares.len() && self@.shares[k] == share@;
                assert(self.shares@[k]@ == share@);
            }
        }
        let ghost before = self@;
        let ghost added = share@;
        self.shares.push(share);
        proof {
            assert(self@.shares =~= before.shares.push(added));
            assert forall|a: int, b: int|
                0 <= a < self@.shares.len() && 0 <= b < self@.shares.len() && a
                    != b implies self@.shares[a] != self@.shares[b] by {
                if a < before.shares.len() && b < before.shares.len() {
                    assert(before.shares[a] != before.shares[b]);
                } else if a < before.shares.len() {
                    assert(before.shares.contains(before.shares[a]));
                } else {
                    assert(before.shares.contains(before.shares[b]));
                }
            }
        }
        if self.shares.len() == self.threshold {
            ShareVerdict::Complete
        } else {
            ShareVerdict::Accepted
        }
    }

    /// Ends the collection: hands out the shares if they are complete, and
    /// fails otherwise, as a boot without the rack secret must.
    pub fn finish(self) -> (r: Result<Vec<Vec<u8>>, ApiError>)
        requires
            self.wf(),
        ensures
            match r {
                Ok(shares) => {
                    &&& self@.shares.len() == self@.threshold
                    &&& shares@.map_values(|s: Vec<u8>| s@) == self@.shares
                },
                Err(e) => self@.shares.len() < self@.threshold && e@ == quorum_not_reached(),
            },
    {
        if self.shares.len() < self.threshold {
            return Err(
                ApiError::internal_error("too few shares of the rack secret could be collected"),
            );
        }
        Ok(self.shares)
    }
}

} // verus!
