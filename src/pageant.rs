//! One request/response exchange with the windowing-system key agent, which
//! reads requests from a named shared memory region when it is sent a
//! notification message.
//!
//! The exchange goes through two stages, each a type: a [`PendingRequest`]
//! holds a request frame that fits the region; once the agent's window is
//! found it becomes a [`PreparedExchange`], which names the region and says
//! what to write and send. The caller creates and maps the region, writes
//! the frame, sends the notification, and hands the acknowledgement and the
//! region's contents back to [`PreparedExchange::finish`].

use crate::frame::{holds_frame, frame_end, frame_of, leading_frame, split_frame};
use vstd::prelude::*;

verus! {

/// Capacity of the shared memory region, in bytes, length field included.
pub const REGION_SIZE: usize = 8192;

/// Identifying tag of the notification that the agent expects.
pub const COPYDATA_TAG: u32 = 0x804e50ba;

/// Why an exchange with the agent failed.
#[derive(Debug, Clone, Copy, PartialEq, Eq, Structural)]
pub enum PageantError {
    /// A system call failed with this error code.
    Windows { code: i32 },
    /// The agent's window could not be found.
    NoPageantWindow,
    /// The request frame does not fit the shared memory region.
    RequestTooLong,
    /// The agent did not acknowledge the notification.
    SendMessageFailed,
    /// The response's length field announces more than the region holds.
    ResponseTooLong,
}

/// A request frame is refused before any system call when it fills the
/// region.
pub open spec fn request_refused(frame: Seq<u8>) -> bool {
    frame.len() >= REGION_SIZE
}

/// The region holds a whole response frame within its capacity.
pub open spec fn response_fits(region: Seq<u8>) -> bool {
    holds_frame(region) && frame_end(region) <= REGION_SIZE
}

/// The ASCII digit of `d` in lower-case hexadecimal.
pub open spec fn hex_digit(d: nat) -> u8
    recommends
        d < 16,
{
    if d < 10 {
        (0x30 + d) as u8
    } else {
        (0x61 + d - 10) as u8
    }
}

/// `n` in lower-case hexadecimal, without leading zeros.
pub open spec fn hex_of(n: nat) -> Seq<u8>
    decreases n,
{
    if n < 16 {
        seq![hex_digit(n)]
    } else {
        hex_of(n / 16).push(hex_digit(n % 16))
    }
}

/// The ASCII text `PageantRequest`.
pub open spec fn region_prefix() -> Seq<u8> {
    seq![0x50u8, 0x61, 0x67, 0x65, 0x61, 0x6e, 0x74, 0x52, 0x65, 0x71, 0x75, 0x65, 0x73, 0x74]
}

/// The name of the region used by the thread `thread_id`.
pub open spec fn region_name_of(thread_id: u32) -> Seq<u8> {
    region_prefix() + hex_of(thread_id as nat)
}

/// The notification's data: the region's name with a terminating NUL.
pub open spec fn copy_data_of(thread_id: u32) -> Seq<u8> {
    region_name_of(thread_id).push(0u8)
}

/// The outcome of an exchange, from the agent's acknowledgement and what the
/// region holds afterwards.
pub open spec fn outcome_of(acknowledged: bool, region: Seq<u8>) -> Result<Seq<u8>, PageantError> {
    if !acknowledged {
        Err(PageantError::SendMessageFailed)
    } else if !response_fits(region) {
        Err(PageantError::ResponseTooLong)
    } else {
        Ok(leading_frame(region))
    }
}

fn hex_digit_exec(d: u32) -> (r: u8)
    requires
        d < 16,
    ensures
        r == hex_digit(d as nat),
{
    if d < 10 {
        (0x30 + d) as u8
    } else {
        (0x61 + d - 10) as u8
    }
}

/// Appends `n` in lower-case hexadecimal to `out`.
fn push_hex(out: &mut Vec<u8>, n: u32)
    ensures
        final(out)@ == old(out)@ + hex_of(n as nat),
    decreases n,
{
    if n >= 16 {
        push_hex(out, n / 16);
    }
    out.push(hex_digit_exec(n % 16));
    proof {
        if n >= 16 {
            assert(final(out)@ =~= old(out)@ + hex_of(n as nat));
        } else {
            assert(final(out)@ =~= old(out)@ + hex_of(n as nat));
        }
    }
}

/// The notification data for the thread `thread_id`: the region's name,
/// `PageantRequest` followed by the thread id in lower-case hexadecimal, and
/// a terminating NUL.
pub fn copy_data(thread_id: u32) -> (r: Vec<u8>)
    ensures
        r@ == copy_data_of(thread_id),
{
    let mut name: Vec<u8> = vec![0x50u8, 0x61, 0x67, 0x65, 0x61, 0x6e, 0x74, 0x52, 0x65, 0x71, 0x75, 0x65, 0x73, 0x74];
    assert(name@ =~= region_prefix());
    push_hex(&mut name, thread_id);
    name.push(0u8);
    name
}

/// A request frame that fits the shared memory region.
pub struct PendingRequest {
    frame: Vec<u8>,
}

impl View for PendingRequest {
    type V = Seq<u8>;

    closed spec fn view(&self) -> Seq<u8> {
        self.frame@
    }
}

impl PendingRequest {
    #[verifier::type_invariant]
    closed spec fn fits(&self) -> bool {
        self.frame@.len() < REGION_SIZE
    }

    /// Accepts `frame` as a request; refuses one that fills the region, before
    /// anything else is done.
    pub fn new(frame: Vec<u8>) -> (r: Result<PendingRequest, PageantError>)
        ensures
            r is Err <==> request_refused(frame@),
            r matches Err(e) ==> e == PageantError::RequestTooLong,
            r matches Ok(p) ==> p@ == frame@,
    {
        if frame.len() >= REGION_SIZE {
            Err(PageantError::RequestTooLong)
        } else {
            Ok(PendingRequest { frame })
        }
    }

    /// Goes on once the agent's window has been looked up: fails when it was
    /// not found, else names the region after the calling thread.
    pub fn locate(self, window_found: bool, thread_id: u32) -> (r: Result<PreparedExchange, PageantError>)
        ensures
            r is Err <==> !window_found,
            r matches Err(e) ==> e == PageantError::NoPageantWindow,
            r matches Ok(x) ==> x.frame_view() == self@ && x.copy_data_view() == copy_data_of(thread_id),
    {
        proof {
            use_type_invariant(&self);
        }
        if !window_found {
            return Err(PageantError::NoPageantWindow);
        }
        let data = copy_data(thread_id);
        Ok(PreparedExchange { frame: self.frame, data })
    }
}

/// An exchange whose region is named: what to write into the region and
/// what to send to the agent.
pub struct PreparedExchange {
    frame: Vec<u8>,
    data: Vec<u8>,
}

impl PreparedExchange {
    #[verifier::type_invariant]
    closed spec fn fits(&self) -> bool {
        self.frame@.len() < REGION_SIZE
    }

    /// The request frame.
    pub closed spec fn frame_view(&self) -> Seq<u8> {
        self.frame@
    }

    /// The notification's data.
    pub closed spec fn copy_data_view(&self) -> Seq<u8> {
        self.data@
    }

    /// The request frame, to be written at the start of the region; it is
    /// shorter than the region.
    pub fn frame(&self) -> (r: &[u8])
        ensures
            r@ == self.frame_view(),
            r@.len() < REGION_SIZE,
    {
        proof {
            use_type_invariant(self);
        }
        self.frame.as_slice()
    }

    /// The notification's data: the region's name, NUL-terminated. Its
    /// length, NUL included, is the data length to send.
    pub fn copy_data(&self) -> (r: &[u8])
        ensures
            r@ == self.copy_data_view(),
    {
        self.data.as_slice()
    }

    /// The notification's identifying tag.
    pub fn tag(&self) -> (r: u32)
        ensures
            r == COPYDATA_TAG,
    {
        COPYDATA_TAG
    }

    /// Ends the exchange: fails when the agent did not acknowledge the
    /// notification, or when the region's length field announces more than
    /// the region holds; else returns the response frame at the start of the
    /// region, length field included.
    pub fn finish(self, acknowledged: bool, region: &[u8]) -> (r: Result<Vec<u8>, PageantError>)
        ensures
            r is Ok <==> outcome_of(acknowledged, region@) is Ok,
            r matches Ok(f) ==> outcome_of(acknowledged, region@) == Ok::<Seq<u8>, PageantError>(f@),
            r matches Err(e) ==> outcome_of(acknowledged, region@) == Err::<Seq<u8>, PageantError>(e),
    {
        if !acknowledged {
            return Err(PageantError::SendMessageFailed);
        }
        match split_frame(region) {
            Some(f) => {
                if f.len() > REGION_SIZE {
                    Err(PageantError::ResponseTooLong)
                } else {
                    Ok(f)
                }
            },
            None => Err(PageantError::ResponseTooLong),
        }
    }
}

/// A payload of 8188 bytes or more makes a frame that fills the region, so
/// the exchange refuses it before any system call.
pub proof fn lemma_oversized_payload_refused(payload: Seq<u8>)
    requires
        payload.len() >= REGION_SIZE - 4,
        payload.len() <= u32::MAX,
    ensures
        request_refused(frame_of(payload)),
{
}

} // verus!
