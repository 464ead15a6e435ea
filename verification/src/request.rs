//! One outbound request: what is posted for a delivery, and what its outcome
//! means for the subscription.

use vstd::prelude::*;
use vstd::string::*;
use base64::Engine;
use crate::event::{Event, EventView};
use crate::state_change::{changes_view, StateChange};

verus! {

/// The text that base64 with the URL-safe alphabet and padding gives for
/// `bytes`.
pub uninterp spec fn url_safe_base64(bytes: Seq<u8>) -> Seq<char>;

/// The longest input whose encoding has a length that fits the machine.
pub open spec fn encodable(len: nat) -> bool {
    len / 3 * 4 + 4 <= usize::MAX
}

/// Calls `base64::Engine::encode` on the engine `general_purpose::URL_SAFE`,
/// which encodes the bytes with the URL-safe alphabet and padding. The call
/// fails where the length of the encoding does not fit `usize`; such inputs
/// are left out.
#[verifier::external_body]
fn encode_url_safe(bytes: &Vec<u8>) -> (text: String)
    requires
        encodable(bytes@.len()),
    ensures
        text@ == url_safe_base64(bytes@),
{
    base64::engine::general_purpose::URL_SAFE.encode(bytes)
}

/// What became of the encryption of a body.
#[derive(Debug)]
pub enum Sealing {
    /// The subscription has no keys: the body goes out as it is.
    Plain,
    /// The body was encrypted to these bytes.
    Sealed(Vec<u8>),
    /// The subscription has keys, but encryption failed.
    Failed,
}

/// A [`Sealing`] as a mathematical value.
pub enum SealingView {
    Plain,
    Sealed(Seq<u8>),
    Failed,
}

impl View for Sealing {
    type V = SealingView;

    open spec fn view(&self) -> SealingView {
        match *self {
            Sealing::Plain => SealingView::Plain,
            Sealing::Sealed(bytes) => SealingView::Sealed(bytes@),
            Sealing::Failed => SealingView::Failed,
        }
    }
}

/// A request that is ready to be posted.
#[derive(Debug)]
pub struct Request {
    /// Where it goes: the subscription's url as it stands.
    pub url: String,
    /// The headers, in the order in which they are set.
    pub headers: Vec<(String, String)>,
    pub body: String,
    /// The deadline, in nanoseconds.
    pub timeout: u64,
}

/// A [`Request`] as a mathematical value.
pub struct RequestView {
    pub url: Seq<char>,
    pub headers: Seq<(Seq<char>, Seq<char>)>,
    pub body: Seq<char>,
    pub timeout: u64,
}

impl View for Request {
    type V = RequestView;

    open spec fn view(&self) -> RequestView {
        RequestView {
            url: self.url@,
            headers: self.headers@.map_values(|h: (String, String)| (h.0@, h.1@)),
            body: self.body@,
            timeout: self.timeout,
        }
    }
}

/// The headers of a request: content type and time to live always, the
/// content encoding where the body is encrypted.
pub open spec fn headers_for(encrypted: bool) -> Seq<(Seq<char>, Seq<char>)> {
    if encrypted {
        seq![
            ("Content-Type"@, "application/json"@),
            ("TTL"@, "86400"@),
            ("Content-Encoding"@, "aes128gcm"@),
        ]
    } else {
        seq![("Content-Type"@, "application/json"@), ("TTL"@, "86400"@)]
    }
}

/// The request that is posted for `body`, or none where encryption failed and
/// nothing is posted.
pub open spec fn request_for(
    url: Seq<char>,
    body: Seq<char>,
    sealing: SealingView,
    timeout: u64,
) -> Option<RequestView> {
    match sealing {
        SealingView::Plain => Some(
            RequestView { url, headers: headers_for(false), body, timeout },
        ),
        SealingView::Sealed(bytes) => Some(
            RequestView { url, headers: headers_for(true), body: url_safe_base64(bytes), timeout },
        ),
        SealingView::Failed => None,
    }
}

fn headers(encrypted: bool) -> (headers: Vec<(String, String)>)
    ensures
        headers@.map_values(|h: (String, String)| (h.0@, h.1@)) == headers_for(encrypted),
{
    let mut headers: Vec<(String, String)> = Vec::new();
    headers.push((String::from_str("Content-Type"), String::from_str("application/json")));
    headers.push((String::from_str("TTL"), String::from_str("86400")));
    if encrypted {
        headers.push((String::from_str("Content-Encoding"), String::from_str("aes128gcm")));
    }
    proof {
        assert(headers@.map_values(|h: (String, String)| (h.0@, h.1@)) =~= headers_for(encrypted));
    }
    headers
}

/// Makes the request for a body that needs no encryption or whose encryption
/// has been tried. A plain body goes out as it is. An encrypted one goes out
/// as the base64 text of its bytes, marked by the content encoding. Where
/// encryption failed there is no request.
pub fn build_request(url: String, body: String, sealing: Sealing, timeout: u64) -> (request:
    Option<Request>)
    requires
        sealing matches Sealing::Sealed(bytes) ==> encodable(bytes@.len()),
    ensures
        match request {
            Some(r) => request_for(url@, body@, sealing@, timeout) == Some(r@),
            None => request_for(url@, body@, sealing@, timeout).is_none(),
        },
{
    match sealing {
        Sealing::Plain => Some(Request { url, headers: headers(false), body, timeout }),
        Sealing::Sealed(bytes) => Some(
            Request { url, headers: headers(true), body: encode_url_safe(&bytes), timeout },
        ),
        Sealing::Failed => None,
    }
}

/// Makes the request as [`build_request`] does, where the encrypted bytes can
/// be encoded on this machine; none where they are too many.
pub fn try_build_request(url: String, body: String, sealing: Sealing, timeout: u64) -> (request:
    Option<Request>)
    ensures
        match request {
            Some(r) => request_for(url@, body@, sealing@, timeout) == Some(r@),
            None => sealing@ is Failed || (sealing matches Sealing::Sealed(bytes) && !encodable(
                bytes@.len(),
            )),
        },
{
    let fits = match &sealing {
        Sealing::Sealed(bytes) => bytes.len() / 3 <= (usize::MAX - 4) / 4,
        _ => true,
    };
    if fits {
        build_request(url, body, sealing, timeout)
    } else {
        None
    }
}

/// How a request ended.
#[derive(Clone, Copy, Debug)]
pub enum PostOutcome {
    /// Nothing was posted, because encryption failed.
    NotPosted,
    /// The endpoint answered with this status.
    Status(u16),
    /// No answer came: the connection failed or the deadline passed.
    NoAnswer,
}

/// Whether an outcome counts as delivered: a status from 200 to 299 does, and
/// so does a request that was not posted, so that a subscription whose keys
/// are unusable is not retried. Anything else is a failure.
pub open spec fn counts_as_delivered(outcome: PostOutcome) -> bool {
    match outcome {
        PostOutcome::NotPosted => true,
        PostOutcome::Status(code) => 200 <= code <= 299,
        PostOutcome::NoAnswer => false,
    }
}

/// Decides [`counts_as_delivered`].
pub fn is_delivered(outcome: PostOutcome) -> (delivered: bool)
    ensures
        delivered == counts_as_delivered(outcome),
{
    match outcome {
        PostOutcome::NotPosted => true,
        PostOutcome::Status(code) => 200 <= code && code <= 299,
        PostOutcome::NoAnswer => false,
    }
}

/// The event by which a delivery task reports back: success, or failure with
/// the changes it carried.
pub fn report(id: u64, outcome: PostOutcome, state_changes: Vec<StateChange>) -> (event: Event)
    ensures
        event@ == (if counts_as_delivered(outcome) {
            EventView::DeliverySuccess { id }
        } else {
            EventView::DeliveryFailure { id, state_changes: changes_view(state_changes@) }
        }),
{
    if is_delivered(outcome) {
        Event::DeliverySuccess { id }
    } else {
        Event::DeliveryFailure { id, state_changes }
    }
}

} // verus!
