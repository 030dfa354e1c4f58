//! The inbound half of a stream, and the status that a failed one carries.

use bytes::Bytes;
use http::{HeaderMap, HeaderValue};
use vstd::prelude::*;

use crate::frame::RstCode;

verus! {

use crate::outside::{bytes_view, header_map_view};

/// The status codes that this transport gives.
#[derive(Debug, Clone, Copy, PartialEq, Eq, Structural)]
pub enum Code {
    Cancelled,
    Internal,
    Unavailable,
}

/// The number of a status code.
pub open spec fn code_value(c: Code) -> u32 {
    match c {
        Code::Cancelled => 1,
        Code::Internal => 13,
        Code::Unavailable => 14,
    }
}

impl Code {
    /// The number of this code.
    pub fn value(self) -> (r: u32)
        ensures
            r == code_value(self),
    {
        match self {
            Code::Cancelled => 1,
            Code::Internal => 13,
            Code::Unavailable => 14,
        }
    }
}

/// A status: its code and its text.
#[derive(Debug)]
pub struct Status {
    pub code: Code,
    pub message: String,
}

/// What a status says.
pub struct StatusView {
    pub code: Code,
    pub message: Seq<char>,
}

impl View for Status {
    type V = StatusView;

    open spec fn view(&self) -> StatusView {
        StatusView { code: self.code, message: self.message@ }
    }
}

impl Clone for Status {
    fn clone(&self) -> (r: Self)
        ensures
            r@ == self@,
    {
        Status { code: self.code, message: self.message.clone() }
    }
}

impl Status {
    /// A status with a fixed text.
    pub fn new(code: Code, message: &str) -> (r: Self)
        ensures
            r@ == (StatusView { code, message: message@ }),
    {
        Status { code, message: message.to_owned() }
    }
}

/// The status of a stream that the server has reset.
pub open spec fn reset_status(code: RstCode) -> StatusView {
    match code {
        RstCode::Cancel => StatusView {
            code: Code::Cancelled,
            message: "stream reset by server"@,
        },
        RstCode::Refused => StatusView {
            code: Code::Unavailable,
            message: "stream refused by server"@,
        },
        RstCode::Internal => StatusView {
            code: Code::Internal,
            message: "stream failed on server transport"@,
        },
    }
}

/// The status of a stream that the server has reset.
pub fn status_of_reset(code: RstCode) -> (r: Status)
    ensures
        r@ == reset_status(code),
{
    match code {
        RstCode::Cancel => Status::new(Code::Cancelled, "stream reset by server"),
        RstCode::Refused => Status::new(Code::Unavailable, "stream refused by server"),
        RstCode::Internal => Status::new(Code::Internal, "stream failed on server transport"),
    }
}

/// What the demux delivers to a stream.
#[derive(Debug)]
pub enum BodyEvent {
    /// Message bytes.
    Data(Bytes),
    /// The trailers; always last.
    Trailers(HeaderMap<HeaderValue>),
}

/// What a body gives its reader.
#[derive(Debug)]
pub enum BodyItem {
    Data(Bytes),
    Trailers(HeaderMap<HeaderValue>),
    Failed(Status),
    End,
}

/// What a body item says.
pub enum ItemView {
    Data(Seq<u8>),
    Trailers(Seq<(Seq<u8>, Seq<u8>)>),
    Failed(StatusView),
    End,
}

impl View for BodyItem {
    type V = ItemView;

    open spec fn view(&self) -> ItemView {
        match self {
            BodyItem::Data(b) => ItemView::Data(bytes_view(*b)),
            BodyItem::Trailers(t) => ItemView::Trailers(header_map_view(*t)),
            BodyItem::Failed(s) => ItemView::Failed(s@),
            BodyItem::End => ItemView::End,
        }
    }
}

/// What the queue of a stream gave: an event, a failure, or its end.
pub open spec fn queue_view(q: Option<Result<BodyEvent, Status>>) -> ItemView {
    match q {
        Some(Ok(BodyEvent::Data(b))) => ItemView::Data(bytes_view(b)),
        Some(Ok(BodyEvent::Trailers(t))) => ItemView::Trailers(header_map_view(t)),
        Some(Err(s)) => ItemView::Failed(s@),
        None => ItemView::End,
    }
}

/// The state of an inbound body.
///
/// A body that is dropped before the stream ended resets the stream, where it is
/// armed to do so. A request body is not: its reset could overtake the response.
#[derive(Debug, Clone, Copy, PartialEq, Eq, Structural)]
pub struct ShmBody {
    /// The stream ended.
    pub ended: bool,
    /// Dropping the body resets the stream, unless it ended.
    pub armed: bool,
    /// There is nothing to read: the headers ended the stream.
    pub empty: bool,
}

impl ShmBody {
    /// A body that is still open.
    pub fn new(resets: bool) -> (r: Self)
        ensures
            r == (ShmBody { ended: false, armed: resets, empty: false }),
    {
        ShmBody { ended: false, armed: resets, empty: false }
    }

    /// A body that is already at its end.
    pub fn empty() -> (r: Self)
        ensures
            r == (ShmBody { ended: true, armed: false, empty: true }),
    {
        ShmBody { ended: true, armed: false, empty: true }
    }

    /// Whether the body is known to be at its end without reading.
    pub fn is_end_stream(&self) -> (r: bool)
        ensures
            r == self.empty,
    {
        self.empty
    }

    /// The body after an item.
    pub open spec fn after(self, item: ItemView) -> ShmBody {
        if self.empty || item is Data {
            self
        } else {
            ShmBody { ended: true, armed: false, ..self }
        }
    }

    /// What a body gives its reader for an item of its queue. A body that is empty
    /// gives its end, whatever the queue holds.
    pub open spec fn given(self, item: ItemView) -> ItemView {
        if self.empty {
            ItemView::End
        } else {
            item
        }
    }

    /// Takes what the queue gave and hands it to the reader.
    pub fn poll(&mut self, queue: Option<Result<BodyEvent, Status>>) -> (r: BodyItem)
        ensures
            *final(self) == old(self).after(queue_view(queue)),
            r@ == old(self).given(queue_view(queue)),
    {
        if self.empty {
            return BodyItem::End;
        }
        match queue {
            Some(Ok(BodyEvent::Data(b))) => BodyItem::Data(b),
            Some(Ok(BodyEvent::Trailers(t))) => {
                self.ended = true;
                self.armed = false;
                BodyItem::Trailers(t)
            },
            Some(Err(s)) => {
                self.ended = true;
                self.armed = false;
                BodyItem::Failed(s)
            },
            None => {
                self.ended = true;
                self.armed = false;
                BodyItem::End
            },
        }
    }

    /// Whether dropping the body resets the stream.
    pub fn resets_on_drop(&self) -> (r: bool)
        ensures
            r == (self.armed && !self.ended),
    {
        self.armed && !self.ended
    }
}

/// A body that gave trailers, a failure or its end no longer resets its stream;
/// one that is armed does so until then.
pub proof fn law_only_unfinished_bodies_reset(b: ShmBody, item: ItemView)
    requires
        !b.empty,
    ensures
        !(item is Data) ==> !(b.after(item).armed && !b.after(item).ended),
        item is Data ==> b.after(item) == b,
{
}

/// The numbers of the codes are those of gRPC.
pub proof fn law_code_numbers()
    ensures
        code_value(Code::Cancelled) == 1,
        code_value(Code::Internal) == 13,
        code_value(Code::Unavailable) == 14,
{
}

/// A reset is told by its code: what was cancelled, what may be tried elsewhere, and what
/// failed.
pub proof fn law_reset_codes_are_told_apart()
    ensures
        reset_status(RstCode::Cancel).code == Code::Cancelled,
        reset_status(RstCode::Cancel).message == "stream reset by server"@,
        reset_status(RstCode::Refused).code == Code::Unavailable,
        reset_status(RstCode::Refused).message == "stream refused by server"@,
        reset_status(RstCode::Internal).code == Code::Internal,
        reset_status(RstCode::Internal).message == "stream failed on server transport"@,
{
}

/// A body hands on what its queue gives, unchanged; an empty one is at its end. Anything
/// but message bytes ends a body, and one that has ended no longer resets its stream.
pub proof fn law_bodies_hand_on(b: ShmBody, item: ItemView)
    ensures
        !b.empty ==> b.given(item) == item,
        b.empty ==> b.given(item) is End && b.after(item) == b,
        !b.empty && item is Data ==> b.after(item) == b,
        !b.empty && !(item is Data) ==> b.after(item).ended && !b.after(item).armed && !b.after(
            item,
        ).empty,
{
}

/// What a queue gave is what is said of it: message bytes, trailers, a failure, or the end.
pub proof fn law_queue_is_shown(
    b: bytes::Bytes,
    t: http::HeaderMap<http::HeaderValue>,
    s: Status,
)
    ensures
        queue_view(Some(Ok(BodyEvent::Data(b)))) == ItemView::Data(bytes_view(b)),
        queue_view(Some(Ok(BodyEvent::Trailers(t)))) == ItemView::Trailers(header_map_view(t)),
        queue_view(Some(Err(s))) == ItemView::Failed(s@),
        queue_view(None) == ItemView::End,
        s@.code == s.code,
        s@.message == s.message@,
{
}

/// An item shows what it holds.
pub proof fn law_items_are_shown(i: BodyItem)
    ensures
        i matches BodyItem::Data(b) ==> i@ == ItemView::Data(bytes_view(b)),
        i matches BodyItem::Trailers(t) ==> i@ == ItemView::Trailers(header_map_view(t)),
        i matches BodyItem::Failed(s) ==> i@ == ItemView::Failed(s@),
        i is End ==> i@ == ItemView::End,
{
}

} // verus!
