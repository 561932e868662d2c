//! ITCH 5.0 messages: the framed header and the bodies of the supported tags.
use vstd::prelude::*;
use crate::wire::{be16, be32, be48, be64, read_u16, read_u32, read_u48, read_u64};

verus! {

/// Outcome of decoding a value from the front of a byte buffer.
#[derive(Clone, Copy, Debug, PartialEq, Eq)]
pub enum Parsed<T> {
    /// The value and the number of bytes it took.
    Done(T, usize),
    /// The buffer ends before the value does.
    Incomplete,
    /// The bytes do not form a valid value.
    Error,
}

/// Session-lifecycle markers of the System Event message.
#[derive(Clone, Copy, Debug, PartialEq, Eq, Structural)]
pub enum EventCode {
    StartOfMessages,
    StartOfSystemHours,
    StartOfMarketHours,
    EndOfMarketHours,
    EndOfSystemHours,
    EndOfMessages,
}

/// The body of a supported message; `Pass` stands for a tag whose bytes
/// are only skipped.
#[derive(Clone, Copy, Debug, PartialEq, Eq)]
pub enum Body {
    AddOrder { order_id: u64, is_bid: bool, shares: u32, stock: u64, price: u32 },
    DeleteOrder { order_id: u64 },
    OrderCancelled { order_id: u64, shares: u32 },
    OrderExecuted { order_id: u64, shares: u32, match_number: u64 },
    OrderExecutedWithPrice {
        order_id: u64,
        shares: u32,
        match_number: u64,
        printable: bool,
        price: u32,
    },
    ReplaceOrder { old_order_id: u64, new_order_id: u64, shares: u32, price: u32 },
    SystemEvent { event: EventCode },
    Pass(()),
}

/// A decoded message: the common header and the body.
#[derive(Clone, Copy, Debug, PartialEq, Eq)]
pub struct Message {
    /// Message type.
    pub tag: u8,
    /// Instrument the message is about.
    pub stock_locate: u16,
    /// Exchange-internal tracking number.
    pub tracking_number: u16,
    /// Nanoseconds since midnight.
    pub timestamp: u64,
    /// The tag-specific part.
    pub body: Body,
}

/// Bytes before the body: length prefix, tag, locate, tracking number and
/// the 48-bit timestamp.
pub const HEADER_LEN: usize = 13;

/// The event named by a System Event code byte.
pub open spec fn event_code_of(c: u8) -> Option<EventCode> {
    if c == 0x4f {
        Some(EventCode::StartOfMessages)
    } else if c == 0x53 {
        Some(EventCode::StartOfSystemHours)
    } else if c == 0x51 {
        Some(EventCode::StartOfMarketHours)
    } else if c == 0x4d {
        Some(EventCode::EndOfMarketHours)
    } else if c == 0x45 {
        Some(EventCode::EndOfSystemHours)
    } else if c == 0x43 {
        Some(EventCode::EndOfMessages)
    } else {
        None
    }
}

/// Body bytes of a tag whose body is only skipped, or -1 for other tags.
pub open spec fn skip_width(tag: u8) -> int {
    if tag == 0x42 {
        8
    } else if tag == 0x48 {
        14
    } else if tag == 0x49 {
        39
    } else if tag == 0x4a {
        24
    } else if tag == 0x4b {
        17
    } else if tag == 0x4c {
        15
    } else if tag == 0x4e {
        9
    } else if tag == 0x50 {
        33
    } else if tag == 0x51 {
        29
    } else if tag == 0x52 {
        28
    } else if tag == 0x56 {
        24
    } else if tag == 0x57 {
        1
    } else if tag == 0x59 {
        9
    } else {
        -1
    }
}

/// `Done(body, end)` once the buffer holds `end` bytes, else `Incomplete`.
pub open spec fn need(s: Seq<u8>, end: int, body: Body) -> Parsed<Body> {
    if s.len() < end {
        Parsed::Incomplete
    } else {
        Parsed::Done(body, end as usize)
    }
}

/// How the body of a message with tag `tag` decodes from the buffer `s`,
/// which starts at the message's length prefix; `Done` carries the end of
/// the whole message. Fields are read in order: a buffer that ends before a
/// field (the MPID of tag F included) is `Incomplete`, a side, printable or
/// event byte outside its set is an `Error`, and so is an unknown tag.
pub open spec fn body_decoding(s: Seq<u8>, tag: u8) -> Parsed<Body> {
    if tag == 0x41 || tag == 0x46 {
        // Add Order, with MPID for F: reference, side, shares, stock, price.
        if s.len() <= 21 {
            Parsed::Incomplete
        } else if s[21] != 0x42 && s[21] != 0x53 {
            Parsed::Error
        } else {
            need(
                s,
                if tag == 0x41 {
                    38
                } else {
                    42
                },
                Body::AddOrder {
                    order_id: be64(s, 13) as u64,
                    is_bid: s[21] == 0x42,
                    shares: be32(s, 22) as u32,
                    stock: be64(s, 26) as u64,
                    price: be32(s, 34) as u32,
                },
            )
        }
    } else if tag == 0x43 {
        // Order Executed With Price: reference, shares, match, printable, price.
        if s.len() <= 33 {
            Parsed::Incomplete
        } else if s[33] != 0x59 && s[33] != 0x4e {
            Parsed::Error
        } else {
            need(
                s,
                38,
                Body::OrderExecutedWithPrice {
                    order_id: be64(s, 13) as u64,
                    shares: be32(s, 21) as u32,
                    match_number: be64(s, 25) as u64,
                    printable: s[33] == 0x59,
                    price: be32(s, 34) as u32,
                },
            )
        }
    } else if tag == 0x44 {
        need(s, 21, Body::DeleteOrder { order_id: be64(s, 13) as u64 })
    } else if tag == 0x45 {
        need(
            s,
            33,
            Body::OrderExecuted {
                order_id: be64(s, 13) as u64,
                shares: be32(s, 21) as u32,
                match_number: be64(s, 25) as u64,
            },
        )
    } else if tag == 0x53 {
        if s.len() <= 13 {
            Parsed::Incomplete
        } else if event_code_of(s[13]) is None {
            Parsed::Error
        } else {
            Parsed::Done(Body::SystemEvent { event: event_code_of(s[13])->0 }, 14)
        }
    } else if tag == 0x55 {
        need(
            s,
            37,
            Body::ReplaceOrder {
                old_order_id: be64(s, 13) as u64,
                new_order_id: be64(s, 21) as u64,
                shares: be32(s, 29) as u32,
                price: be32(s, 33) as u32,
            },
        )
    } else if tag == 0x58 {
        need(
            s,
            25,
            Body::OrderCancelled { order_id: be64(s, 13) as u64, shares: be32(s, 21) as u32 },
        )
    } else if skip_width(tag) >= 0 {
        need(s, 13 + skip_width(tag), Body::Pass(()))
    } else {
        Parsed::Error
    }
}

/// How a whole framed message decodes from the front of `s`.
pub open spec fn message_decoding(s: Seq<u8>) -> Parsed<Message> {
    if s.len() < HEADER_LEN {
        Parsed::Incomplete
    } else {
        match body_decoding(s, s[2]) {
            Parsed::Done(body, end) => Parsed::Done(
                Message {
                    tag: s[2],
                    stock_locate: be16(s, 3) as u16,
                    tracking_number: be16(s, 5) as u16,
                    timestamp: be48(s, 7) as u64,
                    body,
                },
                end,
            ),
            Parsed::Incomplete => Parsed::Incomplete,
            Parsed::Error => Parsed::Error,
        }
    }
}

/// Decodes a System Event code from the front of `input`.
pub fn parse_system_event(input: &[u8]) -> (r: Parsed<EventCode>)
    ensures
        r == if input@.len() == 0 {
            Parsed::Incomplete
        } else {
            match event_code_of(input@[0]) {
                Some(e) => Parsed::Done(e, 1),
                None => Parsed::Error,
            }
        },
{
    if input.len() == 0 {
        return Parsed::Incomplete;
    }
    let c = input[0];
    if c == 0x4f {
        Parsed::Done(EventCode::StartOfMessages, 1)
    } else if c == 0x53 {
        Parsed::Done(EventCode::StartOfSystemHours, 1)
    } else if c == 0x51 {
        Parsed::Done(EventCode::StartOfMarketHours, 1)
    } else if c == 0x4d {
        Parsed::Done(EventCode::EndOfMarketHours, 1)
    } else if c == 0x45 {
        Parsed::Done(EventCode::EndOfSystemHours, 1)
    } else if c == 0x43 {
        Parsed::Done(EventCode::EndOfMessages, 1)
    } else {
        Parsed::Error
    }
}

/// `Done(body, end)` once `input` holds `end` bytes.
fn needing(input: &[u8], end: usize, body: Body) -> (r: Parsed<Body>)
    ensures
        r == need(input@, end as int, body),
{
    if input.len() < end {
        Parsed::Incomplete
    } else {
        Parsed::Done(body, end)
    }
}

/// Skips a body of `width` bytes.
fn skip_body(input: &[u8], width: usize) -> (r: Parsed<Body>)
    requires
        width <= 39,
    ensures
        r == need(input@, 13 + width, Body::Pass(())),
{
    needing(input, HEADER_LEN + width, Body::Pass(()))
}

/// Decodes the body of a message with tag `tag`; `input` starts at the
/// message's length prefix.
fn parse_body(input: &[u8], tag: u8) -> (r: Parsed<Body>)
    requires
        input@.len() >= HEADER_LEN,
    ensures
        r == body_decoding(input@, tag),
{
    let n = input.len();
    if tag == 0x41 || tag == 0x46 {
        if n <= 21 {
            return Parsed::Incomplete;
        }
        let side = input[21];
        if side != 0x42 && side != 0x53 {
            return Parsed::Error;
        }
        let end: usize = if tag == 0x41 { 38 } else { 42 };
        if n < end {
            return Parsed::Incomplete;
        }
        Parsed::Done(
            Body::AddOrder {
                order_id: read_u64(input, 13),
                is_bid: side == 0x42,
                shares: read_u32(input, 22),
                stock: read_u64(input, 26),
                price: read_u32(input, 34),
            },
            end,
        )
    } else if tag == 0x43 {
        if n <= 33 {
            return Parsed::Incomplete;
        }
        let printable = match crate::wire::char_to_bool(input[33]) {
            Some(b) => b,
            None => {
                return Parsed::Error;
            },
        };
        if n < 38 {
            return Parsed::Incomplete;
        }
        Parsed::Done(
            Body::OrderExecutedWithPrice {
                order_id: read_u64(input, 13),
                shares: read_u32(input, 21),
                match_number: read_u64(input, 25),
                printable,
                price: read_u32(input, 34),
            },
            38,
        )
    } else if tag == 0x44 {
        if n < 21 {
            return Parsed::Incomplete;
        }
        Parsed::Done(Body::DeleteOrder { order_id: read_u64(input, 13) }, 21)
    } else if tag == 0x45 {
        if n < 33 {
            return Parsed::Incomplete;
        }
        Parsed::Done(
            Body::OrderExecuted {
                order_id: read_u64(input, 13),
                shares: read_u32(input, 21),
                match_number: read_u64(input, 25),
            },
            33,
        )
    } else if tag == 0x53 {
        let rest = vstd::slice::slice_subrange(input, HEADER_LEN, n);
        match parse_system_event(rest) {
            Parsed::Done(event, _) => Parsed::Done(Body::SystemEvent { event }, 14),
            Parsed::Incomplete => Parsed::Incomplete,
            Parsed::Error => Parsed::Error,
        }
    } else if tag == 0x55 {
        if n < 37 {
            return Parsed::Incomplete;
        }
        Parsed::Done(
            Body::ReplaceOrder {
                old_order_id: read_u64(input, 13),
                new_order_id: read_u64(input, 21),
                shares: read_u32(input, 29),
                price: read_u32(input, 33),
            },
            37,
        )
    } else if tag == 0x58 {
        if n < 25 {
            return Parsed::Incomplete;
        }
        Parsed::Done(
            Body::OrderCancelled { order_id: read_u64(input, 13), shares: read_u32(input, 21) },
            25,
        )
    } else if tag == 0x42 {
        skip_body(input, 8)
    } else if tag == 0x48 {
        skip_body(input, 14)
    } else if tag == 0x49 {
        skip_body(input, 39)
    } else if tag == 0x4a {
        skip_body(input, 24)
    } else if tag == 0x4b {
        skip_body(input, 17)
    } else if tag == 0x4c {
        skip_body(input, 15)
    } else if tag == 0x4e {
        skip_body(input, 9)
    } else if tag == 0x50 {
        skip_body(input, 33)
    } else if tag == 0x51 {
        skip_body(input, 29)
    } else if tag == 0x52 {
        skip_body(input, 28)
    } else if tag == 0x56 {
        skip_body(input, 24)
    } else if tag == 0x57 {
        skip_body(input, 1)
    } else if tag == 0x59 {
        skip_body(input, 9)
    } else {
        Parsed::Error
    }
}

/// Decodes one framed message from the front of `input`: the 2-byte length
/// prefix, the tag, the header fields and the tag's body.
pub fn parse_message(input: &[u8]) -> (r: Parsed<Message>)
    ensures
        r == message_decoding(input@),
{
    if input.len() < HEADER_LEN {
        return Parsed::Incomplete;
    }
    let tag = input[2];
    match parse_body(input, tag) {
        Parsed::Done(body, end) => Parsed::Done(
            Message {
                tag,
                stock_locate: read_u16(input, 3),
                tracking_number: read_u16(input, 5),
                timestamp: read_u48(input, 7),
                body,
            },
            end,
        ),
        Parsed::Incomplete => Parsed::Incomplete,
        Parsed::Error => Parsed::Error,
    }
}

} // verus!
