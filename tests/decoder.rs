use itch_lob::itch_price::{Price4, Price8};
use itch_lob::message::{parse_message, parse_system_event, Body, EventCode, Message, Parsed};
use itch_lob::message_stream::{MessageStream, Pull, StreamError, BUF_SIZE};
use itch_lob::wire::{be_u48, char_to_bool};

fn add_order_frame() -> Vec<u8> {
    let mut v = vec![0x00, 0x24, b'A', 0x00, 0x07, 0x00, 0x02];
    v.extend_from_slice(&[0x00, 0x00, 0x01, 0x02, 0x03, 0x04]);
    v.extend_from_slice(&[0, 0, 0, 0, 0, 0, 0x01, 0x00]);
    v.push(b'B');
    v.extend_from_slice(&[0, 0, 0x01, 0xF4]);
    v.extend_from_slice(b"AAPL    ");
    v.extend_from_slice(&[0, 0x0F, 0x42, 0x40]);
    v
}

fn expected_add() -> Message {
    Message {
        tag: b'A',
        stock_locate: 7,
        tracking_number: 2,
        timestamp: 0x0102_0304,
        body: Body::AddOrder {
            order_id: 256,
            is_bid: true,
            shares: 500,
            stock: u64::from_be_bytes(*b"AAPL    "),
            price: 1_000_000,
        },
    }
}

#[test]
fn decodes_one_add_order() {
    let frame = add_order_frame();
    assert_eq!(frame.len(), 38);
    assert_eq!(parse_message(&frame), Parsed::Done(expected_add(), 38));
}

#[test]
fn add_order_with_bad_side_is_an_error() {
    let mut frame = add_order_frame();
    frame[21] = b'X';
    assert_eq!(parse_message(&frame), Parsed::Error);
}

#[test]
fn unknown_tag_is_an_error() {
    let mut frame = add_order_frame();
    frame[2] = b'Z';
    assert_eq!(parse_message(&frame), Parsed::Error);
    assert_eq!(parse_message(&frame[..12]), Parsed::Incomplete);
}

#[test]
fn short_add_order_is_incomplete() {
    let frame = add_order_frame();
    assert_eq!(parse_message(&frame[..33]), Parsed::Incomplete);
}

#[test]
fn decodes_delete_cancel_execute_replace() {
    let head = |tag: u8| vec![0x00, 0x00, tag, 0, 1, 0, 0, 0, 0, 0, 0, 0, 9];
    let mut d = head(b'D');
    d.extend_from_slice(&[0, 0, 0, 0, 0, 0, 0, 5]);
    assert_eq!(
        parse_message(&d),
        Parsed::Done(
            Message { tag: b'D', stock_locate: 1, tracking_number: 0, timestamp: 9, body: Body::DeleteOrder { order_id: 5 } },
            21
        )
    );
    let mut x = head(b'X');
    x.extend_from_slice(&[0, 0, 0, 0, 0, 0, 0, 5, 0, 0, 0, 3]);
    match parse_message(&x) {
        Parsed::Done(m, n) => {
            assert_eq!(n, 25);
            assert_eq!(m.body, Body::OrderCancelled { order_id: 5, shares: 3 });
        }
        other => panic!("{:?}", other),
    }
    let mut e = head(b'E');
    e.extend_from_slice(&[0, 0, 0, 0, 0, 0, 0, 5, 0, 0, 0, 3, 0, 0, 0, 0, 0, 0, 0, 8]);
    match parse_message(&e) {
        Parsed::Done(m, n) => {
            assert_eq!(n, 33);
            assert_eq!(m.body, Body::OrderExecuted { order_id: 5, shares: 3, match_number: 8 });
        }
        other => panic!("{:?}", other),
    }
    let mut c = head(b'C');
    c.extend_from_slice(&[0, 0, 0, 0, 0, 0, 0, 5, 0, 0, 0, 3, 0, 0, 0, 0, 0, 0, 0, 8, b'Y', 0, 0, 1, 0]);
    match parse_message(&c) {
        Parsed::Done(m, n) => {
            assert_eq!(n, 38);
            assert_eq!(
                m.body,
                Body::OrderExecutedWithPrice { order_id: 5, shares: 3, match_number: 8, printable: true, price: 256 }
            );
        }
        other => panic!("{:?}", other),
    }
    c[33] = b'Q';
    assert_eq!(parse_message(&c), Parsed::Error);
    let mut u = head(b'U');
    u.extend_from_slice(&[0, 0, 0, 0, 0, 0, 0, 5, 0, 0, 0, 0, 0, 0, 0, 6, 0, 0, 0, 3, 0, 0, 0, 4]);
    match parse_message(&u) {
        Parsed::Done(m, n) => {
            assert_eq!(n, 37);
            assert_eq!(m.body, Body::ReplaceOrder { old_order_id: 5, new_order_id: 6, shares: 3, price: 4 });
        }
        other => panic!("{:?}", other),
    }
}

#[test]
fn add_order_with_mpid_needs_the_mpid() {
    let mut f = add_order_frame();
    f[2] = b'F';
    assert_eq!(parse_message(&f), Parsed::Incomplete);
    f.extend_from_slice(b"MPID");
    match parse_message(&f) {
        Parsed::Done(m, n) => {
            assert_eq!(n, 42);
            assert_eq!(m.body, expected_add().body);
        }
        other => panic!("{:?}", other),
    }
}

#[test]
fn skipped_tags_pass() {
    let mut w = vec![0x00, 0x00, b'W', 0, 1, 0, 0, 0, 0, 0, 0, 0, 9, b'1'];
    assert_eq!(parse_message(&w), Parsed::Done(Message { tag: b'W', stock_locate: 1, tracking_number: 0, timestamp: 9, body: Body::Pass(()) }, 14));
    w[2] = b'I';
    assert_eq!(parse_message(&w), Parsed::Incomplete);
}

#[test]
fn system_event_codes() {
    assert_eq!(parse_system_event(b"O"), Parsed::Done(EventCode::StartOfMessages, 1));
    assert_eq!(parse_system_event(b"S"), Parsed::Done(EventCode::StartOfSystemHours, 1));
    assert_eq!(parse_system_event(b"Q"), Parsed::Done(EventCode::StartOfMarketHours, 1));
    assert_eq!(parse_system_event(b"M"), Parsed::Done(EventCode::EndOfMarketHours, 1));
    assert_eq!(parse_system_event(b"E"), Parsed::Done(EventCode::EndOfSystemHours, 1));
    assert_eq!(parse_system_event(b"C"), Parsed::Done(EventCode::EndOfMessages, 1));
    assert_eq!(parse_system_event(b"Z"), Parsed::Error);
    assert_eq!(parse_system_event(b""), Parsed::Incomplete);
    let s = vec![0x00, 0x00, b'S', 0, 1, 0, 0, 0, 0, 0, 0, 0, 9, b'Q'];
    match parse_message(&s) {
        Parsed::Done(m, 14) => assert_eq!(m.body, Body::SystemEvent { event: EventCode::StartOfMarketHours }),
        other => panic!("{:?}", other),
    }
}

#[test]
fn be_u48_reads_six_bytes() {
    assert_eq!(be_u48(&[0x01, 0x02, 0x03, 0x04, 0x05, 0x06, 0xFF]), Some(0x0102_0304_0506));
    assert_eq!(be_u48(&[0xFF; 6]), Some(0xFFFF_FFFF_FFFF));
    assert_eq!(be_u48(&[1, 2, 3, 4, 5]), None);
}

#[test]
fn be_u48_round_trips() {
    for t in [0u64, 1, 0x1234_5678_9ABC, (1u64 << 48) - 1] {
        let bytes = t.to_be_bytes();
        assert_eq!(be_u48(&bytes[2..]), Some(t));
    }
}

#[test]
fn printable_flag() {
    assert_eq!(char_to_bool(b'Y'), Some(true));
    assert_eq!(char_to_bool(b'N'), Some(false));
    assert_eq!(char_to_bool(b'X'), None);
}

#[test]
fn wire_prices() {
    assert_eq!(Price4::from(1_000_000u32).raw(), 1_000_000);
    assert_eq!(Price8::from(7u64).raw(), 7);
}

#[test]
fn stream_yields_message_and_advances() {
    let mut s = MessageStream::new();
    let mut bytes = add_order_frame();
    bytes.extend_from_slice(&add_order_frame());
    assert_eq!(s.fill(&bytes), None);
    assert_eq!(s.next_message(), Pull::Message(expected_add()));
    assert_eq!(s.next_message(), Pull::Message(expected_add()));
    assert_eq!(s.next_message(), Pull::NeedBytes);
    assert_eq!(s.fetch_more_bytes(), BUF_SIZE - 76);
    assert_eq!(s.fill(&[]), Some(Pull::End));
}

#[test]
fn stream_waits_for_the_rest_of_a_body() {
    let mut s = MessageStream::new();
    let frame = add_order_frame();
    assert_eq!(s.fill(&frame[..33]), None);
    assert_eq!(s.next_message(), Pull::NeedBytes);
    let room = s.fetch_more_bytes();
    assert!(room >= 5);
    assert_eq!(s.fill(&frame[33..]), None);
    assert_eq!(s.next_message(), Pull::Message(expected_add()));
}

#[test]
fn stream_reports_one_error_then_ends() {
    let mut s = MessageStream::new();
    let mut frame = add_order_frame();
    frame[2] = b'Z';
    assert_eq!(s.fill(&frame), None);
    assert_eq!(s.next_message(), Pull::Failed(StreamError::Parse(frame[..20].to_vec())));
    assert_eq!(s.next_message(), Pull::End);
}

#[test]
fn stream_reports_truncated_input() {
    let mut s = MessageStream::new();
    let frame = add_order_frame();
    assert_eq!(s.fill(&frame[..10]), None);
    assert_eq!(s.next_message(), Pull::NeedBytes);
    s.fetch_more_bytes();
    assert_eq!(s.fill(&[]), Some(Pull::Failed(StreamError::UnexpectedEof)));
    assert_eq!(s.fill(&[]), Some(Pull::End));
}

#[test]
fn stream_read_failure_reported_once() {
    let mut s = MessageStream::new();
    assert_eq!(s.read_failed(), Pull::Failed(StreamError::Read));
    assert_eq!(s.read_failed(), Pull::End);
}

#[test]
fn stream_compacts_at_buffer_end() {
    let mut s = MessageStream::new();
    let frame = add_order_frame();
    // fill the buffer with whole messages, then a partial one at the very end
    let whole = BUF_SIZE / 38;
    let mut bytes = Vec::new();
    for _ in 0..whole {
        bytes.extend_from_slice(&frame);
    }
    let tail = BUF_SIZE - bytes.len();
    bytes.extend_from_slice(&frame[..tail]);
    assert_eq!(s.fill(&bytes), None);
    for _ in 0..whole {
        assert_eq!(s.next_message(), Pull::Message(expected_add()));
    }
    assert_eq!(s.next_message(), Pull::NeedBytes);
    assert_eq!(s.fetch_more_bytes(), BUF_SIZE - tail);
    assert_eq!(s.fill(&frame[tail..]), None);
    assert_eq!(s.next_message(), Pull::Message(expected_add()));
}
