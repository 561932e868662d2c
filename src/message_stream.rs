//! The framed message stream: a 64 KiB buffer that is parsed from the front,
//! compacted when its tail is reached and refilled by the caller.
use vstd::prelude::*;
use crate::message::{message_decoding, parse_message, Message, Parsed};

verus! {

/// Size of the stream's buffer.
pub const BUF_SIZE: usize = 65536;

/// Length of the longest message the decoder reads, length prefix included.
pub const MAX_MESSAGE_LEN: usize = 52;

/// Bytes of buffer context carried by a parse error.
pub const CONTEXT_LEN: usize = 20;

/// The one error a stream reports before it ends.
#[derive(Clone, Debug, PartialEq, Eq)]
pub enum StreamError {
    /// The pending bytes do not form a message; the first bytes of them.
    Parse(Vec<u8>),
    /// The input ended inside a message.
    UnexpectedEof,
    /// The input could not be read.
    Read,
}

/// What a pull on the stream produced.
#[derive(Clone, Debug, PartialEq, Eq)]
pub enum Pull {
    /// A decoded message.
    Message(Message),
    /// The stream's one error report.
    Failed(StreamError),
    /// The stream has ended.
    End,
    /// More input is needed: call `fetch_more_bytes`, read at most that many
    /// bytes and hand them to `fill`.
    NeedBytes,
}

/// `r` is a parse failure carrying the first (at most `CONTEXT_LEN`) bytes of `s`.
pub open spec fn reports_context(r: Pull, s: Seq<u8>) -> bool {
    match r {
        Pull::Failed(StreamError::Parse(ctx)) => ctx@ == s.subrange(
            0,
            if s.len() < CONTEXT_LEN {
                s.len() as int
            } else {
                CONTEXT_LEN as int
            },
        ),
        _ => false,
    }
}

/// A buffer of input bytes with a read cursor and a write cursor.
pub struct MessageStream {
    buffer: Vec<u8>,
    buf_start: usize,
    buf_end: usize,
    bytes_read: usize,
    read_calls: u32,
    message_ct: u32,
    in_error_state: bool,
}

impl MessageStream {
    /// Cursors within the buffer.
    pub closed spec fn wf(&self) -> bool {
        &&& self.buffer@.len() == BUF_SIZE
        &&& self.buf_start <= self.buf_end <= BUF_SIZE
    }

    /// Bytes received and not yet consumed.
    pub closed spec fn pending(&self) -> Seq<u8> {
        self.buffer@.subrange(self.buf_start as int, self.buf_end as int)
    }

    /// Free space after the write cursor.
    pub closed spec fn room(&self) -> int {
        BUF_SIZE - self.buf_end
    }

    /// True once an error has been reported and no message decoded since.
    pub closed spec fn in_error(&self) -> bool {
        self.in_error_state
    }

    /// Creates a stream with an empty buffer.
    pub fn new() -> (r: Self)
        ensures
            r.wf(),
            r.pending() == Seq::<u8>::empty(),
            r.room() == BUF_SIZE,
            !r.in_error(),
    {
        let r = MessageStream {
            buffer: vec![0u8; BUF_SIZE],
            buf_start: 0,
            buf_end: 0,
            bytes_read: 0,
            read_calls: 0,
            message_ct: 0,
            in_error_state: false,
        };
        assert(r.pending() =~= Seq::<u8>::empty());
        r
    }

    /// Tries to decode one message from the pending bytes. A decoded message
    /// is consumed and clears the error latch; the first failure is reported
    /// with up to `CONTEXT_LEN` pending bytes and latched, and a failure while
    /// latched ends the stream; a partial message asks for more bytes.
    pub fn next_message(&mut self) -> (r: Pull)
        requires
            old(self).wf(),
        ensures
            final(self).wf(),
            match message_decoding(old(self).pending()) {
                Parsed::Done(m, n) => {
                    &&& r == Pull::Message(m)
                    &&& final(self).pending() == old(self).pending().subrange(
                        n as int,
                        old(self).pending().len() as int,
                    )
                    &&& final(self).room() == old(self).room()
                    &&& !final(self).in_error()
                },
                Parsed::Error => {
                    &&& final(self).pending() == old(self).pending()
                    &&& final(self).room() == old(self).room()
                    &&& final(self).in_error()
                    &&& old(self).in_error() ==> r == Pull::End
                    &&& !old(self).in_error() ==> reports_context(r, old(self).pending())
                },
                Parsed::Incomplete => {
                    &&& r == Pull::NeedBytes
                    &&& *final(self) == *old(self)
                    &&& old(self).pending().len() < MAX_MESSAGE_LEN
                },
            },
    {
        let buf = vstd::slice::slice_subrange(self.buffer.as_slice(), self.buf_start, self.buf_end);
        proof {
            lemma_short_when_incomplete(buf@);
        }
        match parse_message(buf) {
            Parsed::Done(msg, n) => {
                proof {
                    lemma_done_within(buf@);
                }
                self.buf_start = self.buf_start + n;
                self.message_ct = self.message_ct.wrapping_add(1);
                self.in_error_state = false;
                Pull::Message(msg)
            },
            Parsed::Error => {
                if self.in_error_state {
                    Pull::End
                } else {
                    self.in_error_state = true;
                    let len = buf.len();
                    let ctx_len: usize = if len < CONTEXT_LEN {
                        len
                    } else {
                        CONTEXT_LEN
                    };
                    let ctx = vstd::slice::slice_to_vec(vstd::slice::slice_subrange(buf, 0, ctx_len));
                    Pull::Failed(StreamError::Parse(ctx))
                }
            },
            Parsed::Incomplete => Pull::NeedBytes,
        }
    }

    /// Makes room for a read: when the write cursor has reached the end of
    /// the buffer, the pending bytes move to its front. Returns the free
    /// space after the write cursor, which is never zero.
    pub fn fetch_more_bytes(&mut self) -> (r: usize)
        requires
            old(self).wf(),
            old(self).pending().len() < MAX_MESSAGE_LEN,
        ensures
            final(self).wf(),
            final(self).pending() == old(self).pending(),
            final(self).in_error() == old(self).in_error(),
            r == final(self).room(),
            r > 0,
            old(self).room() > 0 ==> final(self).room() == old(self).room(),
            old(self).room() == 0 ==> final(self).room() == BUF_SIZE - old(self).pending().len(),
    {
        self.read_calls = self.read_calls.wrapping_add(1);
        if self.buf_end == BUF_SIZE {
            let start = self.buf_start;
            let len = self.buf_end - self.buf_start;
            let ghost pend = self.pending();
            let mut i: usize = 0;
            while i < len
                invariant
                    self.buffer@.len() == BUF_SIZE,
                    self.buf_start == start,
                    self.buf_end == BUF_SIZE,
                    self.in_error_state == old(self).in_error_state,
                    len == BUF_SIZE - start,
                    len < MAX_MESSAGE_LEN,
                    i <= len,
                    self.buffer@.subrange(start as int, BUF_SIZE as int) == pend,
                    forall|k: int| 0 <= k < i ==> self.buffer@[k] == pend[k],
                decreases len - i,
            {
                let b = self.buffer[start + i];
                self.buffer.set(i, b);
                i = i + 1;
                assert(self.buffer@.subrange(start as int, BUF_SIZE as int) =~= pend);
            }
            self.buf_start = 0;
            self.buf_end = len;
            assert(self.pending() =~= pend);
        }
        BUF_SIZE - self.buf_end
    }

    /// Takes the bytes one read returned. Bytes are appended to the pending
    /// ones; an empty read is the end of the input: the stream ends, after
    /// one `UnexpectedEof` report when a partial message is pending and no
    /// error is latched.
    pub fn fill(&mut self, data: &[u8]) -> (r: Option<Pull>)
        requires
            old(self).wf(),
            data@.len() <= old(self).room(),
        ensures
            final(self).wf(),
            data@.len() > 0 ==> {
                &&& r is None
                &&& final(self).pending() == old(self).pending() + data@
                &&& final(self).room() == old(self).room() - data@.len()
                &&& final(self).in_error() == old(self).in_error()
            },
            data@.len() == 0 ==> {
                &&& final(self).pending() == old(self).pending()
                &&& final(self).room() == old(self).room()
                &&& (old(self).pending().len() == 0 || old(self).in_error()) ==> {
                    &&& r == Some(Pull::End)
                    &&& final(self).in_error() == old(self).in_error()
                }
                &&& (old(self).pending().len() > 0 && !old(self).in_error()) ==> {
                    &&& r == Some(Pull::Failed(StreamError::UnexpectedEof))
                    &&& final(self).in_error()
                }
            },
    {
        let n = data.len();
        if n == 0 {
            if self.buf_start == self.buf_end || self.in_error_state {
                return Some(Pull::End);
            }
            self.in_error_state = true;
            return Some(Pull::Failed(StreamError::UnexpectedEof));
        }
        let end = self.buf_end;
        let ghost old_buf = self.buffer@;
        let mut i: usize = 0;
        while i < n
            invariant
                self.buffer@.len() == BUF_SIZE,
                self.buf_end == end,
                self.buf_start == old(self).buf_start,
                self.buf_start <= end,
                self.in_error_state == old(self).in_error_state,
                end + n <= BUF_SIZE,
                n == data@.len(),
                i <= n,
                forall|k: int| 0 <= k < end ==> self.buffer@[k] == old_buf[k],
                forall|k: int| 0 <= k < i ==> self.buffer@[end + k] == data@[k],
            decreases n - i,
        {
            self.buffer.set(end + i, data[i]);
            i = i + 1;
        }
        self.buf_end = end + n;
        self.bytes_read = self.bytes_read.wrapping_add(n);
        assert(self.pending() =~= old(self).pending() + data@);
        None
    }

    /// Takes a failed read: reported once, then the stream ends.
    pub fn read_failed(&mut self) -> (r: Pull)
        requires
            old(self).wf(),
        ensures
            final(self).wf(),
            final(self).pending() == old(self).pending(),
            final(self).room() == old(self).room(),
            final(self).in_error(),
            old(self).in_error() ==> r == Pull::End,
            !old(self).in_error() ==> r == Pull::Failed(StreamError::Read),
    {
        if self.in_error_state {
            Pull::End
        } else {
            self.in_error_state = true;
            Pull::Failed(StreamError::Read)
        }
    }
}

/// A message that decodes ends within the bytes it was decoded from.
proof fn lemma_done_within(s: Seq<u8>)
    ensures
        message_decoding(s) matches Parsed::Done(_, n) ==> n <= s.len(),
{
}

/// Only fewer bytes than the longest message can leave a message incomplete.
proof fn lemma_short_when_incomplete(s: Seq<u8>)
    ensures
        message_decoding(s) is Incomplete ==> s.len() < MAX_MESSAGE_LEN,
{
}

} // verus!
