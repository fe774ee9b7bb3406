//! WebSocket frames: reading messages from a byte stream that arrives in pieces.
//!
//! The reader looks on while the bytes are relayed. It joins fragments, unmasks payloads, and of a
//! message that is too large to keep it reads the size alone.
use vstd::prelude::*;

verus! {

/// The largest payload of a message that is kept, in bytes. Of a larger one the size alone is read.
pub const MAX_CAPTURE_PAYLOAD: usize = 64 * 1024;

/// A message that was read.
pub struct Message {
    /// The operation code: 1 text, 2 binary, 8 close, 9 ping, 10 pong.
    pub opcode: u8,
    /// The payload without its mask, empty where it was too large to keep.
    pub payload: Vec<u8>,
    /// The size of the payload in bytes, that of all its fragments.
    pub total: u64,
}

/// What a message holds.
pub struct MessageModel {
    pub opcode: u8,
    pub payload: Seq<u8>,
    pub total: int,
}

impl View for Message {
    type V = MessageModel;

    open spec fn view(&self) -> MessageModel {
        MessageModel { opcode: self.opcode, payload: self.payload@, total: self.total as int }
    }
}

/// What a list of messages holds.
pub open spec fn messages(v: Seq<Message>) -> Seq<MessageModel> {
    Seq::new(v.len(), |i: int| v[i]@)
}

/// A reader of WebSocket frames.
pub struct FrameParser {
    buf: Vec<u8>,
    msg_op: u8,
    msg_payload: Vec<u8>,
    msg_total: u64,
    skip_remaining: u64,
}

/// The state of a reader.
#[verifier::ext_equal]
pub struct ParserModel {
    /// The bytes that were not read as a frame yet.
    pub buf: Seq<u8>,
    /// The operation code of the message whose fragments are being joined.
    pub msg_op: u8,
    /// The fragments so far, nothing where they are too large to keep.
    pub msg_payload: Seq<u8>,
    /// The size of the fragments so far.
    pub msg_total: int,
    /// How many bytes of a large frame are still to be passed over.
    pub skip: int,
}

impl View for FrameParser {
    type V = ParserModel;

    closed spec fn view(&self) -> ParserModel {
        ParserModel {
            buf: self.buf@,
            msg_op: self.msg_op,
            msg_payload: self.msg_payload@,
            msg_total: self.msg_total as int,
            skip: self.skip_remaining as int,
        }
    }
}

/// A reader that has read nothing.
pub open spec fn fresh() -> ParserModel {
    ParserModel { buf: seq![], msg_op: 0, msg_payload: seq![], msg_total: 0, skip: 0 }
}

/// The head of a frame.
pub struct Head {
    pub fin: bool,
    pub opcode: u8,
    pub mask: Option<Seq<u8>>,
    /// The payload's length.
    pub len: int,
    /// The number of bytes that the head takes.
    pub size: int,
}

/// The payload's length and the number of bytes up to its end in the head, without the mask.
pub open spec fn head_length(b: Seq<u8>) -> Option<(int, int)> {
    if b.len() < 2 {
        None
    } else {
        let short = (b[1] % 128) as int;
        if short == 126 {
            if b.len() < 4 {
                None
            } else {
                Some((b[2] * 256 + b[3], 4))
            }
        } else if short == 127 {
            if b.len() < 10 {
                None
            } else {
                Some((be64(b, 2), 10))
            }
        } else {
            Some((short, 2))
        }
    }
}

/// The eight bytes from `i` on as a number, the most significant first.
pub open spec fn be64(b: Seq<u8>, i: int) -> int {
    b[i] * 0x100000000000000 + b[i + 1] * 0x1000000000000 + b[i + 2] * 0x10000000000 + b[i + 3]
        * 0x100000000 + b[i + 4] * 0x1000000 + b[i + 5] * 0x10000 + b[i + 6] * 0x100 + b[i + 7]
}

/// The head at the start of the bytes, once it is all there.
pub open spec fn head(b: Seq<u8>) -> Option<Head> {
    match head_length(b) {
        None => None,
        Some((len, at)) => {
            let fin = b[0] >= 128;
            let opcode = b[0] % 16;
            if b[1] >= 128 {
                if b.len() < at + 4 {
                    None
                } else {
                    Some(
                        Head { fin, opcode, mask: Some(b.subrange(at, at + 4)), len, size: at + 4 },
                    )
                }
            } else {
                Some(Head { fin, opcode, mask: None, len, size: at })
            }
        },
    }
}

/// Bytes under a mask; the same mask takes it off again.
pub open spec fn masked(bytes: Seq<u8>, mask: Option<Seq<u8>>) -> Seq<u8> {
    match mask {
        None => bytes,
        Some(key) => Seq::new(bytes.len(), |i: int| bytes[i] ^ key[i % 4]),
    }
}

/// A frame that was read.
pub struct FrameModel {
    pub fin: bool,
    pub opcode: u8,
    pub payload: Seq<u8>,
    pub total: int,
}

/// Reads the frame at the start of the buffer: the frame, the buffer behind it, and how many bytes
/// are to be passed over. `None` where the frame is not all there yet.
pub open spec fn frame(b: Seq<u8>) -> Option<(FrameModel, Seq<u8>, int)> {
    match head(b) {
        None => None,
        Some(h) => if h.len > MAX_CAPTURE_PAYLOAD {
            let there = b.len() - h.size;
            let take = if there < h.len {
                there
            } else {
                h.len
            };
            Some(
                (
                    FrameModel { fin: h.fin, opcode: h.opcode, payload: seq![], total: h.len },
                    b.subrange(h.size + take, b.len() as int),
                    h.len - take,
                ),
            )
        } else if b.len() < h.size + h.len {
            None
        } else {
            Some(
                (
                    FrameModel {
                        fin: h.fin,
                        opcode: h.opcode,
                        payload: masked(b.subrange(h.size, h.size + h.len), h.mask),
                        total: h.len,
                    },
                    b.subrange(h.size + h.len, b.len() as int),
                    0,
                ),
            )
        },
    }
}

/// The size of two payloads together. It stops at what 64 bits can hold.
pub open spec fn sum(a: int, b: int) -> int {
    if a + b > u64::MAX {
        u64::MAX as int
    } else {
        a + b
    }
}

/// The fragments so far with that of a frame. Where they are too large to keep, nothing is kept.
pub open spec fn joined(s: ParserModel, f: FrameModel) -> Seq<u8> {
    if sum(s.msg_total, f.total) > MAX_CAPTURE_PAYLOAD {
        seq![]
    } else {
        s.msg_payload + f.payload
    }
}

/// The state once a frame was added to the message whose fragments are being joined, and the
/// message that it completes.
pub open spec fn handled(s: ParserModel, f: FrameModel) -> (ParserModel, Seq<MessageModel>) {
    let whole = MessageModel { opcode: f.opcode, payload: f.payload, total: f.total };
    if f.opcode == 0 {
        let total = sum(s.msg_total, f.total);
        if f.fin {
            (
                ParserModel { msg_payload: seq![], msg_total: 0, ..s },
                seq![MessageModel { opcode: s.msg_op, payload: joined(s, f), total }],
            )
        } else {
            (ParserModel { msg_payload: joined(s, f), msg_total: total, ..s }, seq![])
        }
    } else if f.opcode == 1 || f.opcode == 2 {
        if f.fin {
            (s, seq![whole])
        } else {
            (
                ParserModel {
                    msg_op: f.opcode,
                    msg_payload: f.payload,
                    msg_total: f.total,
                    ..s
                },
                seq![],
            )
        }
    } else if 8 <= f.opcode <= 10 {
        (s, seq![whole])
    } else {
        (s, seq![])
    }
}

/// The state once the bytes that are to be passed over are, as far as they are there.
pub open spec fn passed_over(s: ParserModel) -> ParserModel {
    let n = if s.skip < s.buf.len() {
        s.skip
    } else {
        s.buf.len() as int
    };
    ParserModel { buf: s.buf.subrange(n, s.buf.len() as int), skip: s.skip - n, ..s }
}

/// Reads all the frames that are there: the state behind them, and their messages.
pub open spec fn run(s: ParserModel) -> (ParserModel, Seq<MessageModel>)
    decreases s.buf.len(),
{
    let p = passed_over(s);
    if s.skip < 0 || p.skip > 0 {
        (p, seq![])
    } else {
        match frame(p.buf) {
            None => (p, seq![]),
            Some((f, rest, skip)) => {
                let (q, out) = handled(p, f);
                let next = ParserModel { buf: rest, skip, ..q };
                let (last, more) = run(next);
                (last, out + more)
            },
        }
    }
}

/// The state with more bytes.
pub open spec fn with_bytes(s: ParserModel, data: Seq<u8>) -> ParserModel {
    ParserModel { buf: s.buf + data, ..s }
}

/// What a reader makes of more bytes.
pub open spec fn fed(s: ParserModel, data: Seq<u8>) -> (ParserModel, Seq<MessageModel>) {
    run(with_bytes(s, data))
}

struct Frame {
    fin: bool,
    opcode: u8,
    payload: Vec<u8>,
    total: u64,
}

impl View for Frame {
    type V = FrameModel;

    closed spec fn view(&self) -> FrameModel {
        FrameModel {
            fin: self.fin,
            opcode: self.opcode,
            payload: self.payload@,
            total: self.total as int,
        }
    }
}

/// Drops the first `n` bytes.
fn drop_front(buf: &mut Vec<u8>, n: usize)
    requires
        n <= old(buf)@.len(),
    ensures
        final(buf)@ == old(buf)@.subrange(n as int, old(buf)@.len() as int),
{
    let rest = buf.split_off(n);
    *buf = rest;
}

/// The payload from `at` on, without its mask.
fn unmask(buf: &Vec<u8>, at: usize, len: usize, mask: Option<[u8; 4]>) -> (r: Vec<u8>)
    requires
        at + len <= buf.len(),
    ensures
        r@ == masked(
            buf@.subrange(at as int, at + len),
            match mask {
                Some(m) => Some(m@),
                None => None,
            },
        ),
{
    let mut out: Vec<u8> = Vec::new();
    let ghost key = match mask {
        Some(m) => Some(m@),
        None => None,
    };
    let ghost raw = buf@.subrange(at as int, at + len);
    let mut i: usize = 0;
    while i < len
        invariant
            i <= len,
            at + len <= buf.len(),
            raw == buf@.subrange(at as int, at + len),
            key == match mask {
                Some(m) => Some(m@),
                None => None,
            },
            out@ == masked(raw, key).take(i as int),
        decreases len - i,
    {
        let b = buf[at + i];
        let c = match mask {
            Some(m) => b ^ m[i % 4],
            None => b,
        };
        out.push(c);
        i += 1;
        proof {
            assert(raw[i - 1] == b);
            assert(out@ =~= masked(raw, key).take(i as int));
        }
    }
    proof {
        assert(masked(raw, key).take(len as int) =~= masked(raw, key));
    }
    out
}

impl Default for FrameParser {
    /// A reader that has read nothing.
    fn default() -> (r: FrameParser)
        ensures
            r@ == fresh(),
    {
        FrameParser {
            buf: Vec::new(),
            msg_op: 0,
            msg_payload: Vec::new(),
            msg_total: 0,
            skip_remaining: 0,
        }
    }
}

impl FrameParser {
    /// Reads more bytes, and returns the messages that they complete.
    pub fn feed(&mut self, data: &[u8]) -> (r: Vec<Message>)
        ensures
            fed(old(self)@, data@) == (final(self)@, messages(r@)),
    {
        self.buf.extend_from_slice(data);
        proof {
            assert(self.buf@ =~= old(self).buf@ + data@);
        }
        let ghost whole = run(self@);
        let mut out: Vec<Message> = Vec::new();
        proof {
            assert(messages(out@) + run(self@).1 =~= run(self@).1);
        }
        loop
            invariant
                run(self@).0 == whole.0,
                messages(out@) + run(self@).1 == whole.1,
                whole == fed(old(self)@, data@),
            decreases self@.buf.len(),
        {
            let ghost before = self@;
            let ghost outs = messages(out@);
            let n: usize = if self.skip_remaining < self.buf.len() as u64 {
                self.skip_remaining as usize
            } else {
                self.buf.len()
            };
            drop_front(&mut self.buf, n);
            self.skip_remaining = self.skip_remaining - n as u64;
            proof {
                assert(self@ =~= passed_over(before));
            }
            if self.skip_remaining > 0 {
                proof {
                    assert(outs + run(before).1 =~= outs);
                }
                return out;
            }
            match self.parse_frame() {
                Some(f) => {
                    let ghost fm = f@;
                    self.handle(f, &mut out);
                    proof {
                        let p = passed_over(before);
                        let (q, emitted) = handled(p, fm);
                        let (_, rest, skip) = frame(p.buf)->0;
                        assert(self@ =~= (ParserModel { buf: rest, skip, ..q }));
                        assert(outs + (emitted + run(self@).1) =~= messages(out@) + run(self@).1);
                    }
                },
                None => {
                    proof {
                        assert(outs + run(before).1 =~= outs);
                    }
                    return out;
                },
            }
        }
    }

    /// Adds a frame to the message whose fragments are being joined, and appends the message that
    /// it completes.
    fn handle(&mut self, f: Frame, out: &mut Vec<Message>)
        ensures
            ({
                let (q, emitted) = handled(old(self)@, f@);
                &&& final(self)@ == q
                &&& messages(final(out)@) == messages(old(out)@) + emitted
            }),
    {
        let ghost outs = messages(out@);
        if f.opcode == 0 {
            let mut payload: Vec<u8> = Vec::new();
            std::mem::swap(&mut payload, &mut self.msg_payload);
            let total: u64 = self.msg_total.saturating_add(f.total);
            if total > MAX_CAPTURE_PAYLOAD as u64 {
                payload = Vec::new();
            } else {
                payload.extend_from_slice(f.payload.as_slice());
            }
            proof {
                assert(payload@ =~= joined(old(self)@, f@));
            }
            if f.fin {
                self.msg_total = 0;
                out.push(Message { opcode: self.msg_op, payload, total });
                proof {
                    assert(self.msg_payload@ =~= seq![]);
                    assert(messages(out@) =~= outs.push(out@.last()@));
                }
            } else {
                self.msg_payload = payload;
                self.msg_total = total;
                proof {
                    assert(messages(out@) =~= outs + seq![]);
                }
            }
        } else if f.opcode == 1 || f.opcode == 2 {
            if f.fin {
                out.push(Message { opcode: f.opcode, payload: f.payload, total: f.total });
                proof {
                    assert(messages(out@) =~= outs.push(out@.last()@));
                }
            } else {
                self.msg_op = f.opcode;
                self.msg_payload = f.payload;
                self.msg_total = f.total;
                proof {
                    assert(messages(out@) =~= outs + seq![]);
                }
            }
        } else if 8 <= f.opcode && f.opcode <= 10 {
            out.push(Message { opcode: f.opcode, payload: f.payload, total: f.total });
            proof {
                assert(messages(out@) =~= outs.push(out@.last()@));
            }
        } else {
            proof {
                assert(messages(out@) =~= outs + seq![]);
            }
        }
    }

    /// Reads the frame at the start of the buffer, once it is all there or too large to keep.
    fn parse_frame(&mut self) -> (r: Option<Frame>)
        requires
            old(self)@.skip == 0,
        ensures
            match r {
                Some(f) => match frame(old(self)@.buf) {
                    Some((fm, rest, skip)) => f@ == fm && final(self)@ == (ParserModel {
                        buf: rest,
                        skip,
                        ..old(self)@
                    }) && rest.len() < old(self)@.buf.len(),
                    None => false,
                },
                None => frame(old(self)@.buf) is None && final(self)@ == old(self)@,
            },
    {
        let ghost b = self.buf@;
        if self.buf.len() < 2 {
            return None;
        }
        let b0: u8 = self.buf[0];
        let b1: u8 = self.buf[1];
        let fin: bool = b0 & 0x80 != 0;
        let opcode: u8 = b0 & 0x0f;
        let has_mask: bool = b1 & 0x80 != 0;
        let short: u8 = b1 & 0x7f;
        proof {
            assert(b0 & 0x80 != 0 <==> b0 >= 128) by (bit_vector);
            assert(b0 & 0x0f == b0 % 16) by (bit_vector);
            assert(b1 & 0x80 != 0 <==> b1 >= 128) by (bit_vector);
            assert(b1 & 0x7f == b1 % 128) by (bit_vector);
        }
        let mut len: u64 = short as u64;
        let mut at: usize = 2;
        if short == 126 {
            if self.buf.len() < 4 {
                return None;
            }
            len = self.buf[2] as u64 * 256 + self.buf[3] as u64;
            at = 4;
        } else if short == 127 {
            if self.buf.len() < 10 {
                return None;
            }
            len = self.buf[2] as u64 * 0x100000000000000 + self.buf[3] as u64 * 0x1000000000000
                + self.buf[4] as u64 * 0x10000000000 + self.buf[5] as u64 * 0x100000000
                + self.buf[6] as u64 * 0x1000000 + self.buf[7] as u64 * 0x10000 + self.buf[8] as u64
                * 0x100 + self.buf[9] as u64;
            at = 10;
        }
        proof {
            assert(head_length(b) == Some((len as int, at as int)));
        }
        let mut mask: Option<[u8; 4]> = None;
        if has_mask {
            if self.buf.len() < at + 4 {
                return None;
            }
            let m: [u8; 4] = [self.buf[at], self.buf[at + 1], self.buf[at + 2], self.buf[at + 3]];
            proof {
                assert(m@ =~= b.subrange(at as int, at + 4));
            }
            mask = Some(m);
            at = at + 4;
        }
        if len > MAX_CAPTURE_PAYLOAD as u64 {
            let there: usize = self.buf.len() - at;
            let take: usize = if (there as u64) < len {
                there
            } else {
                len as usize
            };
            drop_front(&mut self.buf, at + take);
            self.skip_remaining = len - take as u64;
            let f = Frame { fin, opcode, payload: Vec::new(), total: len };
            proof {
                assert(f.payload@ =~= seq![]);
            }
            return Some(f);
        }
        let n: usize = len as usize;
        if self.buf.len() - at < n {
            return None;
        }
        let payload = unmask(&self.buf, at, n, mask);
        drop_front(&mut self.buf, at + n);
        Some(Frame { fin, opcode, payload, total: len })
    }
}

/// The bytes of a short text frame.
pub open spec fn text_frame(payload: Seq<u8>, mask: Option<Seq<u8>>) -> Seq<u8> {
    let size = payload.len() as u8;
    match mask {
        Some(key) => seq![0x81u8, (128 + size) as u8] + key + masked(payload, mask),
        None => seq![0x81u8, size] + payload,
    }
}

/// Writes a text frame with a payload of fewer than 126 bytes, under a mask or not.
pub fn encode_text_frame(payload: &[u8], mask: Option<[u8; 4]>) -> (r: Vec<u8>)
    requires
        payload@.len() < 126,
    ensures
        r@ == text_frame(
            payload@,
            match mask {
                Some(m) => Some(m@),
                None => None,
            },
        ),
{
    let mut out: Vec<u8> = Vec::new();
    let size: u8 = payload.len() as u8;
    let body = vstd::slice::slice_to_vec(payload);
    out.push(0x81);
    match mask {
        Some(m) => {
            out.push(128 + size);
            out.push(m[0]);
            out.push(m[1]);
            out.push(m[2]);
            out.push(m[3]);
            let mut hidden = unmask(&body, 0, body.len(), mask);
            proof {
                assert(body@.subrange(0, body@.len() as int) =~= payload@);
            }
            out.append(&mut hidden);
            proof {
                assert(out@ =~= text_frame(payload@, Some(m@)));
            }
        },
        None => {
            out.push(size);
            let mut rest = body;
            out.append(&mut rest);
            proof {
                assert(out@ =~= text_frame(payload@, None));
            }
        },
    }
    out
}

// ---- laws ----

/// The head of a frame depends on the bytes of the head alone.
proof fn lemma_head_of_prefix(b: Seq<u8>, more: Seq<u8>)
    requires
        head(b) is Some,
    ensures
        head(b + more) == head(b),
        2 <= head(b)->0.size <= b.len(),
{
    let w = b + more;
    assert(w[0] == b[0] && w[1] == b[1]);
    let (_, at) = head_length(b)->0;
    assert(head_length(w) == head_length(b));
    if b[1] >= 128 {
        assert(w.subrange(at, at + 4) =~= b.subrange(at, at + 4));
    }
}

/// How the bytes of a stream are cut into pieces makes no difference: a reader that is fed two
/// pieces, one after the other, ends in the state and reads the messages of one that is fed both
/// at once.
pub proof fn law_pieces_make_no_difference(s: ParserModel, a: Seq<u8>, b: Seq<u8>)
    requires
        s.skip >= 0,
    ensures
        ({
            let (mid, first) = fed(s, a);
            let (last, second) = fed(mid, b);
            fed(s, a + b) == (last, first + second)
        }),
{
    assert(s.buf + (a + b) =~= (s.buf + a) + b);
    lemma_run_of_more(with_bytes(s, a), b);
}

/// A frame that is there is there with more bytes behind it, too, and leaves those bytes as well.
proof fn lemma_frame_of_more(p: ParserModel, more: Seq<u8>, q: ParserModel)
    requires
        frame(p.buf) is Some,
    ensures
        frame(p.buf + more) is Some,
        ({
            let (f, rest, skip) = frame(p.buf)->0;
            let (f2, rest2, skip2) = frame(p.buf + more)->0;
            let next = ParserModel { buf: rest, skip, ..q };
            let next2 = ParserModel { buf: rest2, skip: skip2, ..q };
            &&& f2 == f
            &&& skip >= 0
            &&& skip2 >= 0
            &&& rest.len() < p.buf.len()
            &&& passed_over(next2) == passed_over(with_bytes(next, more))
        }),
{
    lemma_head_of_prefix(p.buf, more);
    let b = p.buf;
    let w = b + more;
    let h = head(b)->0;
    let (f, rest, skip) = frame(b)->0;
    let (f2, rest2, skip2) = frame(w)->0;
    let next = ParserModel { buf: rest, skip, ..q };
    let next2 = ParserModel { buf: rest2, skip: skip2, ..q };
    if h.len > MAX_CAPTURE_PAYLOAD {
        if b.len() - h.size >= h.len {
            assert(rest2 =~= rest + more);
        } else {
            assert(rest =~= seq![]);
            assert(rest + more =~= more);
            assert(passed_over(next2).buf =~= passed_over(with_bytes(next, more)).buf);
        }
        assert(passed_over(next2) =~= passed_over(with_bytes(next, more)));
    } else {
        assert(w.subrange(h.size, h.size + h.len) =~= b.subrange(h.size, h.size + h.len));
        assert(rest2 =~= rest + more);
    }
}

/// What becomes of a frame does not depend on the bytes behind it.
proof fn lemma_handled_of_more(p: ParserModel, more: Seq<u8>, f: FrameModel)
    ensures
        handled(with_bytes(p, more), f) == (with_bytes(handled(p, f).0, more), handled(p, f).1),
{
}

/// One step of reading all the frames that are there.
proof fn lemma_run_step(p: ParserModel)
    requires
        p.skip == 0,
        frame(p.buf) is Some,
    ensures
        ({
            let (f, rest, skip) = frame(p.buf)->0;
            let (q, out) = handled(p, f);
            let next = ParserModel { buf: rest, skip, ..q };
            run(p) == (run(next).0, out + run(next).1)
        }),
{
    lemma_frame_of_more(p, seq![], p);
    assert(passed_over(p) =~= p);
}

#[verifier::spinoff_prover]
#[verifier::rlimit(60)]
proof fn lemma_run_of_more(s: ParserModel, b: Seq<u8>)
    requires
        s.skip >= 0,
    ensures
        ({
            let (mid, first) = run(s);
            let (last, second) = run(with_bytes(mid, b));
            run(with_bytes(s, b)) == (last, first + second)
        }),
    decreases s.buf.len(),
{
    let p = passed_over(s);
    let w = with_bytes(s, b);
    let (mid, first) = run(s);
    if p.skip > 0 {
        // All that is there is passed over, and more of what follows.
        assert(p.buf =~= seq![]);
        assert(mid == p);
        assert(p.buf + b =~= b);
        assert(passed_over(w) =~= passed_over(with_bytes(p, b)));
        lemma_run_by_passed(w, with_bytes(p, b));
        assert(first + run(with_bytes(p, b)).1 =~= run(with_bytes(p, b)).1);
    } else {
        assert(passed_over(w) =~= with_bytes(p, b)) by {
            assert((s.buf + b).subrange(s.skip, (s.buf + b).len() as int) =~= s.buf.subrange(
                s.skip,
                s.buf.len() as int,
            ) + b);
        }
        lemma_run_of_passed(w);
        lemma_run_by_passed(w, with_bytes(p, b));
        match frame(p.buf) {
            None => {
                assert(mid == p);
                assert(first + run(with_bytes(p, b)).1 =~= run(with_bytes(p, b)).1);
            },
            Some((f, rest, skip)) => {
                let (q, out) = handled(p, f);
                let next = ParserModel { buf: rest, skip, ..q };
                lemma_frame_of_more(p, b, q);
                lemma_run_of_more(next, b);
                lemma_handled_of_more(p, b, f);
                let (f2, rest2, skip2) = frame(p.buf + b)->0;
                let next2 = ParserModel { buf: rest2, skip: skip2, ..q };
                lemma_run_step(with_bytes(p, b));
                lemma_run_by_passed(next2, with_bytes(next, b));
                let (mid2, more) = run(next);
                let tail = run(with_bytes(mid2, b)).1;
                assert(run(w) == (run(next2).0, out + run(next2).1));
                assert(out + (more + tail) =~= (out + more) + tail);
            },
        }
    }
}

/// Passing over twice is passing over once.
proof fn lemma_run_of_passed(s: ParserModel)
    requires
        s.skip >= 0,
    ensures
        passed_over(passed_over(s)) == passed_over(s),
{
    assert(passed_over(passed_over(s)) =~= passed_over(s));
}

/// States that pass over to the same state run alike.
proof fn lemma_run_by_passed(s: ParserModel, t: ParserModel)
    requires
        s.skip >= 0,
        t.skip >= 0,
        passed_over(s) == passed_over(t),
    ensures
        run(s) == run(t),
{
}

/// Taking the mask off what was put under it gives the bytes back.
pub proof fn law_mask_undoes_itself(bytes: Seq<u8>, mask: Option<Seq<u8>>)
    ensures
        masked(masked(bytes, mask), mask) == bytes,
{
    if let Some(key) = mask {
        assert forall|i: int| 0 <= i < bytes.len() implies #[trigger] masked(
            masked(bytes, mask),
            mask,
        )[i] == bytes[i] by {
            let x = bytes[i];
            let k = key[i % 4];
            assert((x ^ k) ^ k == x) by (bit_vector);
        }
        assert(masked(masked(bytes, mask), mask) =~= bytes);
    }
}

/// A reader between frames reads the text of a frame that was written, whatever the mask, and is
/// between frames again.
pub proof fn law_text_frame_is_read_back(s: ParserModel, payload: Seq<u8>, mask: Option<Seq<u8>>)
    requires
        s.skip == 0,
        s.buf.len() == 0,
        payload.len() < 126,
        mask matches Some(key) ==> key.len() == 4,
    ensures
        fed(s, text_frame(payload, mask)) == (
            s,
            seq![MessageModel { opcode: 1, payload, total: payload.len() as int }],
        ),
{
    let b = text_frame(payload, mask);
    let w = with_bytes(s, b);
    assert(w.buf =~= b);
    assert(passed_over(w) =~= w);
    law_mask_undoes_itself(payload, mask);
    let body = masked(payload, mask);
    let f = FrameModel { fin: true, opcode: 1, payload, total: payload.len() as int };
    match mask {
        Some(key) => {
            assert(b.subrange(2, 6) =~= key);
            assert(b.subrange(6, 6int + payload.len()) =~= body);
            assert(b.subrange(6int + payload.len(), b.len() as int) =~= seq![]);
            assert(frame(b) == Some((f, Seq::<u8>::empty(), 0int)));
        },
        None => {
            assert(b.subrange(2, 2int + payload.len()) =~= payload);
            assert(b.subrange(2int + payload.len(), b.len() as int) =~= seq![]);
            assert(frame(b) == Some((f, Seq::<u8>::empty(), 0int)));
        },
    }
    assert(s.buf =~= seq![]);
    let m = seq![MessageModel { opcode: 1, payload, total: payload.len() as int }];
    assert(passed_over(s) =~= s);
    assert(frame(s.buf) is None);
    assert(run(s) == (s, Seq::<MessageModel>::empty()));
    let next = ParserModel { buf: Seq::<u8>::empty(), skip: 0, ..w };
    assert(next =~= s);
    assert(m + Seq::<MessageModel>::empty() =~= m);
}

/// The fragments of a message are joined: a first fragment and a last one complete the message of
/// both payloads, under the operation code of the first. Its size is that of both, whatever is
/// kept of it.
pub proof fn law_fragments_are_joined(s: ParserModel, first: FrameModel, last: FrameModel)
    requires
        first.opcode == 1 || first.opcode == 2,
        !first.fin,
        last.opcode == 0,
        last.fin,
        first.total + last.total <= u64::MAX,
    ensures
        ({
            let (mid, out1) = handled(s, first);
            let (end, out2) = handled(mid, last);
            &&& out1 == Seq::<MessageModel>::empty()
            &&& end.msg_payload == Seq::<u8>::empty()
            &&& end.msg_total == 0
            &&& out2 == seq![
                MessageModel {
                    opcode: first.opcode,
                    payload: if first.total + last.total > MAX_CAPTURE_PAYLOAD {
                        seq![]
                    } else {
                        first.payload + last.payload
                    },
                    total: first.total + last.total,
                },
            ]
        }),
{
}

/// No more is kept of the fragments of a message than the limit allows.
pub open spec fn is_bounded(s: ParserModel) -> bool {
    s.msg_total >= 0 && s.msg_payload.len() <= s.msg_total && s.msg_payload.len()
        <= MAX_CAPTURE_PAYLOAD
}

/// What is kept of a message, and of the fragments of one, stays within the limit.
pub proof fn law_payloads_stay_within_limit(s: ParserModel)
    requires
        is_bounded(s),
    ensures
        is_bounded(run(s).0),
        forall|i: int|
            0 <= i < run(s).1.len() ==> (#[trigger] run(s).1[i]).payload.len()
                <= MAX_CAPTURE_PAYLOAD,
    decreases s.buf.len(),
{
    let p = passed_over(s);
    if s.skip >= 0 && p.skip <= 0 {
        if let Some((f, rest, skip)) = frame(p.buf) {
            lemma_frame_of_more(p, seq![], p);
            let (q, out) = handled(p, f);
            let next = ParserModel { buf: rest, skip, ..q };
            law_payloads_stay_within_limit(next);
            let more = run(next).1;
            assert forall|i: int| 0 <= i < (out + more).len() implies (#[trigger] (out
                + more)[i]).payload.len() <= MAX_CAPTURE_PAYLOAD by {
                if i >= out.len() {
                    assert((out + more)[i] == more[i - out.len()]);
                }
            }
        }
    }
}

/// The byte at place `p`, counted from the least significant one, of a number.
pub open spec fn byte_of(n: int, p: nat) -> u8
    decreases p,
{
    if p == 0 {
        (n % 256) as u8
    } else {
        byte_of(n / 256, (p - 1) as nat)
    }
}

/// The bytes in which a frame tells the length of its payload, in each of the three forms. The
/// first one tells by its highest bit whether there is a mask.
pub open spec fn length_bytes(form: int, n: int, hidden: bool) -> Seq<u8> {
    let bit: int = if hidden {
        128
    } else {
        0
    };
    if form == 1 {
        seq![(bit + n) as u8]
    } else if form == 3 {
        seq![(bit + 126) as u8, byte_of(n, 1), byte_of(n, 0)]
    } else {
        seq![
            (bit + 127) as u8,
            byte_of(n, 7),
            byte_of(n, 6),
            byte_of(n, 5),
            byte_of(n, 4),
            byte_of(n, 3),
            byte_of(n, 2),
            byte_of(n, 1),
            byte_of(n, 0),
        ]
    }
}

/// The form can tell the length: seven bits below 126, sixteen bits, or 64 bits.
pub open spec fn form_holds(form: int, n: int) -> bool {
    ||| form == 1 && 0 <= n < 126
    ||| form == 3 && 0 <= n < 0x1_0000
    ||| form == 9 && 0 <= n < 0x1_0000_0000_0000_0000
}

proof fn lemma_bytes_of(n: int)
    requires
        0 <= n < 0x1_0000_0000_0000_0000,
    ensures
        n == byte_of(n, 7) * 0x100000000000000 + byte_of(n, 6) * 0x1000000000000 + byte_of(n, 5)
            * 0x10000000000 + byte_of(n, 4) * 0x100000000 + byte_of(n, 3) * 0x1000000 + byte_of(
            n,
            2,
        ) * 0x10000 + byte_of(n, 1) * 0x100 + byte_of(n, 0),
        n < 0x1_0000 ==> n == byte_of(n, 1) * 256 + byte_of(n, 0),
{
    let a1 = n / 256;
    let a2 = a1 / 256;
    let a3 = a2 / 256;
    let a4 = a3 / 256;
    let a5 = a4 / 256;
    let a6 = a5 / 256;
    let a7 = a6 / 256;
    reveal_with_fuel(byte_of, 9);
    assert(byte_of(n, 0) == n % 256);
    assert(byte_of(n, 1) == a1 % 256);
    assert(byte_of(n, 2) == a2 % 256);
    assert(byte_of(n, 3) == a3 % 256);
    assert(byte_of(n, 4) == a4 % 256);
    assert(byte_of(n, 5) == a5 % 256);
    assert(byte_of(n, 6) == a6 % 256);
    assert(byte_of(n, 7) == a7 % 256);
}

/// A head is read by its bits: the highest of the first byte ends a message, its lower four are the
/// operation code, and the length follows in whichever form it was written.
#[verifier::spinoff_prover]
#[verifier::rlimit(60)]
proof fn lemma_head_is_read(
    first: u8,
    form: int,
    n: int,
    key: Option<Seq<u8>>,
    data: Seq<u8>,
)
    requires
        form_holds(form, n),
        key matches Some(k) ==> k.len() == 4,
    ensures
        ({
            let k = match key {
                Some(k) => k,
                None => seq![],
            };
            let b = seq![first] + length_bytes(form, n, key is Some) + k + data;
            head(b) == Some(
                Head {
                    fin: first >= 128,
                    opcode: (first % 16) as u8,
                    mask: key,
                    len: n,
                    size: 1 + form + k.len(),
                },
            )
        }),
{
    let k = match key {
        Some(k) => k,
        None => seq![],
    };
    let l = length_bytes(form, n, key is Some);
    let b = seq![first] + l + k + data;
    lemma_bytes_of(n);
    assert(b[0] == first);
    assert(l.len() == form);
    assert(b[1] == l[0]);
    if form == 3 {
        assert(b[2] == l[1] && b[3] == l[2]);
    } else if form == 9 {
        assert(b[2] == l[1] && b[3] == l[2] && b[4] == l[3] && b[5] == l[4] && b[6] == l[5] && b[7]
            == l[6] && b[8] == l[7] && b[9] == l[8]);
        assert(be64(b, 2) == n);
    }
    assert(head_length(b) == Some((n, 1 + form)));
    if key is Some {
        assert(b.subrange(1 + form, 1 + form + 4) =~= k);
    }
}

/// A reader between frames that is fed one frame does with it what is done with a frame.
#[verifier::spinoff_prover]
#[verifier::rlimit(60)]
proof fn lemma_one_frame(s: ParserModel, b: Seq<u8>, f: FrameModel)
    requires
        s.skip == 0,
        s.buf.len() == 0,
        frame(b) == Some((f, Seq::<u8>::empty(), 0int)),
    ensures
        fed(s, b) == handled(s, f),
{
    let w = with_bytes(s, b);
    assert(w.buf =~= b);
    lemma_run_step(w);
    let (q, out) = handled(w, f);
    let next = ParserModel { buf: Seq::empty(), skip: 0, ..q };
    let (q2, out2) = handled(s, f);
    assert(out == out2);
    assert(next =~= q2);
    lemma_nothing_to_read(q2);
    assert(out + Seq::<MessageModel>::empty() =~= out);
}

proof fn lemma_nothing_to_read(s: ParserModel)
    requires
        s.skip == 0,
        s.buf.len() == 0,
    ensures
        run(s) == (s, Seq::<MessageModel>::empty()),
{
    assert(passed_over(s) =~= s);
    assert(frame(s.buf) is None);
}

/// A whole frame is cut off the bytes that hold it.
#[verifier::spinoff_prover]
#[verifier::rlimit(60)]
proof fn lemma_frame_is_cut(first: u8, form: int, key: Option<Seq<u8>>, data: Seq<u8>)
    requires
        form_holds(form, data.len() as int),
        key matches Some(k) ==> k.len() == 4,
    ensures
        ({
            let k = match key {
                Some(k) => k,
                None => seq![],
            };
            let b = seq![first] + length_bytes(form, data.len() as int, key is Some) + k + data;
            frame(b) == Some(
                (
                    FrameModel {
                        fin: first >= 128,
                        opcode: (first % 16) as u8,
                        payload: if data.len() > 0x1_0000 {
                            seq![]
                        } else {
                            masked(data, key)
                        },
                        total: data.len() as int,
                    },
                    Seq::<u8>::empty(),
                    0int,
                ),
            )
        }),
{
    let k = match key {
        Some(k) => k,
        None => seq![],
    };
    let n = data.len() as int;
    let l = length_bytes(form, n, key is Some);
    let b = seq![first] + l + k + data;
    assert(l.len() == form);
    lemma_head_is_read(first, form, n, key, data);
    let h = head(b)->0;
    assert(b.len() == h.size + n);
    assert(b.subrange(h.size, h.size + n) =~= data);
    assert(b.subrange(h.size + n, b.len() as int) =~= seq![]);
}

/// Between frames, a whole frame is read as it stands on the wire: each byte of its payload with
/// the byte of the mask whose turn it is, and the reader is between frames again. The operation code
/// and the end of the message are bits of the first byte, the length has one of three forms.
#[verifier::spinoff_prover]
#[verifier::rlimit(60)]
proof fn lemma_frame_is_read(
    s: ParserModel,
    first: u8,
    form: int,
    key: Option<Seq<u8>>,
    data: Seq<u8>,
)
    requires
        s.skip == 0,
        s.buf.len() == 0,
        form_holds(form, data.len() as int),
        key matches Some(k) ==> k.len() == 4,
    ensures
        ({
            let k = match key {
                Some(k) => k,
                None => seq![],
            };
            let b = seq![first] + length_bytes(form, data.len() as int, key is Some) + k + data;
            let payload = if data.len() > 0x1_0000 {
                seq![]
            } else {
                match key {
                    Some(k) => Seq::new(data.len(), |i: int| data[i] ^ k[i % 4]),
                    None => data,
                }
            };
            let f = FrameModel {
                fin: first >= 128,
                opcode: (first % 16) as u8,
                payload,
                total: data.len() as int,
            };
            fed(s, b) == handled(s, f)
        }),
{
    let k = match key {
        Some(k) => k,
        None => seq![],
    };
    let n = data.len() as int;
    let b = seq![first] + length_bytes(form, n, key is Some) + k + data;
    lemma_frame_is_cut(first, form, key, data);
    let (f, _, _) = frame(b)->0;
    lemma_one_frame(s, b, f);
    if let Some(key) = key {
        if n <= 0x1_0000 {
            assert(f.payload =~= Seq::new(data.len(), |i: int| data[i] ^ key[i % 4]));
        }
    }
}

/// A whole message is read from the bytes of its frame. The frame begins with its operation code
/// and the bit that ends a message; the length of the payload follows, in seven, sixteen or 64 bits;
/// then the four bytes of the mask, which are taken in turn for the bytes of the payload.
#[verifier::spinoff_prover]
#[verifier::rlimit(60)]
pub proof fn law_masked_message_is_read(
    s: ParserModel,
    opcode: u8,
    form: int,
    k0: u8,
    k1: u8,
    k2: u8,
    k3: u8,
    data: Seq<u8>,
)
    requires
        s.skip == 0,
        s.buf.len() == 0,
        opcode == 1 || opcode == 2 || opcode == 8 || opcode == 9 || opcode == 10,
        form_holds(form, data.len() as int),
        data.len() <= 0x1_0000,
    ensures
        fed(
            s,
            seq![(0x80 + opcode) as u8] + length_bytes(form, data.len() as int, true) + seq![
                k0,
                k1,
                k2,
                k3,
            ] + data,
        ) == (
            s,
            seq![
                MessageModel {
                    opcode,
                    payload: Seq::new(
                        data.len(),
                        |i: int|
                            if i % 4 == 0 {
                                data[i] ^ k0
                            } else if i % 4 == 1 {
                                data[i] ^ k1
                            } else if i % 4 == 2 {
                                data[i] ^ k2
                            } else {
                                data[i] ^ k3
                            },
                    ),
                    total: data.len() as int,
                },
            ],
        ),
{
    let key = seq![k0, k1, k2, k3];
    lemma_frame_is_read(s, (0x80 + opcode) as u8, form, Some(key), data);
    assert(Seq::new(data.len(), |i: int| data[i] ^ key[i % 4]) =~= Seq::new(
        data.len(),
        |i: int|
            if i % 4 == 0 {
                data[i] ^ k0
            } else if i % 4 == 1 {
                data[i] ^ k1
            } else if i % 4 == 2 {
                data[i] ^ k2
            } else {
                data[i] ^ k3
            },
    ));
}

/// A message without a mask is read as it stands.
#[verifier::spinoff_prover]
#[verifier::rlimit(60)]
pub proof fn law_plain_message_is_read(s: ParserModel, opcode: u8, form: int, data: Seq<u8>)
    requires
        s.skip == 0,
        s.buf.len() == 0,
        opcode == 1 || opcode == 2 || opcode == 8 || opcode == 9 || opcode == 10,
        form_holds(form, data.len() as int),
        data.len() <= 0x1_0000,
    ensures
        fed(
            s,
            seq![(0x80 + opcode) as u8] + length_bytes(form, data.len() as int, false) + data,
        ) == (s, seq![MessageModel { opcode, payload: data, total: data.len() as int }]),
{
    let first = (0x80 + opcode) as u8;
    lemma_frame_is_read(s, first, form, None, data);
    let l = length_bytes(form, data.len() as int, false);
    assert(seq![first] + l + Seq::<u8>::empty() + data =~= seq![first] + l + data);
}

/// Of a message of more than 64 KiB the size alone is read. Its bytes are passed over, all of them,
/// and the reader is between frames again.
pub proof fn law_large_message_is_passed_over(s: ParserModel, opcode: u8, data: Seq<u8>)
    requires
        s.skip == 0,
        s.buf.len() == 0,
        opcode == 1 || opcode == 2,
        0x1_0000 < data.len() < 0x1_0000_0000_0000_0000,
    ensures
        fed(
            s,
            seq![(0x80 + opcode) as u8] + length_bytes(9, data.len() as int, false) + data,
        ) == (
            s,
            seq![MessageModel { opcode, payload: Seq::empty(), total: data.len() as int }],
        ),
{
    let first = (0x80 + opcode) as u8;
    lemma_frame_is_read(s, first, 9, None, data);
    let l = length_bytes(9, data.len() as int, false);
    assert(seq![first] + l + Seq::<u8>::empty() + data =~= seq![first] + l + data);
}

/// The frames of a message in two fragments are joined as they arrive: nothing is read of the first
/// alone, and with the second the message of both, under the operation code of the first. A ping
/// between them is read at once and makes no difference to it.
#[verifier::spinoff_prover]
#[verifier::rlimit(60)]
pub proof fn law_fragments_are_read_from_the_wire(
    s: ParserModel,
    opcode: u8,
    a: Seq<u8>,
    ping: Seq<u8>,
    b: Seq<u8>,
)
    requires
        s.skip == 0,
        s.buf.len() == 0,
        s.msg_payload.len() == 0,
        s.msg_total == 0,
        opcode == 1 || opcode == 2,
        a.len() < 126 && ping.len() < 126 && b.len() < 126,
    ensures
        ({
            let first = fed(s, seq![opcode, a.len() as u8] + a);
            let second = fed(first.0, seq![0x89u8, ping.len() as u8] + ping);
            let third = fed(second.0, seq![0x80u8, b.len() as u8] + b);
            &&& first.1 == Seq::<MessageModel>::empty()
            &&& second.1 == seq![
                MessageModel { opcode: 9, payload: ping, total: ping.len() as int },
            ]
            &&& third.1 == seq![
                MessageModel { opcode, payload: a + b, total: (a.len() + b.len()) as int },
            ]
            &&& third.0 == (ParserModel { msg_op: opcode, ..s })
        }),
{
    let none = Seq::<u8>::empty();
    lemma_frame_is_read(s, opcode, 1, None, a);
    assert(seq![opcode] + length_bytes(1, a.len() as int, false) + none + a =~= seq![
        opcode,
        a.len() as u8,
    ] + a);
    let first = fed(s, seq![opcode, a.len() as u8] + a);
    lemma_frame_is_read(first.0, 0x89, 1, None, ping);
    assert(seq![0x89u8] + length_bytes(1, ping.len() as int, false) + none + ping =~= seq![
        0x89u8,
        ping.len() as u8,
    ] + ping);
    let second = fed(first.0, seq![0x89u8, ping.len() as u8] + ping);
    lemma_frame_is_read(second.0, 0x80, 1, None, b);
    assert(seq![0x80u8] + length_bytes(1, b.len() as int, false) + none + b =~= seq![
        0x80u8,
        b.len() as u8,
    ] + b);
    let third = fed(second.0, seq![0x80u8, b.len() as u8] + b);
    assert(third.0 =~= (ParserModel { msg_op: opcode, ..s }));
}

/// Frames with an operation code that stands for nothing are passed over, whether they end a message
/// or not.
pub proof fn law_unknown_frames_are_passed_over(s: ParserModel, first: u8, data: Seq<u8>)
    requires
        s.skip == 0,
        s.buf.len() == 0,
        3 <= first % 16 <= 7 || 11 <= first % 16,
        data.len() < 126,
    ensures
        fed(s, seq![first, data.len() as u8] + data) == (s, Seq::<MessageModel>::empty()),
{
    lemma_frame_is_read(s, first, 1, None, data);
    let none = Seq::<u8>::empty();
    assert(seq![first] + length_bytes(1, data.len() as int, false) + none + data =~= seq![
        first,
        data.len() as u8,
    ] + data);
}

/// Nothing is read before a frame is all there: its bytes are kept until the rest comes.
pub proof fn law_incomplete_frames_are_kept(s: ParserModel, n: u8, data: Seq<u8>)
    requires
        s.skip == 0,
        s.buf.len() == 0,
        data.len() < n < 126,
    ensures
        fed(s, seq![0x81u8, n] + data) == (
            ParserModel { buf: seq![0x81u8, n] + data, ..s },
            Seq::<MessageModel>::empty(),
        ),
{
    let b = seq![0x81u8, n] + data;
    let w = with_bytes(s, b);
    assert(w.buf =~= b);
    assert(passed_over(w) =~= w);
    assert(b[0] == 0x81 && b[1] == n);
    assert(head(b) == Some(
        Head { fin: true, opcode: 1, mask: None::<Seq<u8>>, len: n as int, size: 2 },
    ));
    assert(frame(b) is None);
    assert(w =~= (ParserModel { buf: b, ..s }));
}

/// Only the highest bit of the first byte ends a message, and only its lower four bits are the
/// operation code: the three bits between them make no difference.
pub proof fn law_reserved_bits_make_no_difference(
    s: ParserModel,
    bits: u8,
    opcode: u8,
    data: Seq<u8>,
)
    requires
        s.skip == 0,
        s.buf.len() == 0,
        bits < 8,
        opcode == 1 || opcode == 2,
        data.len() < 126,
    ensures
        fed(s, seq![(128 + 16 * bits + opcode) as u8, data.len() as u8] + data) == (
            s,
            seq![MessageModel { opcode, payload: data, total: data.len() as int }],
        ),
        fed(s, seq![(16 * bits + opcode) as u8, data.len() as u8] + data) == (
            ParserModel {
                msg_op: opcode,
                msg_payload: data,
                msg_total: data.len() as int,
                ..s
            },
            Seq::<MessageModel>::empty(),
        ),
{
    let none = Seq::<u8>::empty();
    let n = data.len() as u8;
    let last = (128 + 16 * bits + opcode) as u8;
    let first = (16 * bits + opcode) as u8;
    lemma_frame_is_read(s, last, 1, None, data);
    lemma_frame_is_read(s, first, 1, None, data);
    assert(seq![last] + length_bytes(1, data.len() as int, false) + none + data =~= seq![last, n]
        + data);
    assert(seq![first] + length_bytes(1, data.len() as int, false) + none + data =~= seq![first, n]
        + data);
}

} // verus!
