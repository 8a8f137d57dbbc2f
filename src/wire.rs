//! Framing of the wire protocol.
//!
//! A frame on the wire is a LEB128 varint giving the length of the encoded
//! message, then exactly that many bytes. The `Codec` keeps the bytes read
//! from a connection and the bytes waiting to be written to it, and never
//! hands out a frame before all of its bytes are buffered.
use vstd::prelude::*;

use prost::DecodeError;
use prost::EncodeError;

verus! {

#[verifier::external_type_specification]
#[verifier::external_body]
pub struct ExDecodeError(DecodeError);

#[verifier::external_type_specification]
#[verifier::external_body]
pub struct ExEncodeError(EncodeError);

/// Most bytes that a varint length prefix may take.
pub const MAX_HEADER_LEN: usize = 10;

/// The LEB128 encoding of `n`: seven bits per byte, lowest first, the high
/// bit set on every byte but the last.
pub open spec fn varint(n: nat) -> Seq<u8>
    decreases n,
{
    if n < 128 {
        seq![n as u8]
    } else {
        seq![(n % 128 + 128) as u8] + varint(n / 128)
    }
}

/// The value of LEB128 bytes `b`.
pub open spec fn leb_value(b: Seq<u8>) -> nat
    decreases b.len(),
{
    if b.len() == 0 {
        0
    } else {
        (b[0] % 128) as nat + 128 * leb_value(b.drop_first())
    }
}

/// Length of the varint at the front of `b` when it ends within `limit`
/// bytes: the bytes up to the first one below 0x80. Where that is the
/// tenth byte, it may hold only the 64th bit of the value.
pub open spec fn header_len_within(b: Seq<u8>, limit: nat) -> Option<nat>
    decreases b.len(),
{
    if b.len() == 0 || limit == 0 {
        None
    } else if b[0] < 128 {
        if limit == 1 && b[0] >= 2 {
            None
        } else {
            Some(1)
        }
    } else {
        match header_len_within(b.drop_first(), (limit - 1) as nat) {
            Some(k) => Some(k + 1),
            None => None,
        }
    }
}

/// Length of the length prefix at the front of `b`, if a whole one is there.
pub open spec fn header_len(b: Seq<u8>) -> Option<nat> {
    header_len_within(b, MAX_HEADER_LEN as nat)
}

/// `b` may still grow into a length prefix: fewer than ten bytes, each with
/// its high bit set.
pub open spec fn header_incomplete(b: Seq<u8>) -> bool {
    b.len() < MAX_HEADER_LEN && forall|i: int| 0 <= i < b.len() ==> b[i] >= 128
}

/// The buffered bytes can never start a frame.
pub open spec fn header_malformed(b: Seq<u8>) -> bool {
    match header_len(b) {
        Some(k) => leb_value(b.take(k as int)) > usize::MAX,
        None => !header_incomplete(b),
    }
}

/// The body of the first frame of `b` and what follows it, once all of the
/// frame is there.
pub open spec fn split_frame(b: Seq<u8>) -> Option<(Seq<u8>, Seq<u8>)> {
    match header_len(b) {
        Some(k) => {
            let n = leb_value(b.take(k as int));
            if n <= usize::MAX && k + n <= b.len() {
                Some((b.subrange(k as int, (k + n) as int), b.skip((k + n) as int)))
            } else {
                None
            }
        },
        None => None,
    }
}

/// The bytes of the frame that carries `body`.
pub open spec fn frame_bytes(body: Seq<u8>) -> Seq<u8> {
    varint(body.len()) + body
}

/// Relies on `prost::encode_length_delimiter` on a `Vec<u8>`: it appends
/// the varint of `length`, and fails, writing nothing, where the vector's
/// remaining room (`isize::MAX` less its length) is smaller than that.
#[verifier::external_body]
fn encode_length_delimiter(length: usize, buf: &mut Vec<u8>) -> (r: Result<(), EncodeError>)
    ensures
        r is Ok <==> varint(length as nat).len() <= isize::MAX - old(buf)@.len(),
        r is Ok ==> final(buf)@ == old(buf)@ + varint(length as nat),
        r is Err ==> final(buf)@ == old(buf)@,
{
    prost::encode_length_delimiter(length, buf)
}

/// Relies on `prost::decode_length_delimiter` on a byte slice, which it
/// advances past the varint: gives the value and how many bytes follow.
#[verifier::external_body]
fn decode_length_delimiter(buf: &[u8]) -> (r: Result<(usize, usize), DecodeError>)
    ensures
        match r {
            Ok((value, rest)) => {
                &&& header_len(buf@) is Some
                &&& rest == buf@.len() - header_len(buf@)->0
                &&& value == leb_value(buf@.take(header_len(buf@)->0 as int))
            },
            Err(_) => header_len(buf@) is None || leb_value(
                buf@.take(header_len(buf@)->0 as int),
            ) > usize::MAX,
        },
{
    let mut rest: &[u8] = buf;
    match prost::decode_length_delimiter(&mut rest) {
        Ok(value) => Ok((value, rest.len())),
        Err(e) => Err(e),
    }
}

/// Largest value whose varint fits within `limit` bytes under the rule
/// on the tenth byte.
pub open spec fn varint_bound(limit: nat) -> nat
    decreases limit,
{
    if limit <= 1 {
        2
    } else {
        128 * varint_bound((limit - 1) as nat)
    }
}

proof fn lemma_varint_header(n: nat, rest: Seq<u8>, limit: nat)
    requires
        1 <= limit,
        n < varint_bound(limit),
    ensures
        header_len_within(varint(n) + rest, limit) == Some(varint(n).len()),
        leb_value(varint(n)) == n,
        1 <= varint(n).len() <= limit,
        forall|i: int| 0 <= i < varint(n).len() - 1 ==> varint(n)[i] >= 128,
    decreases n,
{
    let b = varint(n) + rest;
    if n < 128 {
        assert(b[0] == n as u8);
        assert(varint(n).drop_first() =~= Seq::<u8>::empty());
        assert(leb_value(Seq::<u8>::empty()) == 0);
        assert(leb_value(varint(n)) == (varint(n)[0] % 128) as nat + 128 * leb_value(
            varint(n).drop_first(),
        ));
    } else {
        assert(limit >= 2);
        let m = n / 128;
        lemma_varint_header(m, rest, (limit - 1) as nat);
        assert(b.drop_first() =~= varint(m) + rest);
        assert(varint(n).drop_first() =~= varint(m));
        assert(b[0] >= 128);
        assert(leb_value(varint(n)) == (varint(n)[0] % 128) as nat + 128 * leb_value(varint(m)));
        assert(n == n % 128 + 128 * m);
        assert forall|i: int| 0 <= i < varint(n).len() - 1 implies varint(n)[i] >= 128 by {
            if i > 0 {
                assert(varint(n)[i] == varint(m)[i - 1]);
            }
        }
    }
}

proof fn lemma_header_props(b: Seq<u8>, limit: nat)
    requires
        header_len_within(b, limit) is Some,
    ensures
        ({
            let k = header_len_within(b, limit)->0;
            &&& 1 <= k <= limit
            &&& k <= b.len()
            &&& b[k - 1] < 128
            &&& forall|i: int| 0 <= i < k - 1 ==> b[i] >= 128
        }),
    decreases b.len(),
{
    if b[0] >= 128 {
        lemma_header_props(b.drop_first(), (limit - 1) as nat);
        let k = header_len_within(b, limit)->0;
        assert forall|i: int| 0 <= i < k - 1 implies b[i] >= 128 by {
            if i > 0 {
                assert(b[i] == b.drop_first()[i - 1]);
            }
        }
    }
}

proof fn lemma_no_header_while_high(b: Seq<u8>, limit: nat)
    requires
        forall|i: int| 0 <= i < b.len() ==> b[i] >= 128,
    ensures
        header_len_within(b, limit) is None,
    decreases b.len(),
{
    if b.len() > 0 && limit > 0 {
        lemma_no_header_while_high(b.drop_first(), (limit - 1) as nat);
    }
}

proof fn lemma_bound_ten()
    ensures
        varint_bound(MAX_HEADER_LEN as nat) == 0x1_0000_0000_0000_0000,
{
    reveal_with_fuel(varint_bound, 10);
}

/// Framing round trip: the bytes of the frame that carries `body`, whatever
/// follows them, split back into `body` and what follows.
pub proof fn lemma_frame_round_trip(body: Seq<u8>, rest: Seq<u8>)
    requires
        body.len() <= usize::MAX,
    ensures
        !header_malformed(frame_bytes(body) + rest),
        split_frame(frame_bytes(body) + rest) == Some((body, rest)),
{
    lemma_bound_ten();
    let n = body.len();
    let b = frame_bytes(body) + rest;
    lemma_varint_header(n, body + rest, MAX_HEADER_LEN as nat);
    assert(b =~= varint(n) + (body + rest));
    let k = varint(n).len();
    assert(b.take(k as int) =~= varint(n));
    assert(b.subrange(k as int, (k + n) as int) =~= body);
    assert(b.skip((k + n) as int) =~= rest);
}

/// Partial reads: while only part of a frame has arrived, in whatever
/// chunks, the buffered bytes are neither malformed nor a whole frame, so
/// a poll waits; once the last byte is there the frame comes out whole.
pub proof fn lemma_partial_frame_waits(body: Seq<u8>, received: nat)
    requires
        body.len() <= usize::MAX,
        received < frame_bytes(body).len(),
    ensures
        !header_malformed(frame_bytes(body).take(received as int)),
        split_frame(frame_bytes(body).take(received as int)) is None,
        split_frame(frame_bytes(body)) == Some((body, Seq::<u8>::empty())),
{
    lemma_bound_ten();
    let n = body.len();
    let full = frame_bytes(body);
    let p = full.take(received as int);
    lemma_varint_header(n, Seq::<u8>::empty(), MAX_HEADER_LEN as nat);
    let k = varint(n).len();
    if received < k {
        assert forall|i: int| 0 <= i < p.len() implies p[i] >= 128 by {
            assert(p[i] == varint(n)[i]);
        }
        lemma_no_header_while_high(p, MAX_HEADER_LEN as nat);
    } else {
        let part = body.take(received - k);
        lemma_varint_header(n, part, MAX_HEADER_LEN as nat);
        assert(p =~= varint(n) + part);
        assert(p.take(k as int) =~= varint(n));
    }
    lemma_frame_round_trip(body, Seq::<u8>::empty());
    assert(full + Seq::<u8>::empty() =~= full);
}

/// Why the codec could not go on.
#[derive(Clone, Copy, Debug, PartialEq, Eq, Structural)]
pub enum CodecError {
    /// The buffered bytes cannot start a frame.
    MalformedLength,
    /// The outbound buffer has no room left for the frame.
    OutputOverflow,
}

/// What a poll of the read side yields.
#[derive(Clone, Debug, PartialEq, Eq)]
pub enum FramePoll {
    /// The body of the next frame; `more` tells whether another whole frame
    /// is already buffered, so that the caller polls again at once.
    Frame { body: Vec<u8>, more: bool },
    /// No whole frame is buffered yet.
    Pending,
    /// The peer closed its side and no whole frame is left.
    End,
}

/// The buffers of one connection.
pub struct Codec {
    input_buffer: Vec<u8>,
    output_buffer: Vec<u8>,
    input_message_size: Option<usize>,
    input_header_len: usize,
    input_closed: bool,
}

impl Codec {
    /// Bytes read and not yet handed out as frames.
    pub closed spec fn input(&self) -> Seq<u8> {
        self.input_buffer@
    }

    /// Bytes waiting to be written.
    pub closed spec fn output(&self) -> Seq<u8> {
        self.output_buffer@
    }

    /// Whether the peer has closed its side.
    pub closed spec fn closed(&self) -> bool {
        self.input_closed
    }

    /// A known message size is the one that the buffered prefix gives.
    pub closed spec fn wf(&self) -> bool {
        match self.input_message_size {
            Some(size) => {
                &&& header_len(self.input_buffer@) == Some(self.input_header_len as nat)
                &&& leb_value(self.input_buffer@.take(self.input_header_len as int)) == size
            },
            None => true,
        }
    }

    /// Empty buffers on an open connection.
    pub fn new() -> (r: Codec)
        ensures
            r.wf(),
            r.input() == Seq::<u8>::empty(),
            r.output() == Seq::<u8>::empty(),
            !r.closed(),
    {
        Codec {
            input_buffer: Vec::new(),
            output_buffer: Vec::new(),
            input_message_size: None,
            input_header_len: 0,
            input_closed: false,
        }
    }

    /// Appends the frame that carries `body` to the bytes waiting to be
    /// written; fails, appending nothing, where the buffer has no room for
    /// the length prefix.
    pub fn buffer(&mut self, body: &[u8]) -> (r: Result<(), CodecError>)
        requires
            old(self).wf(),
        ensures
            final(self).wf(),
            final(self).input() == old(self).input(),
            final(self).closed() == old(self).closed(),
            r is Ok <==> varint(body@.len()).len() <= isize::MAX - old(self).output().len(),
            r is Ok ==> final(self).output() == old(self).output() + frame_bytes(body@),
            r is Err ==> r == Err::<(), CodecError>(CodecError::OutputOverflow) && final(self).output()
                == old(self).output(),
    {
        match encode_length_delimiter(body.len(), &mut self.output_buffer) {
            Ok(()) => {},
            Err(_) => {
                return Err(CodecError::OutputOverflow);
            },
        }
        let ghost start = self.output_buffer@;
        let mut i: usize = 0;
        while i < body.len()
            invariant
                i <= body@.len(),
                self.output_buffer@ == start + body@.take(i as int),
                self.input_buffer@ == old(self).input_buffer@,
                self.input_message_size == old(self).input_message_size,
                self.input_header_len == old(self).input_header_len,
                self.input_closed == old(self).input_closed,
            decreases body@.len() - i,
        {
            self.output_buffer.push(body[i]);
            i = i + 1;
            assert(self.output_buffer@ =~= start + body@.take(i as int));
        }
        assert(body@.take(body@.len() as int) =~= body@);
        Ok(())
    }

    /// The bytes waiting to be written, oldest first.
    pub fn output_bytes(&self) -> (r: &[u8])
        ensures
            r@ == self.output(),
    {
        self.output_buffer.as_slice()
    }

    /// Whether nothing waits to be written.
    pub fn output_is_empty(&self) -> (r: bool)
        ensures
            r == (self.output().len() == 0),
    {
        self.output_buffer.len() == 0
    }

    /// Forgets the first `n` waiting bytes, once they are written.
    pub fn consume_output(&mut self, n: usize)
        requires
            old(self).wf(),
            n <= old(self).output().len(),
        ensures
            final(self).wf(),
            final(self).output() == old(self).output().skip(n as int),
            final(self).input() == old(self).input(),
            final(self).closed() == old(self).closed(),
    {
        let rest = self.output_buffer.split_off(n);
        self.output_buffer = rest;
    }

    /// Appends bytes read from the connection.
    pub fn fill(&mut self, data: &[u8])
        requires
            old(self).wf(),
        ensures
            final(self).wf(),
            final(self).input() == old(self).input() + data@,
            final(self).output() == old(self).output(),
            final(self).closed() == old(self).closed(),
    {
        let ghost start = self.input_buffer@;
        let mut i: usize = 0;
        while i < data.len()
            invariant
                i <= data@.len(),
                self.input_buffer@ == start + data@.take(i as int),
                self.output_buffer@ == old(self).output_buffer@,
                self.input_message_size == old(self).input_message_size,
                self.input_header_len == old(self).input_header_len,
                self.input_closed == old(self).input_closed,
            decreases data@.len() - i,
        {
            self.input_buffer.push(data[i]);
            i = i + 1;
            assert(self.input_buffer@ =~= start + data@.take(i as int));
        }
        assert(data@.take(data@.len() as int) =~= data@);
        proof {
            if let Some(size) = self.input_message_size {
                let k = self.input_header_len as nat;
                lemma_header_props(start, MAX_HEADER_LEN as nat);
                lemma_header_extends(start, data@, MAX_HEADER_LEN as nat);
                assert(self.input_buffer@.take(k as int) =~= start.take(k as int));
            }
        }
    }

    /// Records that the peer closed its side.
    pub fn close_input(&mut self)
        requires
            old(self).wf(),
        ensures
            final(self).wf(),
            final(self).closed(),
            final(self).input() == old(self).input(),
            final(self).output() == old(self).output(),
    {
        self.input_closed = true;
    }

    /// Whether a whole frame is buffered.
    fn complete_frame_buffered(&self) -> (r: bool)
        ensures
            r == (split_frame(self.input()) is Some),
    {
        match decode_length_delimiter(self.input_buffer.as_slice()) {
            Ok((size, rest)) => size <= rest,
            Err(_) => false,
        }
    }

    /// Hands out the next frame once all of its bytes are buffered.
    pub fn poll(&mut self) -> (r: Result<FramePoll, CodecError>)
        requires
            old(self).wf(),
        ensures
            final(self).wf(),
            final(self).output() == old(self).output(),
            final(self).closed() == old(self).closed(),
            r is Err <==> header_malformed(old(self).input()),
            match r {
                Err(e) => e == CodecError::MalformedLength && final(self).input() == old(self).input(),
                Ok(FramePoll::Frame { body, more }) => {
                    &&& split_frame(old(self).input()) == Some((body@, final(self).input()))
                    &&& more == (split_frame(final(self).input()) is Some)
                },
                Ok(FramePoll::Pending) => {
                    &&& split_frame(old(self).input()) is None
                    &&& !old(self).closed()
                    &&& final(self).input() == old(self).input()
                },
                Ok(FramePoll::End) => {
                    &&& split_frame(old(self).input()) is None
                    &&& old(self).closed()
                    &&& final(self).input() == old(self).input()
                },
            },
    {
        proof {
            if let Some(k) = header_len(self.input_buffer@) {
                lemma_header_props(self.input_buffer@, MAX_HEADER_LEN as nat);
            }
        }
        if self.input_message_size.is_none() {
            match decode_length_delimiter(self.input_buffer.as_slice()) {
                Ok((size, rest)) => {
                    self.input_message_size = Some(size);
                    self.input_header_len = self.input_buffer.len() - rest;
                },
                Err(_) => {
                    if !header_may_grow(self.input_buffer.as_slice()) {
                        return Err(CodecError::MalformedLength);
                    }
                },
            }
        }
        if let Some(size) = self.input_message_size {
            let k = self.input_header_len;
            if size <= self.input_buffer.len() - k {
                let rest = self.input_buffer.split_off(k + size);
                let mut frame = Vec::new();
                std::mem::swap(&mut frame, &mut self.input_buffer);
                self.input_buffer = rest;
                let body = frame.split_off(k);
                self.input_message_size = None;
                let more = self.complete_frame_buffered();
                return Ok(FramePoll::Frame { body, more });
            }
        }
        if self.input_closed {
            Ok(FramePoll::End)
        } else {
            Ok(FramePoll::Pending)
        }
    }
}

/// Whether `b` may still grow into a length prefix.
fn header_may_grow(b: &[u8]) -> (r: bool)
    ensures
        r == header_incomplete(b@),
{
    if b.len() >= MAX_HEADER_LEN {
        return false;
    }
    let mut i: usize = 0;
    while i < b.len()
        invariant
            i <= b@.len(),
            forall|j: int| 0 <= j < i ==> b@[j] >= 128,
        decreases b@.len() - i,
    {
        if b[i] < 128 {
            return false;
        }
        i = i + 1;
    }
    true
}

/// A whole frame takes at least the byte of its length prefix.
pub proof fn lemma_header_len_positive(b: Seq<u8>)
    requires
        split_frame(b) is Some,
    ensures
        (split_frame(b)->0).1.len() < b.len(),
{
    lemma_header_props(b, MAX_HEADER_LEN as nat);
}

/// Malformed bytes hold no whole frame.
pub proof fn lemma_malformed_has_no_frame(b: Seq<u8>)
    requires
        header_malformed(b),
    ensures
        split_frame(b) is None,
{
}

proof fn lemma_header_extends(b: Seq<u8>, more: Seq<u8>, limit: nat)
    requires
        header_len_within(b, limit) is Some,
    ensures
        header_len_within(b + more, limit) == header_len_within(b, limit),
    decreases b.len(),
{
    let c = b + more;
    assert(c[0] == b[0]);
    if b[0] >= 128 {
        assert(c.drop_first() =~= b.drop_first() + more);
        lemma_header_extends(b.drop_first(), more, (limit - 1) as nat);
    }
}

} // verus!
