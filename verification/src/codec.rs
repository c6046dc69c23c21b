//! Length-delimited framing with one fixed payload size.

use bytes::BytesMut;
use tokio_util::codec::{Decoder, Encoder, LengthDelimitedCodec};
use vstd::prelude::*;

use crate::buffer::{as_bytes, bytes_of};
use crate::config::NodeConfig;
use crate::error::{io_kind, kind_of_io, IoKind};
use crate::text::{decimal, decimal_text, joined};

verus! {

/// `tokio_util::codec::LengthDelimitedCodec`, which cuts a byte stream into
/// frames by the length that stands before each of them.
#[verifier::external_type_specification]
#[verifier::external_body]
pub struct ExLengthDelimitedCodec(LengthDelimitedCodec);

/// How a length-delimited codec is set up, and where in the stream it stands.
pub struct Framing {
    /// Whether the length before a frame is four bytes wide, in big-endian
    /// order, and counts the payload alone.
    pub four_byte_prefix: bool,
    /// The largest payload that passes.
    pub limit: nat,
    /// The length of the payload that comes next, once its prefix has been
    /// read.
    pub awaiting: Option<nat>,
}

/// How a length-delimited codec is set up, and where in the stream it stands.
pub uninterp spec fn framing_of(delimiter: LengthDelimitedCodec) -> Framing;

/// The four big-endian bytes of a length.
pub open spec fn length_prefix(n: nat) -> Seq<u8> {
    seq![
        (n / 0x100_0000 % 0x100) as u8,
        (n / 0x1_0000 % 0x100) as u8,
        (n / 0x100 % 0x100) as u8,
        (n % 0x100) as u8,
    ]
}

/// A payload as it stands on the wire.
pub open spec fn on_the_wire(payload: Seq<u8>) -> Seq<u8> {
    length_prefix(payload.len()) + payload
}

/// The length that four big-endian bytes spell.
pub open spec fn prefixed_length(s: Seq<u8>) -> nat {
    (s[0] * 0x100_0000 + s[1] * 0x1_0000 + s[2] * 0x100 + s[3]) as nat
}

/// What a step of decoding comes to.
pub enum Step {
    /// The length before the next frame exceeds the limit.
    TooLarge,
    /// More bytes are needed.
    Incomplete,
    /// A whole payload.
    Payload(Seq<u8>),
}

/// A step of decoding: what it comes to, and what it leaves behind.
pub struct Decoded {
    /// What the step comes to.
    pub step: Step,
    /// The codec afterwards.
    pub framing: Framing,
    /// The bytes that are left in the stream.
    pub rest: Seq<u8>,
}

/// Takes a payload of length `n` off the front of `input`, if it is all there.
pub open spec fn take_payload(framing: Framing, n: nat, input: Seq<u8>) -> Decoded {
    if input.len() < n {
        Decoded {
            step: Step::Incomplete,
            framing: Framing { awaiting: Some(n), ..framing },
            rest: input,
        }
    } else {
        Decoded {
            step: Step::Payload(input.take(n as int)),
            framing: Framing { awaiting: None, ..framing },
            rest: input.skip(n as int),
        }
    }
}

/// One step of decoding: reads the length of the next frame, unless that has
/// been done, and then its payload.
pub open spec fn decode_step(framing: Framing, input: Seq<u8>) -> Decoded {
    match framing.awaiting {
        Some(n) => take_payload(framing, n, input),
        None => if input.len() < 4 {
            Decoded { step: Step::Incomplete, framing, rest: input }
        } else if prefixed_length(input.take(4)) > framing.limit {
            Decoded { step: Step::TooLarge, framing, rest: input }
        } else {
            take_payload(framing, prefixed_length(input.take(4)), input.skip(4))
        },
    }
}

/// The smaller of `max_frame_size` and the largest length that four bytes hold.
pub open spec fn effective_limit(max_frame_size: usize) -> nat {
    if max_frame_size <= u32::MAX {
        max_frame_size as nat
    } else {
        u32::MAX as nat
    }
}

/// Makes a length-delimited codec with a four-byte big-endian length.
///
/// Calls `LengthDelimitedCodec::builder`, `Builder::max_frame_length`,
/// `length_field_length`, `big_endian` and `new_codec`. Trusted: the codec
/// stands before a length, and its limit is the given one, clipped to what four
/// bytes can say.
#[verifier::external_body]
fn new_delimiter(max_frame_size: usize) -> (delimiter: LengthDelimitedCodec)
    ensures
        framing_of(delimiter) == (Framing {
            four_byte_prefix: true,
            limit: effective_limit(max_frame_size),
            awaiting: None,
        }),
{
    LengthDelimitedCodec::builder()
        .max_frame_length(max_frame_size)
        .length_field_length(4)
        .big_endian()
        .new_codec()
}

/// Takes the next frame off the front of a buffer.
///
/// Calls `<LengthDelimitedCodec as Decoder>::decode`. Trusted: a length is read
/// as soon as its four bytes are there; one above the limit is an error, of kind
/// invalid data, that leaves the buffer and the codec as they were; otherwise its bytes leave the
/// buffer, and so does the payload once it is there in full. The call reserves
/// room for the payload to come, which panics where that exceeds what a buffer
/// can address; the bound on the limit leaves that out.
#[verifier::external_body]
fn delimiter_decode(delimiter: &mut LengthDelimitedCodec, src: &mut BytesMut) -> (result: Result<
    Option<BytesMut>,
    std::io::Error,
>)
    requires
        framing_of(*old(delimiter)).four_byte_prefix,
        framing_of(*old(delimiter)).limit <= isize::MAX,
    ensures
        ({
            let decoded = decode_step(framing_of(*old(delimiter)), bytes_of(*old(src)));
            &&& framing_of(*final(delimiter)) == decoded.framing
            &&& bytes_of(*final(src)) == decoded.rest
            &&& match decoded.step {
                Step::TooLarge => result matches Err(error) && io_kind(error)
                    == IoKind::InvalidData,
                Step::Incomplete => result matches Ok(None),
                Step::Payload(payload) => result matches Ok(Some(frame)) && bytes_of(frame)
                    == payload,
            }
        }),
{
    delimiter.decode(src)
}

/// Appends a frame to a buffer, with its length before it.
///
/// Calls `BytesMut::freeze` and `<LengthDelimitedCodec as Encoder<Bytes>>::encode`.
/// Trusted: an item above the limit is an error, of kind invalid input, that
/// leaves the buffer as it was; any other is appended after the four bytes of its length; the codec does
/// not change. The call panics where the buffer would grow beyond what can be
/// addressed; the bound on the sizes leaves that out.
#[verifier::external_body]
fn delimiter_encode(
    delimiter: &mut LengthDelimitedCodec,
    item: BytesMut,
    dst: &mut BytesMut,
) -> (result: Result<(), std::io::Error>)
    requires
        framing_of(*old(delimiter)).four_byte_prefix,
        bytes_of(*old(dst)).len() + 4 + bytes_of(item).len() <= isize::MAX,
    ensures
        framing_of(*final(delimiter)) == framing_of(*old(delimiter)),
        (match result {
            Ok(_) => bytes_of(item).len() <= framing_of(*old(delimiter)).limit,
            Err(error) => {
                &&& bytes_of(item).len() > framing_of(*old(delimiter)).limit
                &&& io_kind(error) == IoKind::InvalidInput
            },
        }),
        bytes_of(*final(dst)) == if result is Err {
            bytes_of(*old(dst))
        } else {
            bytes_of(*old(dst)) + on_the_wire(bytes_of(item))
        },
{
    delimiter.encode(item.freeze(), dst)
}

/// Why a frame cannot be read or written.
#[derive(Debug)]
pub enum CodecError {
    /// The length of a frame exceeds the limit; the codec underneath says so.
    Oversized(std::io::Error),
    /// A frame came in whose payload does not have the one size that is
    /// expected.
    UnexpectedFrame {
        /// The size of the payload.
        got: usize,
        /// The size that is expected.
        want: usize,
    },
    /// A frame was to go out whose payload does not have the one size that is
    /// expected.
    UnexpectedItem {
        /// The size of the payload.
        got: usize,
        /// The size that is expected.
        want: usize,
    },
}

impl CodecError {
    /// The kind of I/O error that this is: a bad frame that came in is invalid
    /// data, a bad one that was to go out is invalid input, and the codec
    /// underneath says the kind of its own errors.
    pub open spec fn spec_kind(&self) -> IoKind {
        match *self {
            CodecError::Oversized(error) => io_kind(error),
            CodecError::UnexpectedFrame { .. } => IoKind::InvalidData,
            CodecError::UnexpectedItem { .. } => IoKind::InvalidInput,
        }
    }

    /// Returns the kind of I/O error that this is.
    pub fn kind(&self) -> (kind: IoKind)
        ensures
            kind == self.spec_kind(),
            match *self {
                CodecError::Oversized(error) => kind == io_kind(error),
                CodecError::UnexpectedFrame { .. } => kind == IoKind::InvalidData,
                CodecError::UnexpectedItem { .. } => kind == IoKind::InvalidInput,
            },
    {
        match self {
            CodecError::Oversized(error) => kind_of_io(error),
            CodecError::UnexpectedFrame { .. } => IoKind::InvalidData,
            CodecError::UnexpectedItem { .. } => IoKind::InvalidInput,
        }
    }
}

/// The text of an error about the size of a frame.
pub open spec fn size_error_text(got: usize, want: usize) -> Seq<char> {
    "unexpected gossip frame size: got "@ + decimal(got as nat) + ", want "@ + decimal(
        want as nat,
    )
}

/// Both sizes stand in the text of an error about them, as they are.
pub proof fn size_errors_are_told_in_full(got: usize, want: usize)
    ensures
        size_error_text(got, want) == "unexpected gossip frame size: got "@ + decimal(got as nat)
            + ", want "@ + decimal(want as nat),
{
}

/// The text of an error about the size of a frame.
pub fn size_error(got: usize, want: usize) -> (text: String)
    ensures
        text@ == size_error_text(got, want),
        text@ == "unexpected gossip frame size: got "@ + decimal(got as nat) + ", want "@ + decimal(
            want as nat,
        ),
{
    joined(
        "unexpected gossip frame size: got ",
        decimal_text(got).as_str(),
        ", want ",
        decimal_text(want).as_str(),
    )
}

/// A codec that holds every frame on the wire to a single, fixed size, whatever
/// the payload.
///
/// A frame on the wire is a four-byte big-endian length, which is always the
/// expected size, and then exactly that many bytes of payload.
pub struct Codec {
    inner: LengthDelimitedCodec,
    expected_size: usize,
}

impl Codec {
    /// The codec underneath.
    pub closed spec fn framing(&self) -> Framing {
        framing_of(self.inner)
    }

    /// The one payload size that passes.
    pub closed spec fn expected_size(&self) -> usize {
        self.expected_size
    }

    /// Lengths are four bytes wide, and no frame can pass that a buffer could
    /// not hold.
    pub open spec fn wf(&self) -> bool {
        &&& self.framing().four_byte_prefix
        &&& self.framing().limit <= isize::MAX
        &&& self.framing().limit <= u32::MAX
    }

    /// Creates a codec that accepts frames of exactly `expected_size` payload
    /// bytes and rejects any frame larger than `max_frame_size` bytes.
    pub fn new(expected_size: usize, max_frame_size: usize) -> (codec: Self)
        requires
            effective_limit(max_frame_size) <= isize::MAX,
        ensures
            codec.wf(),
            codec.expected_size() == expected_size,
            codec.framing() == (Framing {
                four_byte_prefix: true,
                limit: effective_limit(max_frame_size),
                awaiting: None,
            }),
            max_frame_size <= u32::MAX ==> codec.framing().limit == max_frame_size,
            max_frame_size > u32::MAX ==> codec.framing().limit == u32::MAX,
    {
        Codec { inner: new_delimiter(max_frame_size), expected_size }
    }

    /// Takes the next frame off the front of `src`.
    ///
    /// Returns `None` while the frame is not there in full. A length above the
    /// limit is an error, and so is a payload of any but the expected size; either
    /// is one of invalid data.
    pub fn decode(&mut self, src: &mut BytesMut) -> (result: Result<Option<BytesMut>, CodecError>)
        requires
            old(self).wf(),
        ensures
            final(self).wf(),
            final(self).expected_size() == old(self).expected_size(),
            result matches Err(error) ==> error.spec_kind() == IoKind::InvalidData,
            ({
                let decoded = decode_step(old(self).framing(), bytes_of(*old(src)));
                &&& final(self).framing() == decoded.framing
                &&& bytes_of(*final(src)) == decoded.rest
                &&& match decoded.step {
                    Step::TooLarge => {
                        &&& result matches Err(CodecError::Oversized(error))
                        &&& io_kind(error) == IoKind::InvalidData
                    },
                    Step::Incomplete => result matches Ok(None),
                    Step::Payload(payload) => if payload.len() == old(self).expected_size() {
                        result matches Ok(Some(frame)) && bytes_of(frame) == payload
                    } else {
                        result matches Err(CodecError::UnexpectedFrame { got, want }) && got
                            == payload.len() && want == old(self).expected_size()
                    },
                }
            }),
    {
        match delimiter_decode(&mut self.inner, src) {
            Ok(Some(frame)) => {
                let got: usize = as_bytes(&frame).len();
                if got != self.expected_size {
                    return Err(CodecError::UnexpectedFrame { got, want: self.expected_size });
                }
                Ok(Some(frame))
            },
            Ok(None) => Ok(None),
            Err(error) => Err(CodecError::Oversized(error)),
        }
    }

    /// Appends `item` to `dst` as one frame.
    ///
    /// An item of any but the expected size is an error, and so is one above the
    /// limit; either is one of invalid input, and `dst` stays as it was.
    pub fn encode(&mut self, item: BytesMut, dst: &mut BytesMut) -> (result: Result<(), CodecError>)
        requires
            old(self).wf(),
            bytes_of(*old(dst)).len() + 4 + bytes_of(item).len() <= isize::MAX,
        ensures
            final(self).wf(),
            final(self).expected_size() == old(self).expected_size(),
            final(self).framing() == old(self).framing(),
            result matches Err(error) ==> error.spec_kind() == IoKind::InvalidInput,
            ({
                let size = bytes_of(item).len();
                if size != old(self).expected_size() {
                    &&& result matches Err(CodecError::UnexpectedItem { got, want })
                    &&& got == size
                    &&& want == old(self).expected_size()
                    &&& bytes_of(*final(dst)) == bytes_of(*old(dst))
                } else if size > old(self).framing().limit {
                    &&& result matches Err(CodecError::Oversized(error))
                    &&& io_kind(error) == IoKind::InvalidInput
                    &&& bytes_of(*final(dst)) == bytes_of(*old(dst))
                } else {
                    &&& result is Ok
                    &&& bytes_of(*final(dst)) == bytes_of(*old(dst)) + on_the_wire(bytes_of(item))
                }
            }),
    {
        let got: usize = as_bytes(&item).len();
        if got != self.expected_size {
            return Err(CodecError::UnexpectedItem { got, want: self.expected_size });
        }
        match delimiter_encode(&mut self.inner, item, dst) {
            Ok(()) => Ok(()),
            Err(error) => Err(CodecError::Oversized(error)),
        }
    }
}

/// Payloads on the wire, one after the other.
pub open spec fn stream(payloads: Seq<Seq<u8>>) -> Seq<u8>
    decreases payloads.len(),
{
    if payloads.len() == 0 {
        Seq::empty()
    } else {
        on_the_wire(payloads[0]) + stream(payloads.drop_first())
    }
}

/// Reading a length gives back what was written, for every length that four
/// bytes hold.
pub proof fn length_survives_the_wire(n: nat)
    requires
        n <= u32::MAX,
    ensures
        length_prefix(n).len() == 4,
        prefixed_length(length_prefix(n)) == n,
{
}

/// Decoding gives back the payload that was encoded, and leaves what comes
/// after it.
pub proof fn payload_survives_the_wire(framing: Framing, payload: Seq<u8>, after: Seq<u8>)
    requires
        framing.awaiting is None,
        framing.limit <= u32::MAX,
        payload.len() <= framing.limit,
    ensures
        decode_step(framing, on_the_wire(payload) + after) == (Decoded {
            step: Step::Payload(payload),
            framing,
            rest: after,
        }),
{
    let input = on_the_wire(payload) + after;
    length_survives_the_wire(payload.len());
    assert(input.take(4) =~= length_prefix(payload.len()));
    assert(input.skip(4) =~= payload + after);
    assert((payload + after).take(payload.len() as int) =~= payload);
    assert((payload + after).skip(payload.len() as int) =~= after);
}

/// Payloads that were encoded one after the other are decoded in the same
/// order, one per step.
pub proof fn stream_is_decoded_in_order(framing: Framing, payloads: Seq<Seq<u8>>)
    requires
        framing.awaiting is None,
        framing.limit <= u32::MAX,
        payloads.len() > 0,
        payloads[0].len() <= framing.limit,
    ensures
        decode_step(framing, stream(payloads)) == (Decoded {
            step: Step::Payload(payloads[0]),
            framing,
            rest: stream(payloads.drop_first()),
        }),
{
    payload_survives_the_wire(framing, payloads[0], stream(payloads.drop_first()));
}

/// It does not matter in which pieces the bytes of a frame arrive: where a
/// first piece is not enough, going on with a second one comes to the same as
/// both at once.
pub proof fn chunks_do_not_matter(framing: Framing, head: Seq<u8>, tail: Seq<u8>)
    requires
        decode_step(framing, head).step is Incomplete,
    ensures
        decode_step(
            decode_step(framing, head).framing,
            decode_step(framing, head).rest + tail,
        ) == decode_step(framing, head + tail),
{
    if framing.awaiting is None && head.len() >= 4 {
        assert((head + tail).take(4) =~= head.take(4));
        assert((head + tail).skip(4) =~= head.skip(4) + tail);
    }
}

/// A payload comes out only if the length before it is its size; so a length
/// other than the expected size never leads to a frame.
pub proof fn length_is_binding(framing: Framing, input: Seq<u8>)
    requires
        framing.awaiting is None,
        decode_step(framing, input).step is Payload,
    ensures
        decode_step(framing, input).step->Payload_0.len() == prefixed_length(input.take(4)),
        decode_step(framing, input).step->Payload_0.len() <= framing.limit,
{
}

/// All payloads of one size look alike on the wire but for the payload itself:
/// they take the same number of bytes and start with the same length.
pub proof fn frames_have_one_size(a: Seq<u8>, b: Seq<u8>)
    requires
        a.len() == b.len(),
    ensures
        on_the_wire(a).len() == 4 + a.len(),
        on_the_wire(a).len() == on_the_wire(b).len(),
        on_the_wire(a).take(4) == on_the_wire(b).take(4),
{
    assert(on_the_wire(a).take(4) =~= length_prefix(a.len()));
    assert(on_the_wire(b).take(4) =~= length_prefix(b.len()));
}

/// The limit of a codec is the one that was asked for, unless four bytes cannot tell
/// it.
pub proof fn the_limit_is_the_one_asked_for(max_frame_size: usize)
    ensures
        effective_limit(max_frame_size) <= max_frame_size,
        max_frame_size <= u32::MAX ==> effective_limit(max_frame_size) == max_frame_size,
        max_frame_size > u32::MAX ==> effective_limit(max_frame_size) == u32::MAX,
{
}

/// A length is told by four bytes in one way only, and any four bytes tell one.
pub proof fn four_bytes_tell_one_length(s: Seq<u8>)
    requires
        s.len() == 4,
    ensures
        prefixed_length(s) <= u32::MAX,
        length_prefix(prefixed_length(s)) == s,
{
    assert(length_prefix(prefixed_length(s)) =~= s);
}

/// A length above the limit is refused as soon as it is there, whatever follows, and
/// the stream stays as it was; one within the limit is not.
pub proof fn the_limit_is_kept(framing: Framing, input: Seq<u8>)
    requires
        framing.awaiting is None,
    ensures
        decode_step(framing, input).step is TooLarge <==> input.len() >= 4 && input[0] * 0x100_0000
            + input[1] * 0x1_0000 + input[2] * 0x100 + input[3] > framing.limit,
        decode_step(framing, input).step is TooLarge ==> {
            &&& decode_step(framing, input).rest == input
            &&& decode_step(framing, input).framing == framing
        },
{
    if input.len() >= 4 {
        let s = input.take(4);
        assert(s[0] == input[0] && s[1] == input[1] && s[2] == input[2] && s[3] == input[3]);
    }
}

/// A step waits exactly as long as the stream ends before the payload does, and it
/// loses no byte of it: what it takes off the front is the length.
pub proof fn steps_wait_for_the_whole_payload(framing: Framing, n: nat, input: Seq<u8>)
    requires
        framing.awaiting == Some(n),
    ensures
        input.len() < n ==> decode_step(framing, input) == (Decoded {
            step: Step::Incomplete,
            framing,
            rest: input,
        }),
        input.len() >= n ==> decode_step(framing, input) == (Decoded {
            step: Step::Payload(input.take(n as int)),
            framing: Framing { awaiting: None, ..framing },
            rest: input.skip(n as int),
        }),
{
}

/// The frames of a consistent configuration are within the limit of a codec
/// that goes by it, so none of them is refused, as long as four bytes can tell
/// their size.
pub proof fn consistent_frames_pass(config: NodeConfig)
    requires
        config.consistent(),
        config.message_size <= u32::MAX,
    ensures
        config.message_size <= effective_limit(config.max_frame_size),
{
}

/// How the decoding of a stream comes to a halt.
pub enum Halt {
    /// More bytes are needed.
    Waiting,
    /// The length before the next frame exceeds the limit.
    TooLarge,
    /// A payload of this size, which is not the expected one, came out.
    WrongSize(nat),
}

/// What the decoding of a stream comes to.
pub struct Run {
    /// The frames that came out, in order.
    pub frames: Seq<Seq<u8>>,
    /// Why it halted.
    pub halt: Halt,
    /// The codec afterwards.
    pub framing: Framing,
    /// The bytes that are left in the stream.
    pub rest: Seq<u8>,
}

/// Decodes frames of the expected size off the front of `input`, one after the
/// other, until more bytes are needed or an error comes.
pub open spec fn decode_run(framing: Framing, expected: nat, input: Seq<u8>) -> Run
    decreases 2 * input.len() + if framing.awaiting is Some { 1int } else { 0 },
{
    let decoded = decode_step(framing, input);
    match decoded.step {
        Step::TooLarge => Run {
            frames: Seq::empty(),
            halt: Halt::TooLarge,
            framing: decoded.framing,
            rest: decoded.rest,
        },
        Step::Incomplete => Run {
            frames: Seq::empty(),
            halt: Halt::Waiting,
            framing: decoded.framing,
            rest: decoded.rest,
        },
        Step::Payload(payload) => if payload.len() != expected {
            Run {
                frames: Seq::empty(),
                halt: Halt::WrongSize(payload.len()),
                framing: decoded.framing,
                rest: decoded.rest,
            }
        } else {
            let later = decode_run(decoded.framing, expected, decoded.rest);
            Run { frames: seq![payload] + later.frames, ..later }
        },
    }
}

/// Decodes a stream that arrives in `chunks`, running after each of them as far as
/// it goes, until an error comes.
pub open spec fn decode_chunks(framing: Framing, expected: nat, chunks: Seq<Seq<u8>>) -> Run
    decreases chunks.len(),
{
    if chunks.len() == 0 {
        Run { frames: Seq::empty(), halt: Halt::Waiting, framing, rest: Seq::empty() }
    } else {
        let before = decode_chunks(framing, expected, chunks.drop_last());
        if before.halt is Waiting {
            let now = decode_run(before.framing, expected, before.rest + chunks.last());
            Run { frames: before.frames + now.frames, ..now }
        } else {
            before
        }
    }
}

/// The bytes of `chunks`, one after the other.
pub open spec fn joined_chunks(chunks: Seq<Seq<u8>>) -> Seq<u8>
    decreases chunks.len(),
{
    if chunks.len() == 0 {
        Seq::empty()
    } else {
        joined_chunks(chunks.drop_last()) + chunks.last()
    }
}

/// What comes after the bytes that a step has used does not change its outcome.
proof fn lemma_step_ignores_what_follows(framing: Framing, head: Seq<u8>, tail: Seq<u8>)
    requires
        !(decode_step(framing, head).step is Incomplete),
    ensures
        decode_step(framing, head + tail).step == decode_step(framing, head).step,
        decode_step(framing, head + tail).framing == decode_step(framing, head).framing,
        decode_step(framing, head + tail).rest == decode_step(framing, head).rest + tail,
{
    let (n, body) = match framing.awaiting {
        Some(n) => (n, head),
        None => (prefixed_length(head.take(4)), head.skip(4)),
    };
    if framing.awaiting is None {
        assert((head + tail).take(4) =~= head.take(4));
        assert((head + tail).skip(4) =~= head.skip(4) + tail);
    }
    if n <= body.len() {
        assert((body + tail).take(n as int) =~= body.take(n as int));
        assert((body + tail).skip(n as int) =~= body.skip(n as int) + tail);
    }
}

/// A run over the front of a stream, gone on with the rest of it, comes to the same
/// as one run over the whole; and an error in the front stays the first error.
pub proof fn runs_go_on(framing: Framing, expected: nat, head: Seq<u8>, tail: Seq<u8>)
    ensures
        ({
            let first = decode_run(framing, expected, head);
            let whole = decode_run(framing, expected, head + tail);
            if first.halt is Waiting {
                let second = decode_run(first.framing, expected, first.rest + tail);
                whole == (Run { frames: first.frames + second.frames, ..second })
            } else {
                whole == (Run { rest: first.rest + tail, ..first })
            }
        }),
    decreases 2 * head.len() + if framing.awaiting is Some { 1int } else { 0 },
{
    let step = decode_step(framing, head);
    let first = decode_run(framing, expected, head);
    let whole = decode_run(framing, expected, head + tail);
    if step.step is Incomplete {
        chunks_do_not_matter(framing, head, tail);
        let second = decode_run(first.framing, expected, first.rest + tail);
        assert(first.frames + second.frames =~= second.frames);
        assert(whole == second);
    } else {
        lemma_step_ignores_what_follows(framing, head, tail);
        if step.step is Payload && step.step->Payload_0.len() == expected {
            let payload = step.step->Payload_0;
            runs_go_on(step.framing, expected, step.rest, tail);
            let later = decode_run(step.framing, expected, step.rest);
            if later.halt is Waiting {
                let second = decode_run(later.framing, expected, later.rest + tail);
                assert(seq![payload] + (later.frames + second.frames) =~= (seq![payload]
                    + later.frames) + second.frames);
            }
        }
    }
}

/// A stream that arrives in chunks is decoded as if it had arrived at once: the
/// same frames come out, and then the same error or none.
pub proof fn chunks_are_decoded_as_one(framing: Framing, expected: nat, chunks: Seq<Seq<u8>>)
    requires
        framing.awaiting is None,
    ensures
        ({
            let run = decode_chunks(framing, expected, chunks);
            let whole = decode_run(framing, expected, joined_chunks(chunks));
            &&& run.frames == whole.frames
            &&& run.halt == whole.halt
            &&& run.framing == whole.framing
            &&& run.halt is Waiting ==> run.rest == whole.rest
        }),
    decreases chunks.len(),
{
    if chunks.len() > 0 {
        let before = chunks.drop_last();
        chunks_are_decoded_as_one(framing, expected, before);
        runs_go_on(framing, expected, joined_chunks(before), chunks.last());
    }
}

/// However a stream is cut up, the same frames come out, and then the same error
/// or none.
pub proof fn cuts_do_not_matter(
    framing: Framing,
    expected: nat,
    one: Seq<Seq<u8>>,
    other: Seq<Seq<u8>>,
)
    requires
        framing.awaiting is None,
        joined_chunks(one) == joined_chunks(other),
    ensures
        decode_chunks(framing, expected, one).frames == decode_chunks(
            framing,
            expected,
            other,
        ).frames,
        decode_chunks(framing, expected, one).halt == decode_chunks(framing, expected, other).halt,
{
    chunks_are_decoded_as_one(framing, expected, one);
    chunks_are_decoded_as_one(framing, expected, other);
}

/// Payloads of the expected size that were encoded one after the other come back
/// as they were, all of them and in order, and then nothing.
pub proof fn stream_survives_the_wire(framing: Framing, expected: nat, payloads: Seq<Seq<u8>>)
    requires
        framing.awaiting is None,
        expected <= framing.limit <= u32::MAX,
        forall|i: int| 0 <= i < payloads.len() ==> (#[trigger] payloads[i]).len() == expected,
    ensures
        decode_run(framing, expected, stream(payloads)) == (Run {
            frames: payloads,
            halt: Halt::Waiting,
            framing,
            rest: Seq::empty(),
        }),
    decreases payloads.len(),
{
    if payloads.len() > 0 {
        let later = payloads.drop_first();
        stream_is_decoded_in_order(framing, payloads);
        assert forall|i: int| 0 <= i < later.len() implies (#[trigger] later[i]).len()
            == expected by {
            assert(later[i] == payloads[i + 1]);
        }
        stream_survives_the_wire(framing, expected, later);
        assert(seq![payloads[0]] + later =~= payloads);
    } else {
        assert(payloads =~= Seq::empty());
    }
}

} // verus!
