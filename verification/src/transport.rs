//! Messages on a stream of bytes: each behind its length.

use crate::codec;
use crate::errors;
use crate::message::{self, NetworkEnvelope, NetworkError, NetworkMessage, PeerInfo};
use crate::params::{ChainParams, MAX_NETWORK_MESSAGE_SIZE};
use crate::text;
use vstd::prelude::*;

verus! {

/// The number of bytes of a length.
pub const MESSAGE_LENGTH_SIZE: usize = 4;

/// Bytes that are written at the end and read from a position on.
#[derive(Clone, Debug, PartialEq, Eq)]
pub struct ByteStream {
    pub bytes: Vec<u8>,
    pub position: usize,
}

impl Default for ByteStream {
    fn default() -> (r: Self)
        ensures
            r.bytes@ == Seq::<u8>::empty(),
            r.position == 0,
    {
        ByteStream { bytes: Vec::new(), position: 0 }
    }
}

impl ByteStream {
    /// The position lies within the bytes.
    pub open spec fn wf(&self) -> bool {
        self.position <= self.bytes@.len()
    }

    /// The bytes that are not read yet.
    pub open spec fn unread(&self) -> Seq<u8> {
        self.bytes@.skip(self.position as int)
    }

    /// A stream of the given bytes.
    pub fn new(bytes: Vec<u8>) -> (r: Self)
        ensures
            r.wf(),
            r.bytes == bytes,
            r.position == 0,
            r.unread() == bytes@,
    {
        let r = ByteStream { bytes, position: 0 };
        assert(r.unread() =~= bytes@);
        r
    }

    /// Goes back to the first byte.
    pub fn rewind(&mut self)
        ensures
            final(self).wf(),
            final(self).bytes == old(self).bytes,
            final(self).position == 0,
    {
        self.position = 0;
    }

    /// Writes bytes at the end.
    pub fn write_all(&mut self, data: &[u8])
        ensures
            final(self).bytes@ == old(self).bytes@ + data@,
            final(self).position == old(self).position,
            old(self).wf() ==> final(self).wf() && final(self).unread() == old(self).unread()
                + data@,
    {
        self.bytes.extend_from_slice(data);
        proof {
            assert(self.bytes@ =~= old(self).bytes@ + data@);
            if old(self).wf() {
                assert(self.unread() =~= old(self).unread() + data@);
            }
        }
    }

    /// Reads the next `count` bytes. Where there are not so many, all of them
    /// are read and the reading fails.
    pub fn read_exact(&mut self, count: usize) -> (r: Option<Vec<u8>>)
        requires
            old(self).wf(),
        ensures
            final(self).wf(),
            final(self).bytes == old(self).bytes,
            if count <= old(self).unread().len() {
                r matches Some(data) && data@ == old(self).unread().take(count as int)
                    && final(self).unread() == old(self).unread().skip(count as int)
            } else {
                r is None && final(self).unread().len() == 0
            },
    {
        let left: usize = self.bytes.len() - self.position;
        if count > left {
            self.position = self.bytes.len();
            return None;
        }
        let mut data: Vec<u8> = Vec::new();
        data.extend_from_slice(
            vstd::slice::slice_subrange(
                self.bytes.as_slice(),
                self.position,
                self.position + count,
            ),
        );
        proof {
            assert(data@ =~= self.unread().take(count as int));
            assert(self.unread().skip(count as int) =~= self.bytes@.skip(self.position + count));
        }
        self.position = self.position + count;
        Some(data)
    }
}

/// The bytes of a message behind their length.
pub open spec fn frame(written: Seq<u8>) -> Seq<u8> {
    codec::be32(written.len() as u32) + written
}

/// The length that four bytes give, if a message may have it.
pub fn frame_length(header: &[u8]) -> (r: Result<usize, NetworkError>)
    requires
        header@.len() == 4,
    ensures
        match r {
            Ok(length) => length <= MAX_NETWORK_MESSAGE_SIZE && codec::be32(length as u32)
                == header@,
            Err(error) => error == NetworkError::MessageTooLarge && exists|x: u32|
                x > MAX_NETWORK_MESSAGE_SIZE && #[trigger] codec::be32(x) == header@,
        },
{
    let length: u32 = codec::u32_from_be_bytes(header);
    if length as u64 > MAX_NETWORK_MESSAGE_SIZE as u64 {
        proof {
            assert(codec::be32(length) == header@);
        }
        return Err(NetworkError::MessageTooLarge);
    }
    Ok(length as usize)
}

/// Writes an envelope behind its length.
pub fn write_message(writer: &mut ByteStream, envelope: &NetworkEnvelope) -> (r: Result<
    (),
    NetworkError,
>)
    ensures
        final(writer).position == old(writer).position,
        old(writer).wf() ==> final(writer).wf(),
        match r {
            Ok(_) => {
                let written = message::envelope_bytes(envelope.magic@, envelope.message@);
                &&& message::lengths_fit(envelope.message@)
                &&& written.len() <= MAX_NETWORK_MESSAGE_SIZE
                &&& final(writer).bytes@ == old(writer).bytes@ + frame(written)
            },
            Err(error) => final(writer).bytes@ == old(writer).bytes@ && (
            if !message::lengths_fit(envelope.message@) {
                error == NetworkError::Serialization("length does not fit")
            } else {
                error == NetworkError::MessageTooLarge && message::envelope_bytes(
                    envelope.magic@,
                    envelope.message@,
                ).len() > MAX_NETWORK_MESSAGE_SIZE
            }),
        },
{
    let written = match envelope.to_bytes() {
        Err(error) => {
            return Err(error);
        },
        Ok(written) => written,
    };
    let length: u32 = written.len() as u32;
    writer.write_all(codec::u32_to_be_bytes(length).as_slice());
    writer.write_all(written.as_slice());
    proof {
        assert(writer.bytes@ =~= old(writer).bytes@ + frame(written@));
    }
    Ok(())
}

/// What reading a message from some bytes leads to: the message or the error,
/// and the bytes that are left.
pub open spec fn message_reads(
    unread: Seq<u8>,
    params: ChainParams,
    r: Result<NetworkEnvelope, NetworkError>,
    left: Seq<u8>,
) -> bool {
    if unread.len() < 4 {
        r == Err::<NetworkEnvelope, NetworkError>(
            NetworkError::Serialization("failed to fill whole buffer"),
        ) && left.len() == 0
    } else {
        exists|length: u32| #[trigger]
            codec::be32(length) == unread.take(4) && {
                let body = unread.skip(4);
                if length > MAX_NETWORK_MESSAGE_SIZE {
                    r == Err::<NetworkEnvelope, NetworkError>(NetworkError::MessageTooLarge)
                        && left == body
                } else if body.len() < length {
                    r == Err::<NetworkEnvelope, NetworkError>(
                        NetworkError::Serialization("failed to fill whole buffer"),
                    ) && left.len() == 0
                } else {
                    let written = body.take(length as int);
                    left == body.skip(length as int) && match r {
                        Ok(envelope) => written.len() >= 4 && written.take(4)
                            == params.network_magic@ && envelope.magic == params.network_magic
                            && message::message_of(written.skip(4)) == Some(envelope.message@),
                        Err(error) => if written.len() < 4 || message::message_of(
                            written.skip(4),
                        ) is None {
                            error == NetworkError::Serialization("bytes are not a message")
                        } else {
                            error == NetworkError::Serialization("message is of another network")
                                && written.take(4) != params.network_magic@
                        },
                    }
                }
            }
    }
}

/// Reads the next message.
pub fn read_message(reader: &mut ByteStream, params: &ChainParams) -> (r: Result<
    NetworkEnvelope,
    NetworkError,
>)
    requires
        old(reader).wf(),
    ensures
        final(reader).wf(),
        final(reader).bytes == old(reader).bytes,
        message_reads(old(reader).unread(), *params, r, final(reader).unread()),
{
    let header = match reader.read_exact(MESSAGE_LENGTH_SIZE) {
        None => {
            return Err(NetworkError::Serialization("failed to fill whole buffer"));
        },
        Some(header) => header,
    };
    let length: u32 = codec::u32_from_be_bytes(header.as_slice());
    proof {
        assert(codec::be32(length) == old(reader).unread().take(4));
    }
    match frame_length(header.as_slice()) {
        Err(error) => {
            proof {
                let x = choose|x: u32|
                    x > MAX_NETWORK_MESSAGE_SIZE && #[trigger] codec::be32(x) == header@;
                codec::be32_is_injective(x, length);
            }
            Err(error)
        },
        Ok(count) => {
            proof {
                codec::be32_is_injective(count as u32, length);
            }
            match reader.read_exact(count) {
                None => Err(NetworkError::Serialization("failed to fill whole buffer")),
                Some(written) => NetworkEnvelope::from_bytes(written.as_slice(), params),
            }
        },
    }
}

/// What is written is read: where a message was written, and whatever came after
/// it, the next reading gives the message back and leaves what came after.
pub proof fn written_frame_is_read(
    params: ChainParams,
    said: message::Said,
    more: Seq<u8>,
    r: Result<NetworkEnvelope, NetworkError>,
    left: Seq<u8>,
)
    requires
        message::lengths_fit(said),
        message::envelope_bytes(params.network_magic@, said).len() <= MAX_NETWORK_MESSAGE_SIZE,
        message_reads(
            frame(message::envelope_bytes(params.network_magic@, said)) + more,
            params,
            r,
            left,
        ),
    ensures
        r matches Ok(envelope) && envelope.magic == params.network_magic && envelope.message@
            == said,
        left == more,
{
    let written = message::envelope_bytes(params.network_magic@, said);
    let unread = frame(written) + more;
    let n = written.len() as u32;
    codec::be32_is_injective(n, n);
    assert(unread.take(4) =~= codec::be32(n));
    assert(unread.skip(4) =~= written + more);
    message::written_envelope_is_read(params.network_magic@, said);
    assert forall|length: u32| #[trigger] codec::be32(length) == unread.take(4) implies length
        == n by {
        codec::be32_is_injective(length, n);
    }
    assert((written + more).take(n as int) =~= written);
    assert((written + more).skip(n as int) =~= more);
}

/// A node at the other end of a stream.
#[derive(Clone, Debug, PartialEq, Eq)]
pub struct Peer<S> {
    stream: S,
    info: PeerInfo,
}

impl<S> Peer<S> {
    /// The stream to the node.
    pub closed spec fn stream_spec(&self) -> S {
        self.stream
    }

    /// Where the node can be reached.
    pub closed spec fn info_spec(&self) -> PeerInfo {
        self.info
    }

    /// A node at the other end of a stream.
    pub fn new(stream: S, info: PeerInfo) -> (r: Self)
        ensures
            r.stream_spec() == stream,
            r.info_spec() == info,
    {
        Peer { stream, info }
    }

    /// Where the node can be reached.
    pub fn info(&self) -> (r: &PeerInfo)
        ensures
            *r == self.info_spec(),
    {
        &self.info
    }

    /// The stream to the node.
    pub fn stream_mut(&mut self) -> (r: &mut S)
        ensures
            *r == old(self).stream_spec(),
            final(self).stream_spec() == *final(r),
            final(self).info_spec() == old(self).info_spec(),
    {
        &mut self.stream
    }

    /// The stream to the node.
    pub fn into_inner(self) -> (r: S)
        ensures
            r == self.stream_spec(),
    {
        self.stream
    }
}

impl Peer<ByteStream> {
    /// Sends a message.
    pub fn send(&mut self, message: NetworkMessage, params: &ChainParams) -> (r: Result<
        (),
        NetworkError,
    >)
        ensures
            final(self).info_spec() == old(self).info_spec(),
            final(self).stream_spec().position == old(self).stream_spec().position,
            match r {
                Ok(_) => {
                    let written = message::envelope_bytes(params.network_magic@, message@);
                    &&& message::lengths_fit(message@)
                    &&& written.len() <= MAX_NETWORK_MESSAGE_SIZE
                    &&& final(self).stream_spec().bytes@ == old(self).stream_spec().bytes@ + frame(
                        written,
                    )
                },
                Err(error) => final(self).stream_spec().bytes@ == old(self).stream_spec().bytes@
                    && (if !message::lengths_fit(message@) {
                    error == NetworkError::Serialization("length does not fit")
                } else {
                    error == NetworkError::MessageTooLarge && message::envelope_bytes(
                        params.network_magic@,
                        message@,
                    ).len() > MAX_NETWORK_MESSAGE_SIZE
                }),
            },
    {
        let envelope = message.to_envelope(params);
        write_message(&mut self.stream, &envelope)
    }

    /// Sends an envelope.
    pub fn send_envelope(&mut self, envelope: &NetworkEnvelope) -> (r: Result<(), NetworkError>)
        ensures
            final(self).info_spec() == old(self).info_spec(),
            final(self).stream_spec().position == old(self).stream_spec().position,
            match r {
                Ok(_) => {
                    let written = message::envelope_bytes(envelope.magic@, envelope.message@);
                    &&& message::lengths_fit(envelope.message@)
                    &&& written.len() <= MAX_NETWORK_MESSAGE_SIZE
                    &&& final(self).stream_spec().bytes@ == old(self).stream_spec().bytes@ + frame(
                        written,
                    )
                },
                Err(error) => final(self).stream_spec().bytes@ == old(self).stream_spec().bytes@
                    && (if !message::lengths_fit(envelope.message@) {
                    error == NetworkError::Serialization("length does not fit")
                } else {
                    error == NetworkError::MessageTooLarge && message::envelope_bytes(
                        envelope.magic@,
                        envelope.message@,
                    ).len() > MAX_NETWORK_MESSAGE_SIZE
                }),
            },
    {
        write_message(&mut self.stream, envelope)
    }

    /// Receives a message.
    pub fn recv(&mut self, params: &ChainParams) -> (r: Result<NetworkEnvelope, NetworkError>)
        requires
            old(self).stream_spec().wf(),
        ensures
            final(self).info_spec() == old(self).info_spec(),
            final(self).stream_spec().wf(),
            final(self).stream_spec().bytes == old(self).stream_spec().bytes,
            message_reads(
                old(self).stream_spec().unread(),
                *params,
                r,
                final(self).stream_spec().unread(),
            ),
    {
        read_message(&mut self.stream, params)
    }
}

/// A message as it travels between nodes that exchange requests.
#[derive(Clone, Debug, PartialEq, Eq)]
pub struct WireMessage {
    pub bytes: Vec<u8>,
}

impl WireMessage {
    /// The bytes of a message.
    pub fn encode(message: &NetworkMessage, params: &ChainParams) -> (r: Result<Self, String>)
        ensures
            match r {
                Ok(wire) => message::lengths_fit(message@) && wire.bytes@
                    == message::envelope_bytes(params.network_magic@, message@)
                    && wire.bytes@.len() <= MAX_NETWORK_MESSAGE_SIZE,
                Err(error) => if !message::lengths_fit(message@) {
                    error@ == "failed to encode network envelope: "@ + errors::network_words(
                        NetworkError::Serialization("length does not fit"),
                        Seq::empty(),
                    )
                } else {
                    error@ == "failed to encode network envelope: "@ + errors::network_words(
                        NetworkError::MessageTooLarge,
                        Seq::empty(),
                    ) && message::envelope_bytes(params.network_magic@, message@).len()
                        > MAX_NETWORK_MESSAGE_SIZE
                },
            },
    {
        match message.to_envelope_bytes(params) {
            Ok(bytes) => Ok(WireMessage { bytes }),
            Err(error) => Err(
                text::join2("failed to encode network envelope: ", error.message("").as_str()),
            ),
        }
    }

    /// The message with the given bytes.
    pub fn decode(self, params: &ChainParams) -> (r: Result<NetworkMessage, String>)
        ensures
            match r {
                Ok(message) => self.bytes@.len() <= MAX_NETWORK_MESSAGE_SIZE && self.bytes@.len()
                    >= 4 && self.bytes@.take(4) == params.network_magic@ && message::message_of(
                    self.bytes@.skip(4),
                ) == Some(message@),
                Err(error) => if self.bytes@.len() > MAX_NETWORK_MESSAGE_SIZE {
                    error@ == "failed to decode network envelope: "@ + errors::network_words(
                        NetworkError::MessageTooLarge,
                        Seq::empty(),
                    )
                } else if self.bytes@.len() < 4 || message::message_of(
                    self.bytes@.skip(4),
                ) is None {
                    error@ == "failed to decode network envelope: "@ + errors::network_words(
                        NetworkError::Serialization("bytes are not a message"),
                        Seq::empty(),
                    )
                } else {
                    error@ == "failed to decode network envelope: "@ + errors::network_words(
                        NetworkError::Serialization("message is of another network"),
                        Seq::empty(),
                    ) && self.bytes@.take(4) != params.network_magic@
                },
            },
    {
        match NetworkEnvelope::from_bytes(self.bytes.as_slice(), params) {
            Ok(envelope) => Ok(envelope.message),
            Err(error) => Err(
                text::join2("failed to decode network envelope: ", error.message("").as_str()),
            ),
        }
    }
}

/// What is encoded is decoded: the decoded message says what the encoded one
/// said.
pub proof fn encoded_message_is_decoded(params: ChainParams, said: message::Said)
    requires
        message::lengths_fit(said),
    ensures
        message::envelope_bytes(params.network_magic@, said).len() >= 4,
        message::envelope_bytes(params.network_magic@, said).take(4) == params.network_magic@,
        message::message_of(message::envelope_bytes(params.network_magic@, said).skip(4)) == Some(
            said,
        ),
{
    message::written_envelope_is_read(params.network_magic@, said);
}

} // verus!
