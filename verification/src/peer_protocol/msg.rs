//! Peer wire messages and their frames: a four-byte big-endian length, then
//! the message id and its payload.
use vstd::prelude::*;

use crate::constants::msg;
use crate::endian::{be_u32, push_u32, read_u32, u32_be};
use crate::error::ClientError;

verus! {

/// A peer wire message.
#[derive(PartialEq, Eq, Debug)]
pub enum Message {
    KeepAlive,
    Choke,
    Unchoke,
    Interested,
    NotInterested,
    Have(u32),
    Bitfield(Vec<u8>),
    Request(u32, u32, u32),
    Piece(u32, u32, Vec<u8>),
    Cancel(u32, u32, u32),
}

/// A message with its byte payloads seen as sequences.
pub enum MessageView {
    KeepAlive,
    Choke,
    Unchoke,
    Interested,
    NotInterested,
    Have(u32),
    Bitfield(Seq<u8>),
    Request(u32, u32, u32),
    Piece(u32, u32, Seq<u8>),
    Cancel(u32, u32, u32),
}

impl View for Message {
    type V = MessageView;

    open spec fn view(&self) -> MessageView {
        match self {
            Message::KeepAlive => MessageView::KeepAlive,
            Message::Choke => MessageView::Choke,
            Message::Unchoke => MessageView::Unchoke,
            Message::Interested => MessageView::Interested,
            Message::NotInterested => MessageView::NotInterested,
            Message::Have(i) => MessageView::Have(*i),
            Message::Bitfield(b) => MessageView::Bitfield(b@),
            Message::Request(i, b, l) => MessageView::Request(*i, *b, *l),
            Message::Piece(i, b, p) => MessageView::Piece(*i, *b, p@),
            Message::Cancel(i, b, l) => MessageView::Cancel(*i, *b, *l),
        }
    }
}

/// The frame that is sent for a message. Only requests and interest carry
/// an id; every other message goes out as a bare keep-alive.
pub open spec fn frame_of(m: MessageView) -> Seq<u8> {
    match m {
        MessageView::Request(index, begin, length) => u32_be(13) + seq![6u8] + u32_be(index)
            + u32_be(begin) + u32_be(length),
        MessageView::Interested => u32_be(1) + seq![2u8],
        _ => u32_be(0),
    }
}

/// The fields of a received frame, by its id byte (at position 4); an
/// unknown id reads as a keep-alive.
pub open spec fn message_of(buf: Seq<u8>) -> MessageView {
    let id = buf[4];
    if id == 0 {
        MessageView::Choke
    } else if id == 1 {
        MessageView::Unchoke
    } else if id == 4 {
        MessageView::Have(be_u32(buf.subrange(5, buf.len() as int)) as u32)
    } else if id == 5 {
        MessageView::Bitfield(buf.subrange(5, buf.len() as int))
    } else if id == 7 {
        MessageView::Piece(
            be_u32(buf.subrange(5, 9)) as u32,
            be_u32(buf.subrange(9, 13)) as u32,
            buf.subrange(13, buf.len() as int),
        )
    } else if id == 8 {
        MessageView::Cancel(
            be_u32(buf.subrange(5, 9)) as u32,
            be_u32(buf.subrange(9, 13)) as u32,
            be_u32(buf.subrange(13, buf.len() as int)) as u32,
        )
    } else {
        MessageView::KeepAlive
    }
}

/// A received frame is long enough for the fields its id byte calls for.
pub open spec fn is_readable(buf: Seq<u8>) -> bool {
    &&& buf.len() >= 5
    &&& buf[4] == 4 ==> buf.len() >= 9
    &&& buf[4] == 7 ==> buf.len() >= 13
    &&& buf[4] == 8 ==> buf.len() >= 17
}

/// Whether a received frame is long enough for the fields its id byte
/// calls for, so that `Message::deserialize` can read it.
pub fn frame_readable(buf: &[u8]) -> (r: bool)
    ensures
        r == is_readable(buf@),
{
    let n = buf.len();
    if n < 5 {
        return false;
    }
    let id = buf[4];
    !(id == 4 && n < 9) && !(id == 7 && n < 13) && !(id == 8 && n < 17)
}

fn read_u32_at(buf: &[u8], start: usize) -> (r: u32)
    requires
        start + 4 <= buf@.len(),
    ensures
        r == be_u32(buf@.subrange(start as int, buf@.len() as int)),
        r == be_u32(buf@.subrange(start as int, start + 4)),
{
    let rest = &buf[start..buf.len()];
    let r = read_u32(rest);
    proof {
        crate::endian::lemma_be_u32_bounds(rest@);
    }
    r
}

impl Message {
    /// The frame of the message: a request or interest with its length and
    /// id, anything else as a keep-alive.
    pub fn serialize(self) -> (r: Result<Vec<u8>, ClientError>)
        ensures
            r matches Ok(buf) && buf@ == frame_of(self@),
    {
        let ghost v = self@;
        let (length, msg_id, payload): (u32, Option<u8>, Option<Vec<u8>>) = match self {
            Message::Request(index, begin, length) => {
                let mut buf: Vec<u8> = Vec::new();
                push_u32(&mut buf, index);
                push_u32(&mut buf, begin);
                push_u32(&mut buf, length);
                (msg::len::REQUEST, Some(msg::id::REQUEST), Some(buf))
            },
            Message::Interested => (msg::len::INTERESTED, Some(msg::id::INTERESTED), None),
            Message::KeepAlive => (0, None, None),
            _ => (0, None, None),
        };
        let mut buf: Vec<u8> = Vec::new();
        push_u32(&mut buf, length);
        if let Some(id) = msg_id {
            if length != 0 {
                buf.push(id);
                if let Some(p) = payload {
                    let mut p = p;
                    buf.append(&mut p);
                }
            }
        }
        proof {
            match v {
                MessageView::Request(index, begin, length) => {
                    assert(buf@ =~= frame_of(v));
                },
                MessageView::Interested => {
                    assert(buf@ =~= frame_of(v));
                },
                _ => {
                    assert(buf@ =~= frame_of(v));
                },
            }
        }
        Ok(buf)
    }

    /// The message in a received frame (length prefix included), read by
    /// its id byte. A frame too short for its fields is refused by
    /// `requires`.
    pub fn deserialize(buf: &[u8]) -> (r: Result<Self, ClientError>)
        requires
            is_readable(buf@),
        ensures
            r matches Ok(m) && m@ == message_of(buf@),
    {
        let msg_id = buf[4];
        let m = if msg_id == msg::id::CHOKE {
            Self::Choke
        } else if msg_id == msg::id::UNCHOKE {
            Self::Unchoke
        } else if msg_id == msg::id::HAVE {
            Self::Have(read_u32_at(buf, 5))
        } else if msg_id == msg::id::BITFIELD {
            Self::Bitfield(vstd::slice::slice_to_vec(&buf[5..buf.len()]))
        } else if msg_id == msg::id::PIECE {
            Self::Piece(
                read_u32_at(buf, 5),
                read_u32_at(buf, 9),
                vstd::slice::slice_to_vec(&buf[13..buf.len()]),
            )
        } else if msg_id == msg::id::CANCEL {
            Self::Cancel(read_u32_at(buf, 5), read_u32_at(buf, 9), read_u32_at(buf, 13))
        } else {
            Self::KeepAlive
        };
        Ok(m)
    }
}

/// The number of bytes that follow the four-byte length prefix of a frame.
pub fn frame_length(header: &[u8]) -> (r: usize)
    requires
        header@.len() >= 4,
    ensures
        r == be_u32(header@),
{
    proof {
        crate::endian::lemma_be_u32_bounds(header@);
    }
    read_u32(header) as usize
}

/// A frame's length prefix counts exactly the bytes after it.
pub proof fn lemma_frame_length_prefix(m: MessageView)
    ensures
        frame_of(m).len() >= 4,
        be_u32(frame_of(m)) == frame_of(m).len() - 4,
{
    crate::endian::lemma_u32_be_roundtrip(13);
    crate::endian::lemma_u32_be_roundtrip(1);
    crate::endian::lemma_u32_be_roundtrip(0);
    let f = frame_of(m);
    match m {
        MessageView::Request(index, begin, length) => {
            assert(f.subrange(0, 4) =~= u32_be(13));
        },
        MessageView::Interested => {
            assert(f.subrange(0, 4) =~= u32_be(1));
        },
        _ => {},
    }
}

/// A request's frame carries its index, offset and length at bytes 5, 9 and
/// 13, behind id 6.
pub proof fn lemma_request_fields(index: u32, begin: u32, length: u32)
    ensures
        ({
            let f = frame_of(MessageView::Request(index, begin, length));
            &&& f.len() == 17
            &&& f[4] == 6
            &&& be_u32(f.subrange(5, 9)) == index
            &&& be_u32(f.subrange(9, 13)) == begin
            &&& be_u32(f.subrange(13, 17)) == length
        }),
{
    let f = frame_of(MessageView::Request(index, begin, length));
    crate::endian::lemma_u32_be_roundtrip(index);
    crate::endian::lemma_u32_be_roundtrip(begin);
    crate::endian::lemma_u32_be_roundtrip(length);
    crate::endian::lemma_u32_be_roundtrip(13);
    assert(f.subrange(5, 9) =~= u32_be(index));
    assert(f.subrange(9, 13) =~= u32_be(begin));
    assert(f.subrange(13, 17) =~= u32_be(length));
}

/// Which message a received frame reads as is decided by its id byte alone:
/// choke only from id 0, unchoke from 1, have from 4, bitfield from 5, piece
/// from 7, cancel from 8; every other id reads as a keep-alive, and a frame
/// never reads as a request or as interest.
pub proof fn lemma_message_of_ids(buf: Seq<u8>)
    requires
        buf.len() >= 5,
    ensures
        message_of(buf) is Choke <==> buf[4] == 0,
        message_of(buf) is Unchoke <==> buf[4] == 1,
        message_of(buf) is Have <==> buf[4] == 4,
        message_of(buf) is Bitfield <==> buf[4] == 5,
        message_of(buf) is Piece <==> buf[4] == 7,
        message_of(buf) is Cancel <==> buf[4] == 8,
        message_of(buf) is KeepAlive <==> !(buf[4] == 0 || buf[4] == 1 || buf[4] == 4 || buf[4] == 5
            || buf[4] == 7 || buf[4] == 8),
        !(message_of(buf) is Request),
        !(message_of(buf) is Interested),
        !(message_of(buf) is NotInterested),
        message_of(buf) matches MessageView::Bitfield(b) ==> b == buf.subrange(5, buf.len() as int),
        message_of(buf) matches MessageView::Piece(_, _, b) ==> b == buf.subrange(13, buf.len() as int),
{
}

} // verus!
