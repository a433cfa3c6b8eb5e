//! What holds of every send followed by a receive of the same datagram.

use vstd::prelude::*;
use crate::ancillary::{accepted, control_for, last_rights};
use crate::buffers::{filled, min_nat, received_len, zeros};
use crate::errors::FramingError;
use crate::header::{
    HEADER_LEN, declared_len, header_of, le_value, lemma_le_bytes_len, lemma_le_bytes_of_value,
    lemma_le_value_bound, lemma_le_value_of_bytes, lemma_le_value_zero_padded,
    lemma_pow256_header,
};
use crate::message::{ControlMessageView, RawFd, descriptor_count};
use crate::socket::{framed, record, sent, unframed};

verus! {

/// Header round trip. The header of a length has eight bytes and declares
/// that length.
pub proof fn law_header_round_trip(len: u64)
    ensures
        header_of(len as nat).len() == HEADER_LEN,
        declared_len(header_of(len as nat)) == len,
{
    lemma_le_bytes_len(len as nat, HEADER_LEN as nat);
    lemma_pow256_header();
    lemma_le_value_of_bytes(len as nat, HEADER_LEN as nat);
    assert(header_of(len as nat).take(HEADER_LEN as int) =~= header_of(len as nat));
}

/// Any eight bytes are the header of exactly the length that they declare,
/// and that length is an unsigned 64-bit number.
pub proof fn law_header_unique(header: Seq<u8>)
    requires
        header.len() == HEADER_LEN,
    ensures
        declared_len(header) <= u64::MAX,
        header_of(declared_len(header)) == header,
{
    assert(header.take(HEADER_LEN as int) =~= header);
    lemma_le_value_bound(header);
    lemma_pow256_header();
    lemma_le_bytes_of_value(header);
}

/// Of fewer bytes than a header, the declared length is that of the header
/// which the bytes make when zero bytes fill them up.
pub proof fn law_declared_len_of_short_bytes(bytes: Seq<u8>)
    requires
        bytes.len() <= HEADER_LEN,
    ensures
        declared_len(bytes) == le_value(bytes + zeros((HEADER_LEN - bytes.len()) as nat)),
        declared_len(bytes) == declared_len(bytes + zeros((HEADER_LEN - bytes.len()) as nat)),
{
    let padding = zeros((HEADER_LEN - bytes.len()) as nat);
    assert(bytes.take(bytes.len() as int) =~= bytes);
    assert((bytes + padding).take(HEADER_LEN as int) =~= bytes + padding);
    lemma_le_value_zero_padded(bytes, padding);
}

/// A frame is longer than its payload by the eight bytes of the header.
pub proof fn law_framed_len(payload: Seq<u8>)
    ensures
        framed(payload).len() == payload.len() + HEADER_LEN,
        framed(payload).take(HEADER_LEN as int) == header_of(payload.len()),
        framed(payload).skip(HEADER_LEN as int) == payload,
{
    lemma_le_bytes_len(payload.len(), HEADER_LEN as nat);
    assert(framed(payload).take(HEADER_LEN as int) =~= header_of(payload.len()));
    assert(framed(payload).skip(HEADER_LEN as int) =~= payload);
}

/// Raw round trip. Bytes sent as they are and received into a buffer arrive
/// as far as the buffer has room: the receive takes the smaller of the two
/// lengths, the buffer starts with that many bytes of what was sent, and
/// keeps its length.
pub proof fn law_raw_round_trip(payload: Seq<u8>, fds: Option<Seq<RawFd>>, buf: Seq<u8>)
    ensures
        received_len(buf.len(), sent(payload, fds).data.len()) == min_nat(buf.len(), payload.len()),
        filled(buf, sent(payload, fds).data).len() == buf.len(),
        filled(buf, sent(payload, fds).data).take(min_nat(buf.len(), payload.len()) as int)
            == payload.take(min_nat(buf.len(), payload.len()) as int),
        payload.len() <= buf.len() ==> filled(buf, sent(payload, fds).data).take(
            payload.len() as int,
        ) == payload,
{
    let n = min_nat(buf.len(), payload.len()) as int;
    assert(filled(buf, payload).take(n) =~= payload.take(n));
    if payload.len() <= buf.len() {
        assert(payload.take(payload.len() as int) =~= payload);
    }
}

/// Framed round trip. A payload sent as a frame and received with room for
/// its length plus the eight bytes of the header, or more, comes back whole,
/// together with its length as the declared length, and the receive takes
/// the whole frame.
pub proof fn law_framed_round_trip(payload: Seq<u8>, fds: Option<Seq<RawFd>>, buf_size: nat)
    requires
        payload.len() <= u64::MAX,
        buf_size >= payload.len() + HEADER_LEN,
    ensures
        unframed(buf_size, sent(framed(payload), fds).data) == Ok::<
            (nat, Seq<u8>, nat),
            FramingError,
        >((payload.len() + HEADER_LEN as nat, payload, payload.len())),
{
    let data = framed(payload);
    law_framed_len(payload);
    lemma_pow256_header();
    lemma_le_value_of_bytes(payload.len(), HEADER_LEN as nat);
    let got = data.take(received_len(buf_size, data.len()) as int);
    assert(got =~= data);
    assert(declared_len(got) == payload.len());
}

/// Length mismatch detection. A framed receive with room for fewer bytes
/// than the declared length plus eight fails with `LengthMismatch`, whatever
/// the datagram holds; it never hands out a shortened payload.
pub proof fn law_short_room_is_length_mismatch(data: Seq<u8>, buf_size: nat)
    requires
        buf_size < declared_len(data) + HEADER_LEN,
    ensures
        unframed(buf_size, data) == Err::<(nat, Seq<u8>, nat), FramingError>(
            FramingError::LengthMismatch,
        ),
{
    let got = data.take(received_len(buf_size, data.len()) as int);
    if got.len() >= HEADER_LEN {
        assert(got.take(HEADER_LEN as int) =~= data.take(HEADER_LEN as int));
    }
}

/// A framed receive hands out a payload only of the length that the header
/// declares, and only where the datagram holds the header and that many
/// bytes within the room of the receive.
pub proof fn law_unframed_payload_len(data: Seq<u8>, buf_size: nat)
    ensures
        unframed(buf_size, data) matches Ok((received, payload, len)) ==> {
            &&& payload.len() == len
            &&& received == len + HEADER_LEN
            &&& received <= buf_size
            &&& received <= data.len()
            &&& len == declared_len(data)
            &&& payload == data.subrange(HEADER_LEN as int, received as int)
        },
{
    let got = data.take(received_len(buf_size, data.len()) as int);
    if got.len() >= HEADER_LEN {
        assert(got.take(HEADER_LEN as int) =~= data.take(HEADER_LEN as int));
        assert(got.skip(HEADER_LEN as int) =~= data.subrange(HEADER_LEN as int, got.len() as int));
    }
}

/// Fixed-record exactness. A byte image sent as a record and received with
/// its own size as the expected size comes back exactly. Received with any
/// other expected size it fails with `SizeMismatch`.
pub proof fn law_record_exact(image: Seq<u8>, fds: Option<Seq<RawFd>>, size: nat)
    ensures
        record(image.len(), sent(image, fds).data) == Ok::<Seq<u8>, FramingError>(image),
        size != image.len() ==> record(size, sent(image, fds).data) == Err::<
            Seq<u8>,
            FramingError,
        >(FramingError::SizeMismatch),
{
}

/// A receive with the room of `record_room` shows whether a datagram has the
/// size of the record: what the channel cuts off beyond that room does not
/// turn a longer datagram into a record.
pub proof fn law_record_room(data: Seq<u8>, size: nat, room: nat)
    requires
        room > size,
    ensures
        record(size, data.take(received_len(room, data.len()) as int)) == record(size, data),
{
    let got = data.take(received_len(room, data.len()) as int);
    if data.len() == size {
        assert(got =~= data);
    }
}

/// Descriptor passing. Where the descriptors of one send arrive as one
/// rights message, one descriptor of the receiving process for each that
/// was sent, and the receiver has room for all of them, the receive hands
/// out exactly as many descriptors as were sent: those that arrived, in
/// their order.
pub proof fn law_descriptors_pass(fds: Seq<RawFd>, arrived: Seq<RawFd>, capacity: nat)
    requires
        arrived.len() == fds.len(),
        capacity >= fds.len(),
    ensures
        descriptor_count(accepted(control_for(Some(arrived)), capacity)) == fds.len(),
        fds.len() >= 1 ==> accepted(control_for(Some(arrived)), capacity) == Some(arrived),
{
    let control = control_for(Some(arrived));
    reveal_with_fuel(last_rights, 2);
    assert(control.drop_last() =~= Seq::empty());
    assert(arrived.take(arrived.len() as int) =~= arrived);
}

/// No descriptors. A datagram sent without descriptors hands none to the
/// receiver, whatever room the receiver has for them.
pub proof fn law_no_descriptors(payload: Seq<u8>, capacity: nat)
    ensures
        accepted(sent(payload, None).control, capacity) == None::<Seq<RawFd>>,
{
}

/// A receive never hands out more descriptors than it has room for.
pub proof fn law_descriptors_bounded(control: Seq<ControlMessageView>, capacity: nat)
    ensures
        descriptor_count(accepted(control, capacity)) <= capacity,
        accepted(control, capacity) matches Some(list) ==> list.len() >= 1,
{
}

} // verus!
