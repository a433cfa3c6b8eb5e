//! The endpoint of a channel and the frames that it sends and receives.
//!
//! Each send computes the datagram that the host hands to the channel in one
//! call. Each receive takes the datagram that one call of the host brought
//! and computes what the caller gets from it.

use vstd::prelude::*;
use crate::ancillary::{accepted, attach, collect, control_for};
use crate::buffers::{
    append, contents, copy_range, fill, filled, gather, received_len, scatter, vec_contents, zeros,
};
use crate::errors::FramingError;
use crate::header::{HEADER_LEN, declared_len, decode_header, encode_header, header_of};
use crate::message::{Datagram, DatagramView, RawFd, descriptor_list, descriptor_vec};

verus! {

/// The datagram of a send: the bytes, and the descriptors as ancillary data.
pub open spec fn sent(data: Seq<u8>, fds: Option<Seq<RawFd>>) -> DatagramView {
    DatagramView { data, control: control_for(fds) }
}

/// The bytes of a frame: the header that declares the length of the payload,
/// then the payload.
pub open spec fn framed(payload: Seq<u8>) -> Seq<u8> {
    header_of(payload.len()) + payload
}

/// What a framed receive with room for `buf_size` bytes, the header counted
/// in, makes of the bytes of a datagram: the number of bytes received, the
/// payload and the declared length, where the number received is the
/// declared length plus the length of the header.
pub open spec fn unframed(buf_size: nat, data: Seq<u8>) -> Result<
    (nat, Seq<u8>, nat),
    FramingError,
> {
    let got = data.take(received_len(buf_size, data.len()) as int);
    if got.len() == declared_len(got) + HEADER_LEN {
        Ok((got.len(), got.skip(HEADER_LEN as int), declared_len(got)))
    } else {
        Err(FramingError::LengthMismatch)
    }
}

/// What a receive of a record of `size` bytes makes of the bytes of a
/// datagram: the record, where the datagram has exactly `size` bytes.
pub open spec fn record(size: nat, data: Seq<u8>) -> Result<Seq<u8>, FramingError> {
    if data.len() == size {
        Ok(data)
    } else {
        Err(FramingError::SizeMismatch)
    }
}

/// The room that the receive of a record of `size` bytes asks of the
/// channel: one byte more than the record, so that a datagram that is longer
/// than the record is seen to be longer.
pub fn record_room(size: usize) -> (room: Option<usize>)
    ensures
        room == if size < usize::MAX {
            Some((size + 1) as usize)
        } else {
            None
        },
{
    size.checked_add(1)
}

/// One end of a connected datagram channel, named by its descriptor.
#[derive(Debug)]
pub struct Socket {
    fd: RawFd,
}

impl View for Socket {
    type V = RawFd;

    closed spec fn view(&self) -> RawFd {
        self.fd
    }
}

impl Socket {
    /// Takes `fd` as the descriptor of an endpoint, without checking it.
    pub fn adopt(fd: RawFd) -> (socket: Socket)
        ensures
            socket@ == fd,
    {
        Socket { fd }
    }

    /// The descriptor of the endpoint. The endpoint keeps it.
    pub fn as_raw_fd(&self) -> (fd: RawFd)
        ensures
            fd == self@,
    {
        self.fd
    }

    /// Gives the descriptor up to the caller and ends the endpoint.
    pub fn into_raw_fd(self) -> (fd: RawFd)
        ensures
            fd == self@,
    {
        self.fd
    }

    /// The datagram that sends the buffers of `iov`, one after the other,
    /// with the descriptors `fds` attached.
    pub fn send_iovec(&mut self, iov: &[&[u8]], fds: Option<&[RawFd]>) -> (datagram: Datagram)
        ensures
            *final(self) == *old(self),
            datagram@ == sent(contents(iov@).flatten(), descriptor_list(fds)),
    {
        Datagram { data: gather(iov), control: attach(fds) }
    }

    /// The datagram that sends the bytes of `data` as they are, with the
    /// descriptors `fds` attached.
    pub fn send_slice(&mut self, data: &[u8], fds: Option<&[RawFd]>) -> (datagram: Datagram)
        ensures
            *final(self) == *old(self),
            datagram@ == sent(data@, descriptor_list(fds)),
    {
        let mut bytes: Vec<u8> = Vec::new();
        append(&mut bytes, data);
        assert(bytes@ =~= data@);
        Datagram { data: bytes, control: attach(fds) }
    }

    /// The datagram that sends the bytes of `data` as a frame: their number
    /// in a header of eight bytes, least significant byte first, then the
    /// bytes themselves.
    pub fn send_slice_with_len(
        &mut self,
        data: &[u8],
        fds: Option<&[RawFd]>,
    ) -> (datagram: Datagram)
        ensures
            *final(self) == *old(self),
            datagram@ == sent(framed(data@), descriptor_list(fds)),
    {
        let mut bytes: Vec<u8> = encode_header(data.len() as u64);
        append(&mut bytes, data);
        Datagram { data: bytes, control: attach(fds) }
    }

    /// The datagram that sends the byte image of a record. On the wire it
    /// does not differ from `send_slice`: that the image has a fixed size is
    /// for the receiver to check.
    pub fn send_struct_raw(&mut self, image: &[u8], fds: Option<&[RawFd]>) -> (datagram: Datagram)
        ensures
            *final(self) == *old(self),
            datagram@ == sent(image@, descriptor_list(fds)),
    {
        self.send_slice(image, fds)
    }

    /// Receives `datagram` into the buffers of `iov`, filling each in turn,
    /// with room for `capacity` descriptors. Returns the number of bytes
    /// received and the descriptors.
    pub fn recv_into_iovec(
        &mut self,
        iov: &mut [Vec<u8>],
        capacity: usize,
        datagram: &Datagram,
    ) -> (received: (usize, Option<Vec<RawFd>>))
        ensures
            *final(self) == *old(self),
            final(iov)@.len() == old(iov)@.len(),
            forall|k: int|
                0 <= k < old(iov)@.len() ==> final(iov)@[k]@.len() == old(iov)@[k]@.len(),
            vec_contents(final(iov)@).flatten() == filled(
                vec_contents(old(iov)@).flatten(),
                datagram@.data,
            ),
            received.0 == received_len(
                vec_contents(old(iov)@).flatten().len(),
                datagram@.data.len(),
            ),
            descriptor_vec(received.1) == accepted(datagram@.control, capacity as nat),
    {
        let bytes: usize = scatter(iov, datagram.data.as_slice());
        let fds = collect(datagram.control.as_slice(), capacity);
        (bytes, fds)
    }

    /// Receives `datagram` into `buf`, with room for `capacity` descriptors.
    /// Returns the number of bytes received and the descriptors.
    pub fn recv_into_slice(
        &mut self,
        buf: &mut [u8],
        capacity: usize,
        datagram: &Datagram,
    ) -> (received: (usize, Option<Vec<RawFd>>))
        ensures
            *final(self) == *old(self),
            final(buf)@ == filled(old(buf)@, datagram@.data),
            received.0 == received_len(old(buf)@.len(), datagram@.data.len()),
            descriptor_vec(received.1) == accepted(datagram@.control, capacity as nat),
    {
        let bytes: usize = fill(buf, datagram.data.as_slice(), 0);
        assert(datagram.data@.skip(0) =~= datagram.data@);
        let fds = collect(datagram.control.as_slice(), capacity);
        (bytes, fds)
    }

    /// Receives `datagram` into a new buffer of `buf_size` zero bytes, with
    /// room for `capacity` descriptors. Returns the number of bytes received,
    /// the buffer and the descriptors. No buffer has more than `isize::MAX`
    /// bytes.
    pub fn recv_into_buf(
        &mut self,
        buf_size: usize,
        capacity: usize,
        datagram: &Datagram,
    ) -> (received: (usize, Vec<u8>, Option<Vec<RawFd>>))
        requires
            buf_size <= isize::MAX,
        ensures
            *final(self) == *old(self),
            received.1@ == filled(zeros(buf_size as nat), datagram@.data),
            received.0 == received_len(buf_size as nat, datagram@.data.len()),
            descriptor_vec(received.2) == accepted(datagram@.control, capacity as nat),
    {
        let mut buf: Vec<u8> = vec![0u8; buf_size];
        assert(buf@ =~= zeros(buf_size as nat));
        let bytes: usize = fill(buf.as_mut_slice(), datagram.data.as_slice(), 0);
        assert(datagram.data@.skip(0) =~= datagram.data@);
        let fds = collect(datagram.control.as_slice(), capacity);
        (bytes, buf, fds)
    }

    /// Receives `datagram` as a frame, with room for `buf_size` bytes, the
    /// eight bytes of the header counted in, and for `capacity` descriptors.
    /// Returns the number of bytes received, the payload, the length that
    /// the header declares and the descriptors. Fails where the number of
    /// bytes received is not the declared length plus the eight bytes of the
    /// header.
    pub fn recv_into_buf_with_len(
        &mut self,
        buf_size: usize,
        capacity: usize,
        datagram: &Datagram,
    ) -> (received: Result<(usize, Vec<u8>, u64, Option<Vec<RawFd>>), FramingError>)
        ensures
            *final(self) == *old(self),
            match received {
                Ok((bytes, payload, len, fds)) => {
                    &&& unframed(buf_size as nat, datagram@.data) == Ok::<
                        (nat, Seq<u8>, nat),
                        FramingError,
                    >((bytes as nat, payload@, len as nat))
                    &&& descriptor_vec(fds) == accepted(datagram@.control, capacity as nat)
                },
                Err(e) => unframed(buf_size as nat, datagram@.data) == Err::<
                    (nat, Seq<u8>, nat),
                    FramingError,
                >(e),
            },
    {
        let data = datagram.data.as_slice();
        let bytes: usize = if buf_size <= data.len() {
            buf_size
        } else {
            data.len()
        };
        let ghost got = data@.take(bytes as int);
        let len: u64 = decode_header(vstd::slice::slice_subrange(data, 0, bytes));
        assert(data@.subrange(0, bytes as int) =~= got);
        if bytes < HEADER_LEN || (bytes - HEADER_LEN) as u64 != len {
            return Err(FramingError::LengthMismatch);
        }
        let payload: Vec<u8> = copy_range(data, HEADER_LEN, bytes);
        assert(data@.subrange(HEADER_LEN as int, bytes as int) =~= got.skip(HEADER_LEN as int));
        let fds = collect(datagram.control.as_slice(), capacity);
        Ok((bytes, payload, len, fds))
    }

    /// Receives `datagram` as the byte image of a record of `size` bytes,
    /// with room for `capacity` descriptors. Returns the image and the
    /// descriptors. Fails where the datagram does not have exactly `size`
    /// bytes. The host receives with `record_room(size)`.
    pub fn recv_struct_raw(
        &mut self,
        size: usize,
        capacity: usize,
        datagram: &Datagram,
    ) -> (received: Result<(Vec<u8>, Option<Vec<RawFd>>), FramingError>)
        ensures
            *final(self) == *old(self),
            match received {
                Ok((image, fds)) => {
                    &&& record(size as nat, datagram@.data) == Ok::<Seq<u8>, FramingError>(image@)
                    &&& descriptor_vec(fds) == accepted(datagram@.control, capacity as nat)
                },
                Err(e) => record(size as nat, datagram@.data) == Err::<Seq<u8>, FramingError>(e),
            },
    {
        let data = datagram.data.as_slice();
        if data.len() != size {
            return Err(FramingError::SizeMismatch);
        }
        let image: Vec<u8> = copy_range(data, 0, size);
        assert(data@.subrange(0, size as int) =~= data@);
        let fds = collect(datagram.control.as_slice(), capacity);
        Ok((image, fds))
    }
}

} // verus!
