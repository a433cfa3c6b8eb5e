use tiny_nix_ipc::socket::record_room;
use tiny_nix_ipc::{ControlMessage, Datagram, FramingError, Socket};

fn datagram(data: &[u8]) -> Datagram {
    Datagram { data: data.to_vec(), control: Vec::new() }
}

#[test]
fn endpoint_keeps_its_descriptor() {
    let socket = Socket::adopt(42);
    assert_eq!(socket.as_raw_fd(), 42);
    assert_eq!(socket.as_raw_fd(), 42);
    assert_eq!(socket.into_raw_fd(), 42);
}

#[test]
fn sends_leave_the_endpoint_as_it_was() {
    let mut socket = Socket::adopt(5);
    let _ = socket.send_slice(&[1], None);
    let _ = socket.send_slice_with_len(&[1], None);
    let _ = socket.recv_into_buf(1, 0, &datagram(&[1]));
    assert_eq!(socket.as_raw_fd(), 5);
}

#[test]
fn send_iovec_gathers_the_buffers() {
    let mut tx = Socket::adopt(3);
    let sent = tx.send_iovec(&[&[1, 2][..], &[][..], &[3][..]], Some(&[8, 9]));
    assert_eq!(sent.data, vec![1, 2, 3]);
    assert_eq!(sent.control, vec![ControlMessage::ScmRights(vec![8, 9])]);
}

#[test]
fn send_of_empty_payload() {
    let mut tx = Socket::adopt(3);
    assert_eq!(tx.send_slice(&[], None), datagram(&[]));
    assert_eq!(tx.send_slice_with_len(&[], None), datagram(&[0; 8]));
    assert_eq!(tx.send_struct_raw(&[], None), datagram(&[]));
}

#[test]
fn send_struct_raw_is_send_slice_on_the_wire() {
    let mut tx = Socket::adopt(3);
    let image = [0xC0, 0, 0, 0, 0xEF, 0xBE, 0xAD, 0xDE];
    assert_eq!(tx.send_struct_raw(&image, Some(&[4])), tx.send_slice(&image, Some(&[4])));
}

#[test]
fn recv_into_iovec_scatters_and_counts() {
    let mut rx = Socket::adopt(4);
    let mut iov = vec![vec![0u8; 8], vec![0u8; 2], vec![7u8; 4]];
    let arrived = Datagram {
        data: vec![4, 0, 0, 0, 0, 0, 0, 0, 0xDE, 0xAD, 0xBE, 0xEF],
        control: vec![ControlMessage::ScmRights(vec![6])],
    };
    let (bytes, fds) = rx.recv_into_iovec(&mut iov, 1, &arrived);
    assert_eq!(bytes, 12);
    assert_eq!(fds, Some(vec![6]));
    assert_eq!(iov, vec![vec![4, 0, 0, 0, 0, 0, 0, 0], vec![0xDE, 0xAD], vec![0xBE, 0xEF, 7, 7]]);
}

#[test]
fn recv_into_buf_pads_with_zeros() {
    let mut rx = Socket::adopt(4);
    let (bytes, buf, fds) = rx.recv_into_buf(6, 0, &datagram(&[1, 2, 3, 4]));
    assert_eq!(bytes, 4);
    assert_eq!(buf, vec![1, 2, 3, 4, 0, 0]);
    assert_eq!(fds, None);
}

#[test]
fn recv_into_buf_cuts_off_what_does_not_fit() {
    let mut rx = Socket::adopt(4);
    let (bytes, buf, _) = rx.recv_into_buf(3, 0, &datagram(&[1, 2, 3, 4]));
    assert_eq!(bytes, 3);
    assert_eq!(buf, vec![1, 2, 3]);
    let (bytes, buf, _) = rx.recv_into_buf(0, 0, &datagram(&[1, 2, 3, 4]));
    assert_eq!(bytes, 0);
    assert_eq!(buf, Vec::<u8>::new());
}

#[test]
fn framed_receive_of_empty_payload() {
    let mut rx = Socket::adopt(4);
    let received = rx.recv_into_buf_with_len(8, 0, &datagram(&[0; 8]));
    assert_eq!(received, Ok((8, vec![], 0, None)));
}

#[test]
fn framed_receive_without_a_whole_header_is_length_mismatch() {
    let mut rx = Socket::adopt(4);
    for len in 0..8 {
        let received = rx.recv_into_buf_with_len(64, 0, &datagram(&vec![0u8; len]));
        assert_eq!(received, Err(FramingError::LengthMismatch));
    }
}

#[test]
fn framed_receive_of_partial_payload_is_length_mismatch() {
    let mut rx = Socket::adopt(4);
    let short = datagram(&[4, 0, 0, 0, 0, 0, 0, 0, 0xDE, 0xAD, 0xBE]);
    assert_eq!(rx.recv_into_buf_with_len(64, 0, &short), Err(FramingError::LengthMismatch));
}

#[test]
fn framed_receive_of_surplus_bytes_is_length_mismatch() {
    let mut rx = Socket::adopt(4);
    let long = datagram(&[2, 0, 0, 0, 0, 0, 0, 0, 0xDE, 0xAD, 0xBE]);
    assert_eq!(rx.recv_into_buf_with_len(64, 0, &long), Err(FramingError::LengthMismatch));
}

#[test]
fn framed_receive_into_small_buffer_is_length_mismatch() {
    let mut rx = Socket::adopt(4);
    let frame = datagram(&[4, 0, 0, 0, 0, 0, 0, 0, 0xDE, 0xAD, 0xBE, 0xEF]);
    for buf_size in 0..12 {
        let received = rx.recv_into_buf_with_len(buf_size, 0, &frame);
        assert_eq!(received, Err(FramingError::LengthMismatch));
    }
    for buf_size in [12, 13, 24, usize::MAX] {
        let received = rx.recv_into_buf_with_len(buf_size, 0, &frame);
        assert_eq!(received, Ok((12, vec![0xDE, 0xAD, 0xBE, 0xEF], 4, None)));
    }
}

#[test]
fn framed_receive_with_huge_declared_length_is_length_mismatch() {
    let mut rx = Socket::adopt(4);
    let mut data = vec![0xFF; 8];
    data.extend_from_slice(&[1, 2, 3]);
    let received = rx.recv_into_buf_with_len(usize::MAX, 0, &datagram(&data));
    assert_eq!(received, Err(FramingError::LengthMismatch));
}

#[test]
fn framed_receive_hands_out_descriptors() {
    let mut rx = Socket::adopt(4);
    let arrived = Datagram {
        data: vec![1, 0, 0, 0, 0, 0, 0, 0, 0x2A],
        control: vec![ControlMessage::ScmRights(vec![10, 11])],
    };
    let received = rx.recv_into_buf_with_len(9, 2, &arrived);
    assert_eq!(received, Ok((9, vec![0x2A], 1, Some(vec![10, 11]))));
}

#[test]
fn record_of_the_exact_size() {
    let mut rx = Socket::adopt(4);
    let arrived = Datagram {
        data: vec![1, 2, 3, 4],
        control: vec![ControlMessage::ScmRights(vec![10])],
    };
    assert_eq!(rx.recv_struct_raw(4, 1, &arrived), Ok((vec![1, 2, 3, 4], Some(vec![10]))));
    assert_eq!(rx.recv_struct_raw(0, 0, &datagram(&[])), Ok((vec![], None)));
}

#[test]
fn record_of_another_size_is_size_mismatch() {
    let mut rx = Socket::adopt(4);
    let arrived = datagram(&[1, 2, 3, 4]);
    for size in [0, 1, 3, 5, 8, usize::MAX] {
        assert_eq!(rx.recv_struct_raw(size, 0, &arrived), Err(FramingError::SizeMismatch));
    }
}

#[test]
fn record_room_is_one_byte_more() {
    assert_eq!(record_room(0), Some(1));
    assert_eq!(record_room(8), Some(9));
    assert_eq!(record_room(usize::MAX - 1), Some(usize::MAX));
    assert_eq!(record_room(usize::MAX), None);
}

#[test]
fn error_descriptions() {
    assert_eq!(
        FramingError::LengthMismatch.description(),
        "length of received message doesn't match the length declared in its header"
    );
    assert_eq!(
        FramingError::SizeMismatch.description(),
        "length of received message doesn't match the size of the record"
    );
    assert_ne!(FramingError::LengthMismatch, FramingError::SizeMismatch);
}
