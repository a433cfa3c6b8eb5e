//! The unit of one send or one receive: a datagram with its ancillary data.

use vstd::prelude::*;

verus! {

/// A descriptor: the integer handle of an open kernel resource.
pub type RawFd = i32;

/// One item of the ancillary data that travels with a datagram.
#[derive(Debug, PartialEq, Eq)]
pub enum ControlMessage {
    /// Descriptors handed over to the receiving process, in order.
    ScmRights(Vec<RawFd>),
    /// Ancillary data of any other kind. It carries no descriptors.
    Other,
}

/// What a `ControlMessage` stands for.
pub enum ControlMessageView {
    ScmRights(Seq<RawFd>),
    Other,
}

impl View for ControlMessage {
    type V = ControlMessageView;

    open spec fn view(&self) -> ControlMessageView {
        match self {
            ControlMessage::ScmRights(fds) => ControlMessageView::ScmRights(fds@),
            ControlMessage::Other => ControlMessageView::Other,
        }
    }
}

/// The views of a list of control messages, in the same order.
pub open spec fn control_view(control: Seq<ControlMessage>) -> Seq<ControlMessageView> {
    Seq::new(control.len(), |i: int| control[i]@)
}

/// One datagram: the bytes that one send hands to the channel, or that one
/// receive took from it, and the ancillary data delivered with them.
#[derive(Debug, PartialEq, Eq)]
pub struct Datagram {
    /// The bytes of the datagram, in wire order.
    pub data: Vec<u8>,
    /// The ancillary data of the datagram, in the order of delivery.
    pub control: Vec<ControlMessage>,
}

/// What a `Datagram` stands for.
pub struct DatagramView {
    pub data: Seq<u8>,
    pub control: Seq<ControlMessageView>,
}

impl View for Datagram {
    type V = DatagramView;

    open spec fn view(&self) -> DatagramView {
        DatagramView { data: self.data@, control: control_view(self.control@) }
    }
}

/// The descriptors that a caller hands to a send, as a plain list.
pub open spec fn descriptor_list(fds: Option<&[RawFd]>) -> Option<Seq<RawFd>> {
    match fds {
        Some(list) => Some(list@),
        None => None,
    }
}

/// The descriptors that a receive hands to its caller, as a plain list.
pub open spec fn descriptor_vec(fds: Option<Vec<RawFd>>) -> Option<Seq<RawFd>> {
    match fds {
        Some(list) => Some(list@),
        None => None,
    }
}

/// How many descriptors a receive handed to its caller.
pub open spec fn descriptor_count(fds: Option<Seq<RawFd>>) -> nat {
    match fds {
        Some(list) => list.len(),
        None => 0,
    }
}

} // verus!
