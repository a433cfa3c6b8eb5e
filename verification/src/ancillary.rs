//! Descriptors as ancillary data: how a send attaches them to a datagram and
//! how a receive recovers them.

use vstd::prelude::*;
use crate::buffers::min_nat;
use crate::message::{
    ControlMessage, ControlMessageView, RawFd, control_view, descriptor_list, descriptor_vec,
};

verus! {

/// The ancillary data of a send: one rights message that holds the
/// descriptors where the caller supplied a list, nothing where it did not.
pub open spec fn control_for(fds: Option<Seq<RawFd>>) -> Seq<ControlMessageView> {
    match fds {
        Some(list) => seq![ControlMessageView::ScmRights(list)],
        None => Seq::empty(),
    }
}

/// The descriptors that one control message carries.
pub open spec fn rights(message: ControlMessageView) -> Seq<RawFd> {
    match message {
        ControlMessageView::ScmRights(list) => list,
        ControlMessageView::Other => Seq::empty(),
    }
}

/// The descriptors of the last control message that carries at least one;
/// empty where no message does.
pub open spec fn last_rights(control: Seq<ControlMessageView>) -> Seq<RawFd>
    decreases control.len(),
{
    if control.len() == 0 {
        Seq::empty()
    } else if rights(control.last()).len() >= 1 {
        rights(control.last())
    } else {
        last_rights(control.drop_last())
    }
}

/// What a receive with room for `capacity` descriptors hands to its caller:
/// the first `capacity` descriptors of `last_rights`, and `None` where that
/// leaves none.
pub open spec fn accepted(control: Seq<ControlMessageView>, capacity: nat) -> Option<Seq<RawFd>> {
    let found = last_rights(control);
    let kept = found.take(min_nat(found.len(), capacity) as int);
    if kept.len() == 0 {
        None
    } else {
        Some(kept)
    }
}

/// Builds the ancillary data of a send.
pub fn attach(fds: Option<&[RawFd]>) -> (control: Vec<ControlMessage>)
    ensures
        control_view(control@) == control_for(descriptor_list(fds)),
{
    let mut control: Vec<ControlMessage> = Vec::new();
    match fds {
        Some(list) => {
            let owned: Vec<RawFd> = copy_descriptors(list, list.len());
            assert(owned@ =~= list@);
            control.push(ControlMessage::ScmRights(owned));
            assert(control_view(control@) =~= control_for(descriptor_list(fds)));
        },
        None => {
            assert(control_view(control@) =~= control_for(descriptor_list(fds)));
        },
    }
    control
}

/// Copies the first `count` descriptors of `list`.
fn copy_descriptors(list: &[RawFd], count: usize) -> (copy: Vec<RawFd>)
    requires
        count <= list@.len(),
    ensures
        copy@ == list@.take(count as int),
{
    let mut copy: Vec<RawFd> = Vec::new();
    let mut i: usize = 0;
    while i < count
        invariant
            i <= count <= list@.len(),
            copy@ == list@.take(i as int),
        decreases count - i,
    {
        copy.push(list[i]);
        assert(copy@ =~= list@.take(i + 1));
        i = i + 1;
    }
    copy
}

/// Recovers the descriptors that arrived with a datagram, for a receiver with
/// room for `capacity` of them.
pub fn collect(control: &[ControlMessage], capacity: usize) -> (fds: Option<Vec<RawFd>>)
    ensures
        descriptor_vec(fds) == accepted(control_view(control@), capacity as nat),
{
    let ghost all = control_view(control@);
    let mut found: Option<usize> = None;
    let mut i: usize = 0;
    proof {
        assert(all.take(0) =~= Seq::<ControlMessageView>::empty());
    }
    while i < control.len()
        invariant
            i <= control@.len(),
            all == control_view(control@),
            match found {
                Some(at) => at < i && last_rights(all.take(i as int)) == rights(all[at as int])
                    && rights(all[at as int]).len() >= 1,
                None => last_rights(all.take(i as int)).len() == 0,
            },
        decreases control@.len() - i,
    {
        proof {
            let next = all.take(i + 1);
            assert(next.last() == all[i as int]);
            assert(next.drop_last() =~= all.take(i as int));
        }
        match &control[i] {
            ControlMessage::ScmRights(list) => {
                if list.len() >= 1 {
                    found = Some(i);
                }
            },
            ControlMessage::Other => {},
        }
        i = i + 1;
    }
    proof {
        assert(all.take(i as int) =~= all);
    }
    match found {
        Some(at) => {
            match &control[at] {
                ControlMessage::ScmRights(list) => {
                    let count: usize = if list.len() <= capacity {
                        list.len()
                    } else {
                        capacity
                    };
                    if count == 0 {
                        None
                    } else {
                        Some(copy_descriptors(list.as_slice(), count))
                    }
                },
                ControlMessage::Other => None,
            }
        },
        None => None,
    }
}

} // verus!
