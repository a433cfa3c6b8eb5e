use tiny_nix_ipc::ancillary::{attach, collect};
use tiny_nix_ipc::ControlMessage;

#[test]
fn attach_wraps_the_list_in_one_rights_message() {
    assert_eq!(attach(Some(&[5, 6])), vec![ControlMessage::ScmRights(vec![5, 6])]);
    assert_eq!(attach(Some(&[])), vec![ControlMessage::ScmRights(vec![])]);
}

#[test]
fn attach_of_no_list_is_no_message() {
    assert_eq!(attach(None), Vec::<ControlMessage>::new());
}

#[test]
fn collect_of_no_message_is_none() {
    assert_eq!(collect(&[], 0), None);
    assert_eq!(collect(&[], 4), None);
}

#[test]
fn collect_passes_other_messages_over() {
    assert_eq!(collect(&[ControlMessage::Other], 4), None);
    let control =
        [ControlMessage::Other, ControlMessage::ScmRights(vec![5]), ControlMessage::Other];
    assert_eq!(collect(&control, 4), Some(vec![5]));
}

#[test]
fn collect_passes_empty_rights_over() {
    assert_eq!(collect(&[ControlMessage::ScmRights(vec![])], 4), None);
    let control = [ControlMessage::ScmRights(vec![5, 6]), ControlMessage::ScmRights(vec![])];
    assert_eq!(collect(&control, 4), Some(vec![5, 6]));
}

#[test]
fn collect_takes_the_last_rights_that_hold_a_descriptor() {
    let control = [ControlMessage::ScmRights(vec![5, 6]), ControlMessage::ScmRights(vec![7])];
    assert_eq!(collect(&control, 4), Some(vec![7]));
}

#[test]
fn collect_keeps_to_the_capacity() {
    let control = [ControlMessage::ScmRights(vec![5, 6, 7])];
    assert_eq!(collect(&control, 3), Some(vec![5, 6, 7]));
    assert_eq!(collect(&control, 2), Some(vec![5, 6]));
    assert_eq!(collect(&control, 1), Some(vec![5]));
    assert_eq!(collect(&control, 0), None);
    assert_eq!(collect(&control, usize::MAX), Some(vec![5, 6, 7]));
}
