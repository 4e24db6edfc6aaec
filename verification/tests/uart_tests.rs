use pro_controller::uart::{frame_payload, resync_step};

#[test]
fn aligned_frame_gives_its_payload() {
    let rx = [0xa2, 1, 2, 3, 4, 5, 6, 7, 0xa3];
    assert_eq!(frame_payload(&rx), Some([1, 2, 3, 4, 5, 6, 7]));
}

#[test]
fn frames_out_of_step_give_nothing() {
    assert_eq!(frame_payload(&[0xa3, 1, 2, 3, 4, 5, 6, 7, 0xa3]), None);
    assert_eq!(frame_payload(&[0xa2, 1, 2, 3, 4, 5, 6, 7, 0xa2]), None);
    assert_eq!(frame_payload(&[0, 0, 0, 0, 0, 0, 0, 0, 0]), None);
}

#[test]
fn resync_ends_at_the_end_marker() {
    assert_eq!(resync_step(0, Some(0x12)), (0, false));
    assert_eq!(resync_step(0, None), (0, false));
    assert_eq!(resync_step(0, Some(0xa3)), (1, true));
}
