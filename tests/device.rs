use utouch::capture::decode_record;
use utouch::capture::dispatch_frame;
use utouch::capture::process_read;
use utouch::capture::TouchPoint;
use utouch::device::CIdentDevice;
use utouch::device::CTypeTransformCoordinates;
use utouch::device::HostAction;
use utouch::device::InputDevice;
use utouch::model::BuildReader;

fn untrack(slot: usize) -> Vec<HostAction> {
    vec![HostAction::SetSlot(slot), HostAction::SetTrackingId(-1), HostAction::Synchronize]
}

#[test]
fn pointer_mode_one_moves_then_clicks_once() {
    let mut device = InputDevice::new(CIdentDevice::X11Mouse(CTypeTransformCoordinates::Ver01));
    let moved = device.push_move(0x11A5, 0, 10, 20);
    assert_eq!(moved, vec![HostAction::MoveAbsolute { x: 20, y: 710 }]);
    assert_eq!(device.free_time(), vec![HostAction::Click]);
    assert_eq!(device.free_time(), vec![]);
}

#[test]
fn pointer_ignores_repeats_and_other_fingers() {
    let mut device = InputDevice::new(CIdentDevice::X11Mouse(CTypeTransformCoordinates::Ver01));
    assert_eq!(device.push_move(0, 2, 10, 20), vec![]);
    assert_eq!(device.push_move(0, -1, 10, 20), vec![]);
    assert_eq!(device.free_time(), vec![]);
    assert_eq!(device.push_move(0, 1, 10, 20).len(), 1);
    assert_eq!(device.push_move(0, 1, 10, 20), vec![]);
    device.drop_event();
    assert_eq!(device.push_move(0, 0, 11, 20), vec![HostAction::MoveAbsolute { x: 20, y: 709 }]);
}

#[test]
fn pointer_mode_two_scales_both_axes() {
    let mut device = InputDevice::new(CIdentDevice::X11Mouse(CTypeTransformCoordinates::Ver02));
    assert_eq!(device.push_move(0, 0, 10, 20), vec![HostAction::MoveAbsolute { x: 9, y: 355 }]);
    assert_eq!(
        device.push_move(0, 0, 1000, 1520),
        vec![HostAction::MoveAbsolute { x: 720, y: -140 }]
    );
}

#[test]
fn two_fingers_take_two_slots_and_are_released() {
    let mut device = InputDevice::new(CIdentDevice::UInput);
    device.initialize_event_aggregator();
    device.init_press();
    let first = device.push_move(0, 3, 100, 200);
    assert_eq!(
        first,
        vec![
            HostAction::SetSlot(0),
            HostAction::Press,
            HostAction::SetTrackingId(3),
            HostAction::SetPositionX(200),
            HostAction::SetPositionY(620),
            HostAction::Synchronize,
        ]
    );
    device.drop_event();
    let second = device.push_move(0, 5, 10, 20);
    assert_eq!(second[0], HostAction::SetSlot(1));
    assert_eq!(second[1], HostAction::Press);
    device.drop_event();
    let mut expected = vec![
        HostAction::SetSlot(0),
        HostAction::SetTrackingId(3),
        HostAction::Release,
        HostAction::Synchronize,
        HostAction::SetSlot(1),
        HostAction::SetTrackingId(5),
        HostAction::Release,
        HostAction::Synchronize,
    ];
    expected.extend(untrack(2));
    expected.extend(untrack(1));
    expected.extend(untrack(0));
    assert_eq!(device.free_time(), expected);
    let mut after = vec![];
    after.extend(untrack(0));
    assert_eq!(device.free_time(), after);
}

#[test]
fn known_finger_is_not_pressed_again() {
    let mut device = InputDevice::new(CIdentDevice::UInput);
    assert!(device.push_move(0, 3, 1, 1).contains(&HostAction::Press));
    assert!(!device.push_move(0, 3, 2, 2).contains(&HostAction::Press));
}

#[test]
fn record_fields_are_unpacked() {
    assert_eq!(
        decode_record(&[16, 0x4, 0x31, 0x4, 0xC, 0x40, 0x0]),
        TouchPoint { id: -12, x: 0x431, y: 0xC0 }
    );
    assert_eq!(
        decode_record(&[0x11, 0x51, 0xF2, 0x1C, 0x8, 0x80, 0x0]),
        TouchPoint { id: 65, x: 0xCF2, y: 0x80 }
    );
    assert_eq!(decode_record(&[0, 0x80, 0, 0, 0, 0, 0]).id, 112);
    assert_eq!(decode_record(&[0, 16, 0, 0, 0xFF, 0, 0]).y, 0xFF0);
}

#[test]
fn frame_without_records_lifts_fingers() {
    let mut device = InputDevice::new(CIdentDevice::X11Mouse(CTypeTransformCoordinates::Ver01));
    let acts = dispatch_frame(&mut device, 0, &[0, 16, 16, 10, 0, 20, 0, 0], 0);
    assert_eq!(acts, vec![HostAction::MoveAbsolute { x: 320, y: 710 }]);
    assert_eq!(dispatch_frame(&mut device, 0, &[], 0), vec![HostAction::Click]);
}

#[test]
fn nonzero_end_marker_only_advances_cursor() {
    let mut device = InputDevice::new(CIdentDevice::UInput);
    let acts = dispatch_frame(&mut device, 0, &[0, 16, 16, 10, 0, 20, 0, 0], 1);
    assert_eq!(acts, vec![]);
    let mut expected = untrack(1);
    expected.extend(untrack(0));
    assert_eq!(device.free_time(), expected);
}

#[test]
fn read_with_record_asks_for_another_read() {
    let mut decoder = BuildReader::empty();
    let mut device = InputDevice::new(CIdentDevice::X11Mouse(CTypeTransformCoordinates::Ver01));
    let data = [0x5A, 0xA5, 0x11, 8, 0, 16, 16, 10, 0, 20, 0, 0, 0, 0x5A, 0x5A];
    let (acts, again) = process_read(&mut decoder, &mut device, &data);
    assert_eq!(acts, vec![HostAction::MoveAbsolute { x: 320, y: 710 }]);
    assert!(again);
    let (acts, again) = process_read(&mut decoder, &mut device, &[0xA5, 0x11, 8, 0]);
    assert_eq!(acts, vec![]);
    assert!(again);
    let (acts, again) = process_read(&mut decoder, &mut device, &[16, 16, 10, 0, 20, 0, 0, 0]);
    assert_eq!(acts, vec![]);
    assert!(again);
    let (acts, again) = process_read(&mut decoder, &mut device, &[0xA5, 0x11, 0, 0]);
    assert_eq!(acts, vec![HostAction::Click]);
    assert!(!again);
}

#[test]
fn padding_flood_ends_the_read() {
    let mut decoder = BuildReader::empty();
    let mut device = InputDevice::new(CIdentDevice::X11Mouse(CTypeTransformCoordinates::Ver01));
    let mut data = vec![0x5Au8; 200];
    data.extend([0xA5, 0x11, 0, 0]);
    let (acts, again) = process_read(&mut decoder, &mut device, &data);
    assert_eq!(acts, vec![]);
    assert!(!again);
    assert_eq!(decoder.get_line(), (0, &[][..], 0));
}
