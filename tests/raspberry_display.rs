use hourglass::display::{Color, DisplayControl, DriverState, Point};
use hourglass::hardware::{DelayInterface, HostDelay, RecordingDelay, RecordingPin, RecordingSpi, TransportFailure};
use std::cell::RefCell;
use hourglass::raspberry_display::RaspberryDisplay;

type TestDisplay = RaspberryDisplay<RecordingSpi, RecordingPin, RecordingDelay>;

fn get_new_recorded_display() -> TestDisplay {
    RaspberryDisplay::new_generic(RecordingSpi::new(), RecordingPin::new(), RecordingPin::new(), RecordingDelay::new())
}

#[test]
fn test_reset_sequence() {
    let mut display = get_new_recorded_display();
    display.reset();
    assert_eq!(display.reset_pin.history, vec![true, false, true]);
    assert_eq!(display.delay.requests, vec![10, 10, 10]);
    assert!(display.dc_pin.history.is_empty());
    assert!(display.spi.transfers.is_empty());
}

#[test]
fn test_swap() {
    let mut display = get_new_recorded_display();
    display.state = DriverState::Active;
    display.fb.buffer = [0xAAu8; 512];
    assert!(display.swap().is_ok());
    display.fb.buffer = [0xCCu8; 512];
    assert!(display.swap().is_ok());
    assert_eq!(display.dc_pin.history, vec![true, true]);
    assert_eq!(display.spi.transfers, vec![vec![0xAAu8; 512], vec![0xCCu8; 512]]);
}

#[test]
fn test_display_command_sending() {
    let mut display = get_new_recorded_display();
    assert!(display.send_display_commands(&[0xABu8, 0xCDu8]).is_ok());
    assert_eq!(display.dc_pin.history, vec![false]);
    assert_eq!(display.spi.transfers, vec![vec![0xABu8, 0xCDu8]]);
}

#[test]
fn test_init_sequence() {
    let mut display = get_new_recorded_display();
    assert!(display.init().is_ok());
    assert_eq!(display.reset_pin.history, vec![true, false, true]);
    assert_eq!(display.dc_pin.history, vec![false, false, false, false, false, true]);
    assert_eq!(
        display.spi.transfers,
        vec![
            vec![0xAEu8],
            vec![0x20, 0x01],
            vec![0x21, 0x00, 0x7F],
            vec![0x22, 0x00, 0x03],
            vec![0xAC],
            vec![0u8; 512],
        ]
    );
}

#[test]
fn deinit_blanks_sends_waits_and_holds_reset_low() {
    let mut display = get_new_recorded_display();
    assert!(display.init().is_ok());
    display.fb.buffer = [0xAAu8; 512];
    display.spi.transfers.clear();
    display.spi.outcomes.clear();
    display.dc_pin.history.clear();
    display.reset_pin.history.clear();
    display.delay.requests.clear();
    assert!(display.deinit().is_ok());
    assert_eq!(display.dc_pin.history, vec![true]);
    assert_eq!(display.spi.transfers, vec![vec![0u8; 512]]);
    assert_eq!(display.delay.requests, vec![10]);
    assert_eq!(display.reset_pin.history, vec![false]);
    assert!(display.fb.buffer.iter().all(|b| *b == 0));
}

#[test]
fn init_stops_at_the_first_failed_transfer() {
    let mut display =
        RaspberryDisplay::new_generic(RecordingSpi::new_failing(), RecordingPin::new(), RecordingPin::new(), RecordingDelay::new());
    assert_eq!(display.init(), Err(TransportFailure::Bus));
    assert_eq!(display.reset_pin.history, vec![true, false, true]);
    assert_eq!(display.dc_pin.history, vec![false]);
    assert_eq!(display.spi.transfers, vec![vec![0xAEu8]]);
}

#[test]
fn deinit_stops_when_the_frame_transfer_fails() {
    let mut display =
        RaspberryDisplay::new_generic(RecordingSpi::new_failing(), RecordingPin::new(), RecordingPin::new(), RecordingDelay::new());
    display.state = DriverState::Active;
    assert_eq!(display.deinit(), Err(TransportFailure::Bus));
    assert_eq!(display.state, DriverState::Active);
    assert_eq!(display.spi.transfers, vec![vec![0u8; 512]]);
    assert!(display.reset_pin.history.is_empty());
    assert!(display.delay.requests.is_empty());
}

#[test]
fn swap_sends_what_was_drawn_through_the_frame_accessor() {
    let mut display = get_new_recorded_display();
    display.state = DriverState::Active;
    display.fb().set_pixel_color(&Point { x: 9, y: 1 }, &Color::White);
    assert!(display.swap().is_ok());
    let mut expected = vec![0u8; 512];
    expected[5] = 0b0000_0010;
    assert_eq!(display.spi.transfers, vec![expected]);
}

#[test]
fn driver_states_follow_init_and_deinit() {
    let mut display = get_new_recorded_display();
    assert_eq!(display.state, DriverState::Uninitialized);
    assert!(display.init().is_ok());
    assert_eq!(display.state, DriverState::Active);
    assert!(display.deinit().is_ok());
    assert_eq!(display.state, DriverState::Deinitialized);
    let mut failing =
        RaspberryDisplay::new_generic(RecordingSpi::new_failing(), RecordingPin::new(), RecordingPin::new(), RecordingDelay::new());
    assert!(failing.init().is_err());
    assert_eq!(failing.state, DriverState::Configuring);
    assert_eq!(failing.spi.outcomes, vec![false]);
}

#[test]
fn host_delay_hands_each_pause_to_the_host() {
    let seen = RefCell::new(Vec::new());
    let mut delay = HostDelay::new(|ms: u64| seen.borrow_mut().push(ms));
    delay.delay_ms(10);
    delay.delay_ms(3);
    drop(delay);
    assert_eq!(seen.into_inner(), vec![10, 3]);
}
