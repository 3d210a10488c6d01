use hourglass::display::{Color, DisplayBuffer, Point, WINDOW_BLACK, WINDOW_WHITE};
use hourglass::hardware::{RecordingSpi, SpiInterface};
use hourglass::render_loop::{RenderState, Screen};

#[test]
fn countdown_redraws_only_when_the_seconds_change() {
    let mut state = RenderState::new();
    let step = state.step(true, 10_000, 500);
    assert_eq!(step.screen, Some(Screen::Clock(9)));
    assert!(!step.play_audio && !step.stop_timer);
    let step = state.step(true, 10_000, 1_000);
    assert_eq!(step.screen, None);
    let step = state.step(true, 10_000, 2_000);
    assert_eq!(step.screen, Some(Screen::Clock(8)));
}

#[test]
fn after_the_countdown_the_display_blinks_and_the_alarm_starts_once() {
    let mut state = RenderState::new();
    let step = state.step(true, 10_000, 10_000);
    assert_eq!(step.screen, Some(Screen::White));
    assert!(step.play_audio);
    let step = state.step(true, 10_000, 10_250);
    assert_eq!(step.screen, None);
    assert!(!step.play_audio);
    let step = state.step(true, 10_000, 10_500);
    assert_eq!(step.screen, Some(Screen::Black));
    let step = state.step(true, 10_000, 11_000);
    assert_eq!(step.screen, Some(Screen::White));
    let step = state.step(true, 10_000, 130_000);
    assert!(step.stop_timer);
    assert_eq!(step.screen, None);
}

#[test]
fn a_stopped_timer_shows_the_welcome_screen_once() {
    let mut state = RenderState::new();
    assert_eq!(state.step(false, 0, 5).screen, Some(Screen::Welcome));
    assert_eq!(state.step(false, 0, 6).screen, None);
    state.step(true, 100_000, 6);
    assert_eq!(state.step(false, 0, 7).screen, Some(Screen::Welcome));
}

#[test]
fn window_pixels_put_the_panel_top_row_first() {
    let mut display = DisplayBuffer::new();
    display.set_pixel_color(&Point { x: 3, y: 127 }, &Color::White);
    display.set_pixel_color(&Point { x: 0, y: 0 }, &Color::White);
    let pixels = display.window_pixels();
    assert_eq!(pixels.len(), 4096);
    assert_eq!(pixels[3], WINDOW_WHITE);
    assert_eq!(pixels[4096 - 32], WINDOW_WHITE);
    assert_eq!(pixels[0], WINDOW_BLACK);
    assert_eq!(pixels.iter().filter(|p| **p == WINDOW_WHITE).count(), 2);
}

#[test]
fn recording_bus_keeps_transfers_and_their_outcomes() {
    let mut bus = RecordingSpi::new();
    assert!(bus.send_bytes(&[1, 2, 3]).is_ok());
    assert_eq!(bus.transfers, vec![vec![1u8, 2, 3]]);
    assert_eq!(bus.outcomes, vec![true]);
    let mut refusing = RecordingSpi::new_failing();
    assert!(refusing.send_bytes(&[9]).is_err());
    assert_eq!(refusing.outcomes, vec![false]);
    assert_eq!(refusing.transfers, vec![vec![9u8]]);
}
