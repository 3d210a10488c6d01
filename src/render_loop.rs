use vstd::prelude::*;

verus! {

/// How long the display blinks and the alarm may sound after the countdown
/// runs out.
pub const MAX_BLINK_TIME_MS: u128 = 120_000;

/// Half a blink period.
pub const BLINK_PHASE_MS: u128 = 500;

/// What the display should show next.
#[derive(PartialEq, Eq, Structural, Clone, Copy, Debug)]
pub enum Screen {
    /// The block clock for this many remaining seconds, on black.
    Clock(u128),
    /// All white.
    White,
    /// All black.
    Black,
    /// The welcome picture.
    Welcome,
}

/// What one pass of the render loop asks of the program around it.
#[derive(PartialEq, Eq, Structural, Clone, Copy, Debug)]
pub struct Step {
    /// A screen to draw and present, if any changed.
    pub screen: Option<Screen>,
    /// Start the alarm sound.
    pub play_audio: bool,
    /// The blink time is over: stop the timer at the current time.
    pub stop_timer: bool,
}

/// What the render loop remembers between passes so that it redraws only
/// on change.
#[derive(PartialEq, Eq, Structural, Clone, Copy, Debug)]
pub struct RenderState {
    pub last_remaining_seconds: u128,
    pub welcome_screen_shown: bool,
    pub is_filled_white: bool,
    pub end_audio_played: bool,
}

/// The end of the blink time for a countdown ending at `target`.
pub open spec fn blink_end(target: int) -> int {
    if target + MAX_BLINK_TIME_MS <= u128::MAX {
        target + MAX_BLINK_TIME_MS
    } else {
        u128::MAX as int
    }
}

/// The blink is in its white phase at `now`.
pub open spec fn white_phase(now: int) -> bool {
    (now / BLINK_PHASE_MS as int) % 2 == 0
}

impl RenderState {
    /// Nothing shown yet.
    pub fn new() -> (r: RenderState)
        ensures
            r.last_remaining_seconds == 0,
            !r.welcome_screen_shown,
            !r.is_filled_white,
            !r.end_audio_played,
    {
        RenderState {
            last_remaining_seconds: 0,
            welcome_screen_shown: false,
            is_filled_white: false,
            end_audio_played: false,
        }
    }

    /// Decides one pass of the render loop at `now_ms`, for a timer that is
    /// `ticking` towards `target_time_ms`. While counting down, the clock is
    /// redrawn when the remaining whole seconds change. In the blink time
    /// after the countdown, the display alternates white and black every
    /// half second and the alarm starts once. After that the timer is to be
    /// stopped. A stopped timer shows the welcome picture once.
    pub fn step(&mut self, ticking: bool, target_time_ms: u128, now_ms: u128) -> (r: Step)
        ensures
            ({
                let s = *old(self);
                let t = *final(self);
                if ticking {
                    if now_ms < target_time_ms {
                        let remaining = (target_time_ms - now_ms) / 1000;
                        &&& !t.welcome_screen_shown && !t.is_filled_white && !t.end_audio_played
                        &&& t.last_remaining_seconds == remaining
                        &&& r.screen == if remaining != s.last_remaining_seconds {
                            Some(Screen::Clock(remaining as u128))
                        } else {
                            None
                        }
                        &&& !r.play_audio && !r.stop_timer
                    } else if now_ms < blink_end(target_time_ms as int) {
                        let white = white_phase(now_ms as int);
                        &&& !t.welcome_screen_shown && t.last_remaining_seconds == 0
                        &&& t.end_audio_played
                        &&& r.play_audio == !s.end_audio_played
                        &&& !r.stop_timer
                        &&& if white && !s.is_filled_white {
                            r.screen == Some(Screen::White) && t.is_filled_white
                        } else if !white && s.is_filled_white {
                            r.screen == Some(Screen::Black) && !t.is_filled_white
                        } else {
                            r.screen is None && t.is_filled_white == s.is_filled_white
                        }
                    } else {
                        &&& !t.welcome_screen_shown && !t.end_audio_played
                        &&& t.last_remaining_seconds == s.last_remaining_seconds
                        &&& t.is_filled_white == s.is_filled_white
                        &&& r.screen is None && !r.play_audio && r.stop_timer
                    }
                } else if !s.welcome_screen_shown {
                    &&& t.welcome_screen_shown && t.last_remaining_seconds == 0
                    &&& !t.is_filled_white && t.end_audio_played == s.end_audio_played
                    &&& r.screen == Some(Screen::Welcome) && !r.play_audio && !r.stop_timer
                } else {
                    &&& t == s
                    &&& r.screen is None && !r.play_audio && !r.stop_timer
                }
            }),
    {
        let mut step = Step { screen: None, play_audio: false, stop_timer: false };
        if ticking {
            self.welcome_screen_shown = false;
            if now_ms < target_time_ms {
                self.is_filled_white = false;
                self.end_audio_played = false;
                let remaining_seconds = (target_time_ms - now_ms) / 1000;
                if remaining_seconds != self.last_remaining_seconds {
                    self.last_remaining_seconds = remaining_seconds;
                    step.screen = Some(Screen::Clock(remaining_seconds));
                }
            } else if now_ms < target_time_ms.saturating_add(MAX_BLINK_TIME_MS) {
                self.last_remaining_seconds = 0;
                let fill_white = (now_ms / BLINK_PHASE_MS) % 2 == 0;
                if fill_white && !self.is_filled_white {
                    self.is_filled_white = true;
                    step.screen = Some(Screen::White);
                } else if !fill_white && self.is_filled_white {
                    self.is_filled_white = false;
                    step.screen = Some(Screen::Black);
                }
                if !self.end_audio_played {
                    step.play_audio = true;
                    self.end_audio_played = true;
                }
            } else {
                step.stop_timer = true;
                self.end_audio_played = false;
            }
        } else if !self.welcome_screen_shown {
            self.welcome_screen_shown = true;
            self.last_remaining_seconds = 0;
            self.is_filled_white = false;
            step.screen = Some(Screen::Welcome);
        }
        step
    }
}

} // verus!
