//! Monochrome graphics for a 32 x 128 pixel OLED panel: a bit-packed pixel
//! buffer, line and box rasterisation on it, and the controller protocol that
//! brings the panel up, presents frames and powers it down. Around it: the
//! countdown timer's state, the block clock drawn from it, the render loop's
//! decisions, and the wave file reader for the alarm sound.
pub mod display;
pub mod hardware;
pub mod raspberry_display;
pub mod minifb_display;
pub mod wav_reader;
pub mod audio;
pub mod block_clock;
pub mod hourglass;
pub mod render_loop;
