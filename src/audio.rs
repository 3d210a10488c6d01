use vstd::prelude::*;

verus! {

/// Something that plays a sound for a while, implemented by the program's
/// audio back end.
pub trait Player {
    /// Starts the sound for up to `duration`.
    fn play(&mut self, duration: std::time::Duration);

    /// Stops the sound and rewinds it.
    fn stop(&mut self);

    /// The sound is loaded and can be played.
    fn is_ready(&self) -> bool;
}

} // verus!
