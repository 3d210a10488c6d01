use vstd::prelude::*;

verus! {

/// The bus, a pin or the window could not carry out a request.
#[derive(PartialEq, Eq, Structural, Clone, Copy, Debug)]
pub enum TransportFailure {
    /// The bus reported an error or took only part of the bytes.
    Bus,
    /// The window could not show the frame.
    Window,
}

/// A byte-oriented bus to the display controller.
pub trait SpiInterface {
    /// Every byte sequence handed to the bus so far, oldest first.
    spec fn sent(&self) -> Seq<Seq<u8>>;

    /// For each transfer so far, whether the bus reported it delivered.
    spec fn delivered(&self) -> Seq<bool>;

    /// The bus is known to deliver every transfer from now on.
    spec fn accepts_all(&self) -> bool;

    /// Transmits `bytes` in order as one transfer.
    fn send_bytes(&mut self, bytes: &[u8]) -> (r: Result<(), TransportFailure>)
        ensures
            final(self).sent() == old(self).sent().push(bytes@),
            final(self).delivered() == old(self).delivered().push(r is Ok),
            old(self).accepts_all() ==> r is Ok && final(self).accepts_all(),
    ;
}

/// A binary output line.
pub trait PinInterface {
    /// Every level the pin has been set to so far, oldest first.
    spec fn levels(&self) -> Seq<bool>;

    /// Drives the pin high (`true`) or low (`false`).
    fn set_pin(&mut self, value: bool)
        ensures
            final(self).levels() == old(self).levels().push(value),
    ;
}

/// A blocking pause of the calling thread.
pub trait DelayInterface {
    /// Every pause requested so far, in milliseconds, oldest first.
    spec fn pauses(&self) -> Seq<u64>;

    /// Waits for about `ms` milliseconds.
    fn delay_ms(&mut self, ms: u64)
        ensures
            final(self).pauses() == old(self).pauses().push(ms),
    ;
}

/// A bus that keeps every transfer instead of sending it; it can be set to
/// refuse every transfer.
pub struct RecordingSpi {
    pub transfers: Vec<Vec<u8>>,
    pub outcomes: Vec<bool>,
    pub failing: bool,
}

impl RecordingSpi {
    /// A bus with nothing recorded that accepts every transfer.
    pub fn new() -> (r: RecordingSpi)
        ensures
            r.sent() == Seq::<Seq<u8>>::empty(),
            r.delivered() == Seq::<bool>::empty(),
            !r.failing,
    {
        let r = RecordingSpi { transfers: Vec::new(), outcomes: Vec::new(), failing: false };
        proof {
            assert(r.sent() =~= Seq::<Seq<u8>>::empty());
        }
        r
    }

    /// A bus with nothing recorded that refuses every transfer.
    pub fn new_failing() -> (r: RecordingSpi)
        ensures
            r.sent() == Seq::<Seq<u8>>::empty(),
            r.delivered() == Seq::<bool>::empty(),
            r.failing,
    {
        let r = RecordingSpi { transfers: Vec::new(), outcomes: Vec::new(), failing: true };
        proof {
            assert(r.sent() =~= Seq::<Seq<u8>>::empty());
        }
        r
    }
}

fn copy_bytes(bytes: &[u8]) -> (r: Vec<u8>)
    ensures
        r@ == bytes@,
{
    let mut r: Vec<u8> = Vec::new();
    let mut i: usize = 0;
    while i < bytes.len()
        invariant
            i <= bytes@.len(),
            r@ == bytes@.subrange(0, i as int),
        decreases bytes@.len() - i,
    {
        r.push(bytes[i]);
        i = i + 1;
        proof {
            assert(r@ =~= bytes@.subrange(0, i as int));
        }
    }
    proof {
        assert(r@ =~= bytes@);
    }
    r
}

impl SpiInterface for RecordingSpi {
    open spec fn sent(&self) -> Seq<Seq<u8>> {
        self.transfers@.map_values(|t: Vec<u8>| t@)
    }

    open spec fn delivered(&self) -> Seq<bool> {
        self.outcomes@
    }

    open spec fn accepts_all(&self) -> bool {
        !self.failing
    }

    fn send_bytes(&mut self, bytes: &[u8]) -> (r: Result<(), TransportFailure>)
        ensures
            r is Ok <==> !old(self).failing,
            final(self).failing == old(self).failing,
    {
        let copy = copy_bytes(bytes);
        self.transfers.push(copy);
        proof {
            assert(self.sent() =~= old(self).sent().push(bytes@));
        }
        self.outcomes.push(!self.failing);
        if self.failing {
            Err(TransportFailure::Bus)
        } else {
            Ok(())
        }
    }
}

/// A pin that keeps every level it is set to.
pub struct RecordingPin {
    pub history: Vec<bool>,
}

impl RecordingPin {
    /// A pin that has not been set yet.
    pub fn new() -> (r: RecordingPin)
        ensures
            r.levels() == Seq::<bool>::empty(),
    {
        RecordingPin { history: Vec::new() }
    }
}

impl PinInterface for RecordingPin {
    open spec fn levels(&self) -> Seq<bool> {
        self.history@
    }

    fn set_pin(&mut self, value: bool) {
        self.history.push(value);
    }
}

/// A delay that keeps each requested pause instead of waiting.
pub struct RecordingDelay {
    pub requests: Vec<u64>,
}

impl RecordingDelay {
    /// A delay with nothing recorded.
    pub fn new() -> (r: RecordingDelay)
        ensures
            r.pauses() == Seq::<u64>::empty(),
    {
        RecordingDelay { requests: Vec::new() }
    }
}

impl DelayInterface for RecordingDelay {
    open spec fn pauses(&self) -> Seq<u64> {
        self.requests@
    }

    fn delay_ms(&mut self, ms: u64) {
        self.requests.push(ms);
    }
}

/// A delay that hands each pause to a sleeping function of the host
/// program, such as one that blocks the thread.
pub struct HostDelay<F: Fn(u64)> {
    sleep: F,
    requested: Ghost<Seq<u64>>,
}

impl<F: Fn(u64)> HostDelay<F> {
    #[verifier::type_invariant]
    spec fn callable(self) -> bool {
        forall|ms: u64| #[trigger] self.sleep.requires((ms,))
    }

    /// Pauses through `sleep`, which must accept every duration.
    pub fn new(sleep: F) -> (r: HostDelay<F>)
        requires
            forall|ms: u64| #[trigger] sleep.requires((ms,)),
        ensures
            r.pauses() == Seq::<u64>::empty(),
    {
        HostDelay { sleep, requested: Ghost(Seq::empty()) }
    }
}

impl<F: Fn(u64)> DelayInterface for HostDelay<F> {
    closed spec fn pauses(&self) -> Seq<u64> {
        self.requested@
    }

    fn delay_ms(&mut self, ms: u64) {
        proof {
            use_type_invariant(&*self);
        }
        (self.sleep)(ms);
        self.requested = Ghost(self.requested@.push(ms));
    }
}

#[verifier::external_type_specification]
#[verifier::external_body]
pub struct ExSpi(rppal::spi::Spi);

#[verifier::external_type_specification]
#[verifier::external_body]
pub struct ExSpiError(rppal::spi::Error);

#[verifier::external_type_specification]
#[verifier::external_body]
pub struct ExOutputPin(rppal::gpio::OutputPin);

/// Relies on rppal's `Spi::write`: sends the buffer to the slave device in
/// one transfer and reports how many bytes were written.
#[verifier::external_body]
fn spi_write(spi: &mut rppal::spi::Spi, bytes: &[u8]) -> (r: Result<usize, rppal::spi::Error>) {
    spi.write(bytes)
}

/// Relies on rppal's `OutputPin::set_high`: drives the pin high.
#[verifier::external_body]
fn pin_set_high(pin: &mut rppal::gpio::OutputPin) {
    pin.set_high()
}

/// Relies on rppal's `OutputPin::set_low`: drives the pin low.
#[verifier::external_body]
fn pin_set_low(pin: &mut rppal::gpio::OutputPin) {
    pin.set_low()
}

/// The panel's SPI bus on a Raspberry Pi.
pub struct RppalSpi {
    spi: rppal::spi::Spi,
    history: Ghost<Seq<Seq<u8>>>,
    outcomes: Ghost<Seq<bool>>,
}

impl RppalSpi {
    /// Takes over an opened SPI bus.
    pub fn new(spi: rppal::spi::Spi) -> (r: RppalSpi)
        ensures
            r.sent() == Seq::<Seq<u8>>::empty(),
            r.delivered() == Seq::<bool>::empty(),
    {
        RppalSpi { spi, history: Ghost(Seq::empty()), outcomes: Ghost(Seq::empty()) }
    }
}

impl SpiInterface for RppalSpi {
    closed spec fn sent(&self) -> Seq<Seq<u8>> {
        self.history@
    }

    closed spec fn delivered(&self) -> Seq<bool> {
        self.outcomes@
    }

    /// A real bus can fail at any transfer.
    closed spec fn accepts_all(&self) -> bool {
        false
    }

    /// Succeeds only when the whole of `bytes` went out.
    fn send_bytes(&mut self, bytes: &[u8]) -> (r: Result<(), TransportFailure>) {
        let written = spi_write(&mut self.spi, bytes);
        self.history = Ghost(self.history@.push(bytes@));
        let r = match written {
            Ok(n) => if n == bytes.len() {
                Ok(())
            } else {
                Err(TransportFailure::Bus)
            },
            Err(_) => Err(TransportFailure::Bus),
        };
        self.outcomes = Ghost(self.outcomes@.push(r is Ok));
        r
    }
}

/// A GPIO output line on a Raspberry Pi.
pub struct RppalPin {
    pin: rppal::gpio::OutputPin,
    history: Ghost<Seq<bool>>,
}

impl RppalPin {
    /// Takes over a pin configured as output.
    pub fn new(pin: rppal::gpio::OutputPin) -> (r: RppalPin)
        ensures
            r.levels() == Seq::<bool>::empty(),
    {
        RppalPin { pin, history: Ghost(Seq::empty()) }
    }
}

impl PinInterface for RppalPin {
    closed spec fn levels(&self) -> Seq<bool> {
        self.history@
    }

    fn set_pin(&mut self, value: bool) {
        if value {
            pin_set_high(&mut self.pin);
        } else {
            pin_set_low(&mut self.pin);
        }
        self.history = Ghost(self.history@.push(value));
    }
}

} // verus!
