use vstd::prelude::*;
use crate::display::{DisplayBuffer, DisplayControl, DriverState, uniform, all_pixels, Color};
use crate::hardware::{SpiInterface, PinInterface, DelayInterface, TransportFailure};

verus! {

/// Pause after each edge of the reset sequence, and before powering down.
pub const RESET_INTERVAL_MS: u64 = 10;

/// One step of the conversation with the display controller.
pub enum Signal {
    /// The reset line is driven to a level.
    ResetPin(bool),
    /// The data/command line is driven to a level: low for commands, high
    /// for pixel data.
    DcPin(bool),
    /// One transfer on the bus.
    Bytes(Seq<u8>),
    /// A pause of some milliseconds.
    Wait(u64),
}

/// The transfers among `s`, in order.
pub open spec fn transfers_of(s: Seq<Signal>) -> Seq<Seq<u8>>
    decreases s.len(),
{
    if s.len() == 0 {
        Seq::empty()
    } else {
        let rest = transfers_of(s.drop_last());
        match s.last() {
            Signal::Bytes(b) => rest.push(b),
            _ => rest,
        }
    }
}

/// The reset line levels among `s`, in order.
pub open spec fn reset_levels_of(s: Seq<Signal>) -> Seq<bool>
    decreases s.len(),
{
    if s.len() == 0 {
        Seq::empty()
    } else {
        let rest = reset_levels_of(s.drop_last());
        match s.last() {
            Signal::ResetPin(v) => rest.push(v),
            _ => rest,
        }
    }
}

/// The data/command line levels among `s`, in order.
pub open spec fn dc_levels_of(s: Seq<Signal>) -> Seq<bool>
    decreases s.len(),
{
    if s.len() == 0 {
        Seq::empty()
    } else {
        let rest = dc_levels_of(s.drop_last());
        match s.last() {
            Signal::DcPin(v) => rest.push(v),
            _ => rest,
        }
    }
}

/// The pauses among `s`, in milliseconds, in order.
pub open spec fn waits_of(s: Seq<Signal>) -> Seq<u64>
    decreases s.len(),
{
    if s.len() == 0 {
        Seq::empty()
    } else {
        let rest = waits_of(s.drop_last());
        match s.last() {
            Signal::Wait(ms) => rest.push(ms),
            _ => rest,
        }
    }
}

/// The three-edge reset the controller needs at power-on.
pub open spec fn reset_sequence() -> Seq<Signal> {
    seq![
        Signal::ResetPin(true),
        Signal::Wait(RESET_INTERVAL_MS),
        Signal::ResetPin(false),
        Signal::Wait(RESET_INTERVAL_MS),
        Signal::ResetPin(true),
        Signal::Wait(RESET_INTERVAL_MS),
    ]
}

/// A command: data/command line low, then the command bytes in one transfer.
pub open spec fn command(bytes: Seq<u8>) -> Seq<Signal> {
    seq![Signal::DcPin(false), Signal::Bytes(bytes)]
}

/// A frame: data/command line high, then the whole frame in one transfer.
pub open spec fn frame_transfer(frame: Seq<u8>) -> Seq<Signal> {
    seq![Signal::DcPin(true), Signal::Bytes(frame)]
}

/// The controller set-up: display off; vertical addressing; columns 0 to
/// 127; pages 0 to 3; display on, dimmed.
pub open spec fn setup_sequence() -> Seq<Signal> {
    command(seq![0xAEu8]) + command(seq![0x20u8, 0x01u8]) + command(seq![0x21u8, 0x00u8, 0x7Fu8])
        + command(seq![0x22u8, 0x00u8, 0x03u8]) + command(seq![0xACu8])
}

/// Everything `init` does when nothing fails, for a display holding `frame`.
pub open spec fn init_sequence(frame: Seq<u8>) -> Seq<Signal> {
    reset_sequence() + setup_sequence() + frame_transfer(frame)
}

/// Everything `deinit` does when nothing fails.
pub open spec fn deinit_sequence() -> Seq<Signal> {
    frame_transfer(uniform(0u8)) + seq![Signal::Wait(RESET_INTERVAL_MS), Signal::ResetPin(false)]
}

/// `done` is what ran of `script`: all of it when `ok`; otherwise a
/// beginning of it that ends with the transfer that failed.
pub open spec fn ran(script: Seq<Signal>, done: Seq<Signal>, ok: bool) -> bool {
    &&& done.len() <= script.len()
    &&& done == script.take(done.len() as int)
    &&& ok ==> done.len() == script.len()
    &&& !ok ==> done.len() > 0 && done.last() is Bytes
}

proof fn lemma_ran_after(s1: Seq<Signal>, s2: Seq<Signal>, d: Seq<Signal>, ok: bool)
    requires
        ran(s2, d, ok),
    ensures
        ran(s1 + s2, s1 + d, ok),
{
    assert((s1 + s2).take((s1 + d).len() as int) =~= s1 + d);
}

proof fn lemma_ran_stopped(s1: Seq<Signal>, s2: Seq<Signal>, d: Seq<Signal>)
    requires
        ran(s1, d, false),
    ensures
        ran(s1 + s2, d, false),
{
    assert((s1 + s2).take(d.len() as int) =~= d);
}

proof fn lemma_projections_split(a: Seq<Signal>, b: Seq<Signal>)
    ensures
        transfers_of(a + b) == transfers_of(a) + transfers_of(b),
        reset_levels_of(a + b) == reset_levels_of(a) + reset_levels_of(b),
        dc_levels_of(a + b) == dc_levels_of(a) + dc_levels_of(b),
        waits_of(a + b) == waits_of(a) + waits_of(b),
    decreases b.len(),
{
    if b.len() == 0 {
        assert(a + b =~= a);
        assert(transfers_of(a) + transfers_of(b) =~= transfers_of(a));
        assert(reset_levels_of(a) + reset_levels_of(b) =~= reset_levels_of(a));
        assert(dc_levels_of(a) + dc_levels_of(b) =~= dc_levels_of(a));
        assert(waits_of(a) + waits_of(b) =~= waits_of(a));
    } else {
        lemma_projections_split(a, b.drop_last());
        assert((a + b).drop_last() =~= a + b.drop_last());
        assert((a + b).last() == b.last());
        assert(transfers_of(a + b) =~= transfers_of(a) + transfers_of(b));
        assert(reset_levels_of(a + b) =~= reset_levels_of(a) + reset_levels_of(b));
        assert(dc_levels_of(a + b) =~= dc_levels_of(a) + dc_levels_of(b));
        assert(waits_of(a + b) =~= waits_of(a) + waits_of(b));
    }
}

proof fn lemma_projections_one(x: Signal)
    ensures
        transfers_of(seq![x]) == (match x {
            Signal::Bytes(b) => seq![b],
            _ => Seq::empty(),
        }),
        reset_levels_of(seq![x]) == (match x {
            Signal::ResetPin(v) => seq![v],
            _ => Seq::empty(),
        }),
        dc_levels_of(seq![x]) == (match x {
            Signal::DcPin(v) => seq![v],
            _ => Seq::empty(),
        }),
        waits_of(seq![x]) == (match x {
            Signal::Wait(ms) => seq![ms],
            _ => Seq::empty(),
        }),
{
    let one = seq![x];
    assert(one.drop_last() =~= Seq::<Signal>::empty());
    assert(transfers_of(one.drop_last()) == Seq::<Seq<u8>>::empty());
    assert(reset_levels_of(one.drop_last()) == Seq::<bool>::empty());
    assert(dc_levels_of(one.drop_last()) == Seq::<bool>::empty());
    assert(waits_of(one.drop_last()) == Seq::<u64>::empty());
    match x {
        Signal::Bytes(b) => {
            assert(Seq::<Seq<u8>>::empty().push(b) =~= seq![b]);
        },
        Signal::ResetPin(v) => {
            assert(Seq::<bool>::empty().push(v) =~= seq![v]);
        },
        Signal::DcPin(v) => {
            assert(Seq::<bool>::empty().push(v) =~= seq![v]);
        },
        Signal::Wait(ms) => {
            assert(Seq::<u64>::empty().push(ms) =~= seq![ms]);
        },
    }
}

proof fn lemma_projections_pair(x: Signal, y: Signal)
    ensures
        transfers_of(seq![x, y]) == transfers_of(seq![x]) + transfers_of(seq![y]),
        reset_levels_of(seq![x, y]) == reset_levels_of(seq![x]) + reset_levels_of(seq![y]),
        dc_levels_of(seq![x, y]) == dc_levels_of(seq![x]) + dc_levels_of(seq![y]),
        waits_of(seq![x, y]) == waits_of(seq![x]) + waits_of(seq![y]),
{
    assert(seq![x] + seq![y] =~= seq![x, y]);
    lemma_projections_split(seq![x], seq![y]);
}

proof fn lemma_command_projections(b: Seq<u8>)
    ensures
        transfers_of(command(b)) == seq![b],
        reset_levels_of(command(b)) == Seq::<bool>::empty(),
        dc_levels_of(command(b)) == seq![false],
        waits_of(command(b)) == Seq::<u64>::empty(),
{
    lemma_projections_pair(Signal::DcPin(false), Signal::Bytes(b));
    lemma_projections_one(Signal::DcPin(false));
    lemma_projections_one(Signal::Bytes(b));
    assert(Seq::<Seq<u8>>::empty() + seq![b] =~= seq![b]);
    assert(Seq::<bool>::empty() + Seq::<bool>::empty() =~= Seq::<bool>::empty());
    assert(seq![false] + Seq::<bool>::empty() =~= seq![false]);
    assert(Seq::<u64>::empty() + Seq::<u64>::empty() =~= Seq::<u64>::empty());
}

proof fn lemma_frame_projections(f: Seq<u8>)
    ensures
        transfers_of(frame_transfer(f)) == seq![f],
        reset_levels_of(frame_transfer(f)) == Seq::<bool>::empty(),
        dc_levels_of(frame_transfer(f)) == seq![true],
        waits_of(frame_transfer(f)) == Seq::<u64>::empty(),
{
    lemma_projections_pair(Signal::DcPin(true), Signal::Bytes(f));
    lemma_projections_one(Signal::DcPin(true));
    lemma_projections_one(Signal::Bytes(f));
    assert(Seq::<Seq<u8>>::empty() + seq![f] =~= seq![f]);
    assert(Seq::<bool>::empty() + Seq::<bool>::empty() =~= Seq::<bool>::empty());
    assert(seq![true] + Seq::<bool>::empty() =~= seq![true]);
    assert(Seq::<u64>::empty() + Seq::<u64>::empty() =~= Seq::<u64>::empty());
}

proof fn lemma_reset_projections()
    ensures
        transfers_of(reset_sequence()) == Seq::<Seq<u8>>::empty(),
        reset_levels_of(reset_sequence()) == seq![true, false, true],
        dc_levels_of(reset_sequence()) == Seq::<bool>::empty(),
        waits_of(reset_sequence()) == seq![RESET_INTERVAL_MS, RESET_INTERVAL_MS, RESET_INTERVAL_MS],
{
    let w = Signal::Wait(RESET_INTERVAL_MS);
    let high = seq![Signal::ResetPin(true), w];
    let low = seq![Signal::ResetPin(false), w];
    lemma_projections_pair(Signal::ResetPin(true), w);
    lemma_projections_pair(Signal::ResetPin(false), w);
    lemma_projections_one(Signal::ResetPin(true));
    lemma_projections_one(Signal::ResetPin(false));
    lemma_projections_one(w);
    lemma_projections_split(high, low);
    lemma_projections_split(high + low, high);
    assert(high + low + high =~= reset_sequence());
    assert(transfers_of(reset_sequence()) =~= Seq::<Seq<u8>>::empty());
    assert(reset_levels_of(reset_sequence()) =~= seq![true, false, true]);
    assert(dc_levels_of(reset_sequence()) =~= Seq::<bool>::empty());
    assert(waits_of(reset_sequence()) =~= seq![RESET_INTERVAL_MS, RESET_INTERVAL_MS, RESET_INTERVAL_MS]);
}

/// Bringing up a display whose frame is blank drives the reset line high,
/// low and high; then, for each set-up command, drives the data/command line
/// low and sends the command as one transfer; then drives that line high and
/// sends the 512 zero bytes of the frame as one transfer.
pub proof fn lemma_init_protocol()
    ensures
        init_sequence(uniform(0u8)) == reset_sequence() + command(seq![0xAEu8]) + command(
            seq![0x20u8, 0x01u8],
        ) + command(seq![0x21u8, 0x00u8, 0x7Fu8]) + command(seq![0x22u8, 0x00u8, 0x03u8])
            + command(seq![0xACu8]) + frame_transfer(uniform(0u8)),
        reset_levels_of(init_sequence(uniform(0u8))) == seq![true, false, true],
        dc_levels_of(init_sequence(uniform(0u8))) == seq![false, false, false, false, false, true],
        waits_of(init_sequence(uniform(0u8))) == seq![
            RESET_INTERVAL_MS,
            RESET_INTERVAL_MS,
            RESET_INTERVAL_MS,
        ],
        transfers_of(init_sequence(uniform(0u8))) == seq![
            seq![0xAEu8],
            seq![0x20u8, 0x01u8],
            seq![0x21u8, 0x00u8, 0x7Fu8],
            seq![0x22u8, 0x00u8, 0x03u8],
            seq![0xACu8],
            uniform(0u8),
        ],
{
    let r = reset_sequence();
    let c1 = command(seq![0xAEu8]);
    let c2 = command(seq![0x20u8, 0x01u8]);
    let c3 = command(seq![0x21u8, 0x00u8, 0x7Fu8]);
    let c4 = command(seq![0x22u8, 0x00u8, 0x03u8]);
    let c5 = command(seq![0xACu8]);
    let f = frame_transfer(uniform(0u8));
    lemma_reset_projections();
    lemma_command_projections(seq![0xAEu8]);
    lemma_command_projections(seq![0x20u8, 0x01u8]);
    lemma_command_projections(seq![0x21u8, 0x00u8, 0x7Fu8]);
    lemma_command_projections(seq![0x22u8, 0x00u8, 0x03u8]);
    lemma_command_projections(seq![0xACu8]);
    lemma_frame_projections(uniform(0u8));
    lemma_projections_split(r, c1);
    lemma_projections_split(r + c1, c2);
    lemma_projections_split(r + c1 + c2, c3);
    lemma_projections_split(r + c1 + c2 + c3, c4);
    lemma_projections_split(r + c1 + c2 + c3 + c4, c5);
    lemma_projections_split(r + c1 + c2 + c3 + c4 + c5, f);
    assert(r + setup_sequence() + f =~= r + c1 + c2 + c3 + c4 + c5 + f);
    let all = r + c1 + c2 + c3 + c4 + c5 + f;
    assert(reset_levels_of(all) =~= seq![true, false, true]);
    assert(dc_levels_of(all) =~= seq![false, false, false, false, false, true]);
    assert(waits_of(all) =~= seq![RESET_INTERVAL_MS, RESET_INTERVAL_MS, RESET_INTERVAL_MS]);
    assert(transfers_of(all) =~= seq![
        seq![0xAEu8],
        seq![0x20u8, 0x01u8],
        seq![0x21u8, 0x00u8, 0x7Fu8],
        seq![0x22u8, 0x00u8, 0x03u8],
        seq![0xACu8],
        uniform(0u8),
    ]);
}

/// Powering a display down, whatever its frame held, drives the
/// data/command line high, sends 512 zero bytes as one transfer, pauses, and
/// then drives the reset line low.
pub proof fn lemma_deinit_protocol()
    ensures
        deinit_sequence() == seq![
            Signal::DcPin(true),
            Signal::Bytes(uniform(0u8)),
            Signal::Wait(RESET_INTERVAL_MS),
            Signal::ResetPin(false),
        ],
        dc_levels_of(deinit_sequence()) == seq![true],
        transfers_of(deinit_sequence()) == seq![uniform(0u8)],
        reset_levels_of(deinit_sequence()) == seq![false],
        waits_of(deinit_sequence()) == seq![RESET_INTERVAL_MS],
{
    let f = frame_transfer(uniform(0u8));
    let w = Signal::Wait(RESET_INTERVAL_MS);
    let tail = seq![w, Signal::ResetPin(false)];
    lemma_frame_projections(uniform(0u8));
    lemma_projections_pair(w, Signal::ResetPin(false));
    lemma_projections_one(w);
    lemma_projections_one(Signal::ResetPin(false));
    lemma_projections_split(f, tail);
    assert(deinit_sequence() =~= seq![
        Signal::DcPin(true),
        Signal::Bytes(uniform(0u8)),
        Signal::Wait(RESET_INTERVAL_MS),
        Signal::ResetPin(false),
    ]);
    assert(dc_levels_of(deinit_sequence()) =~= seq![true]);
    assert(transfers_of(deinit_sequence()) =~= seq![uniform(0u8)]);
    assert(reset_levels_of(deinit_sequence()) =~= seq![false]);
    assert(waits_of(deinit_sequence()) =~= seq![RESET_INTERVAL_MS]);
}

/// Every transfer but the last was delivered, and the last exactly when
/// `ok`; with no transfer, `ok` holds.
pub open spec fn delivered_until(flags: Seq<bool>, ok: bool) -> bool {
    &&& forall|k: int| 0 <= k < flags.len() - 1 ==> flags[k]
    &&& if flags.len() == 0 {
        ok
    } else {
        flags.last() == ok
    }
}

proof fn lemma_delivered_concat(f1: Seq<bool>, f2: Seq<bool>, ok: bool)
    requires
        delivered_until(f1, true),
        delivered_until(f2, ok),
    ensures
        delivered_until(f1 + f2, ok),
{
    let f = f1 + f2;
    assert forall|k: int| 0 <= k < f.len() - 1 implies f[k] by {
        if k >= f1.len() {
            assert(f[k] == f2[k - f1.len()]);
        }
    }
    if f2.len() == 0 {
        assert(f =~= f1);
    } else {
        assert(f.last() == f2.last());
    }
}

/// The panel driver: a frame, the bus, the reset and data/command lines,
/// and a delay.
pub struct RaspberryDisplay<T, U, D> {
    pub state: DriverState,
    pub fb: DisplayBuffer,
    pub spi: T,
    pub reset_pin: U,
    pub dc_pin: U,
    pub delay: D,
    /// The signals this driver has put out, in order.
    pub signals: Ghost<Seq<Signal>>,
}

impl<T: SpiInterface, U: PinInterface, D: DelayInterface> RaspberryDisplay<T, U, D> {
    /// `self` is `before` after the signals `done` went out: the bus and the
    /// two lines saw exactly their parts of `done`, and the frame is kept.
    pub open spec fn advanced(&self, before: &Self, done: Seq<Signal>) -> bool {
        &&& self.signals@ == before.signals@ + done
        &&& self.spi.sent() == before.spi.sent() + transfers_of(done)
        &&& self.reset_pin.levels() == before.reset_pin.levels() + reset_levels_of(done)
        &&& self.dc_pin.levels() == before.dc_pin.levels() + dc_levels_of(done)
        &&& self.delay.pauses() == before.delay.pauses() + waits_of(done)
        &&& self.spi.delivered().len() == before.spi.delivered().len() + transfers_of(done).len()
        &&& self.spi.delivered().take(before.spi.delivered().len() as int) == before.spi.delivered()
    }

    /// For each transfer since `before`, whether the bus delivered it.
    pub open spec fn outcomes_since(&self, before: &Self) -> Seq<bool> {
        self.spi.delivered().skip(before.spi.delivered().len() as int)
    }

    /// The signals put out since the driver was in state `before`.
    pub open spec fn since(&self, before: &Self) -> Seq<Signal> {
        self.signals@.skip(before.signals@.len() as int)
    }

    /// Since `before`, the driver ran `script`: all of it when `ok`, else up
    /// to the transfer that failed; the devices saw exactly those signals,
    /// and every transfer before the last one run was delivered.
    pub open spec fn performed(&self, before: &Self, script: Seq<Signal>, ok: bool) -> bool {
        &&& self.signals@.len() >= before.signals@.len()
        &&& self.advanced(before, self.since(before))
        &&& ran(script, self.since(before), ok)
        &&& delivered_until(self.outcomes_since(before), ok)
    }

    proof fn lemma_performed_all(a: &Self, b: &Self, d: Seq<Signal>, ok: bool)
        requires
            b.advanced(a, d),
            delivered_until(b.outcomes_since(a), ok),
            !ok ==> d.len() > 0 && d.last() is Bytes,
        ensures
            b.since(a) == d,
            b.performed(a, d, ok),
    {
        assert(b.since(a) =~= d);
        assert(d.take(d.len() as int) =~= d);
    }

    proof fn lemma_performed_then(a: &Self, b: &Self, c: &Self, s1: Seq<Signal>, s2: Seq<Signal>, ok: bool)
        requires
            b.performed(a, s1, true),
            c.performed(b, s2, ok),
        ensures
            c.performed(a, s1 + s2, ok),
    {
        assert(b.since(a) =~= s1);
        Self::lemma_advanced_chain(a, b, c, s1, c.since(b));
        assert(c.since(a) =~= s1 + c.since(b));
        lemma_ran_after(s1, s2, c.since(b), ok);
        let f1 = b.outcomes_since(a);
        let f2 = c.outcomes_since(b);
        assert(b.spi.delivered() =~= c.spi.delivered().take(b.spi.delivered().len() as int));
        assert(c.outcomes_since(a) =~= f1 + f2);
        lemma_delivered_concat(f1, f2, ok);
    }

    proof fn lemma_performed_stop(a: &Self, b: &Self, s1: Seq<Signal>, s2: Seq<Signal>)
        requires
            b.performed(a, s1, false),
        ensures
            b.performed(a, s1 + s2, false),
    {
        lemma_ran_stopped(s1, s2, b.since(a));
    }

    proof fn lemma_advanced_chain(a: &Self, b: &Self, c: &Self, d1: Seq<Signal>, d2: Seq<Signal>)
        requires
            b.advanced(a, d1),
            c.advanced(b, d2),
        ensures
            c.advanced(a, d1 + d2),
    {
        lemma_projections_split(d1, d2);
        assert(c.spi.delivered().take(a.spi.delivered().len() as int) =~= b.spi.delivered().take(
            a.spi.delivered().len() as int,
        ));
        assert(c.signals@ =~= a.signals@ + (d1 + d2));
        assert(c.spi.sent() =~= a.spi.sent() + transfers_of(d1 + d2));
        assert(c.reset_pin.levels() =~= a.reset_pin.levels() + reset_levels_of(d1 + d2));
        assert(c.dc_pin.levels() =~= a.dc_pin.levels() + dc_levels_of(d1 + d2));
        assert(c.delay.pauses() =~= a.delay.pauses() + waits_of(d1 + d2));
    }

    proof fn lemma_advanced_none(a: &Self)
        ensures
            a.advanced(a, Seq::empty()),
    {
        assert(a.signals@ + Seq::empty() =~= a.signals@);
        assert(a.spi.sent() + Seq::empty() =~= a.spi.sent());
        assert(a.reset_pin.levels() + Seq::empty() =~= a.reset_pin.levels());
        assert(a.dc_pin.levels() + Seq::empty() =~= a.dc_pin.levels());
        assert(a.delay.pauses() + Seq::empty() =~= a.delay.pauses());
        assert(a.spi.delivered().take(a.spi.delivered().len() as int) =~= a.spi.delivered());
    }

    proof fn lemma_advanced_one(before: &Self, after: &Self, x: Signal, delivered: bool)
        requires
            after.spi.delivered() == (match x {
                Signal::Bytes(_) => before.spi.delivered().push(delivered),
                _ => before.spi.delivered(),
            }),
            after.signals@ == before.signals@.push(x),
            after.spi.sent() == (match x {
                Signal::Bytes(b) => before.spi.sent().push(b),
                _ => before.spi.sent(),
            }),
            after.reset_pin.levels() == (match x {
                Signal::ResetPin(v) => before.reset_pin.levels().push(v),
                _ => before.reset_pin.levels(),
            }),
            after.dc_pin.levels() == (match x {
                Signal::DcPin(v) => before.dc_pin.levels().push(v),
                _ => before.dc_pin.levels(),
            }),
            after.delay.pauses() == (match x {
                Signal::Wait(ms) => before.delay.pauses().push(ms),
                _ => before.delay.pauses(),
            }),
        ensures
            after.advanced(before, seq![x]),
    {
        let one = seq![x];
        assert(one.drop_last() =~= Seq::<Signal>::empty());
        assert(one.last() == x);
        assert(transfers_of(one.drop_last()) == Seq::<Seq<u8>>::empty());
        assert(reset_levels_of(one.drop_last()) == Seq::<bool>::empty());
        assert(dc_levels_of(one.drop_last()) == Seq::<bool>::empty());
        assert(waits_of(one.drop_last()) == Seq::<u64>::empty());
        assert(after.delay.pauses() =~= before.delay.pauses() + waits_of(one));
        assert(after.signals@ =~= before.signals@ + one);
        assert(after.spi.sent() =~= before.spi.sent() + transfers_of(one));
        assert(after.reset_pin.levels() =~= before.reset_pin.levels() + reset_levels_of(one));
        assert(after.dc_pin.levels() =~= before.dc_pin.levels() + dc_levels_of(one));
        assert(after.spi.delivered().take(before.spi.delivered().len() as int)
            =~= before.spi.delivered());
    }

    /// A successful `init` on a blank frame: the reset line went high, low,
    /// high with a pause after each edge; the data/command line went low
    /// before each of the five set-up commands and high before the frame;
    /// the bus took the five commands and then the 512 zero bytes, each as
    /// one transfer.
    pub proof fn lemma_init_on_blank_frame(before: &Self, after: &Self)
        requires
            before.fb.buffer@ == uniform(0u8),
            after.performed(before, init_sequence(before.fb.buffer@), true),
        ensures
            after.signals@ == before.signals@ + init_sequence(uniform(0u8)),
            after.reset_pin.levels() == before.reset_pin.levels() + seq![true, false, true],
            after.dc_pin.levels() == before.dc_pin.levels() + seq![false, false, false, false, false, true],
            after.spi.sent() == before.spi.sent() + seq![
                seq![0xAEu8],
                seq![0x20u8, 0x01u8],
                seq![0x21u8, 0x00u8, 0x7Fu8],
                seq![0x22u8, 0x00u8, 0x03u8],
                seq![0xACu8],
                uniform(0u8),
            ],
            after.delay.pauses() == before.delay.pauses() + seq![
                RESET_INTERVAL_MS,
                RESET_INTERVAL_MS,
                RESET_INTERVAL_MS,
            ],
    {
        lemma_init_protocol();
        assert(init_sequence(uniform(0u8)).take(init_sequence(uniform(0u8)).len() as int)
            =~= init_sequence(uniform(0u8)));
    }

    /// A successful `deinit`, whatever the frame held: the data/command line
    /// went high, the bus took 512 zero bytes as one transfer, the driver
    /// paused, and the reset line went low.
    pub proof fn lemma_deinit_sequence(before: &Self, after: &Self)
        requires
            after.performed(before, deinit_sequence(), true),
        ensures
            after.signals@ == before.signals@ + deinit_sequence(),
            after.dc_pin.levels() == before.dc_pin.levels() + seq![true],
            after.spi.sent() == before.spi.sent() + seq![uniform(0u8)],
            after.delay.pauses() == before.delay.pauses() + seq![RESET_INTERVAL_MS],
            after.reset_pin.levels() == before.reset_pin.levels() + seq![false],
    {
        lemma_deinit_protocol();
        assert(deinit_sequence().take(deinit_sequence().len() as int) =~= deinit_sequence());
    }

    /// A driver with a black frame that has sent nothing yet.
    pub fn new_generic(spi: T, reset_pin: U, dc_pin: U, delay: D) -> (r: Self)
        ensures
            r.fb.buffer@ == uniform(0u8),
            all_pixels(r.fb.buffer@, Color::Black),
            r.signals@ == Seq::<Signal>::empty(),
            r.state == DriverState::Uninitialized,
            r.spi == spi,
            r.reset_pin == reset_pin,
            r.dc_pin == dc_pin,
            r.delay == delay,
    {
        RaspberryDisplay {
            state: DriverState::Uninitialized,
            fb: DisplayBuffer::new(),
            spi,
            reset_pin,
            dc_pin,
            delay,
            signals: Ghost(Seq::empty()),
        }
    }

    fn drive_reset(&mut self, level: bool)
        ensures
            final(self).advanced(old(self), seq![Signal::ResetPin(level)]),
            final(self).fb == old(self).fb,
            final(self).state == old(self).state,
            final(self).spi == old(self).spi,
    {
        self.reset_pin.set_pin(level);
        self.signals = Ghost(self.signals@.push(Signal::ResetPin(level)));
        proof {
            Self::lemma_advanced_one(old(self), self, Signal::ResetPin(level), true);
        }
    }

    fn drive_dc(&mut self, level: bool)
        ensures
            final(self).advanced(old(self), seq![Signal::DcPin(level)]),
            final(self).fb == old(self).fb,
            final(self).state == old(self).state,
            final(self).spi == old(self).spi,
    {
        self.dc_pin.set_pin(level);
        self.signals = Ghost(self.signals@.push(Signal::DcPin(level)));
        proof {
            Self::lemma_advanced_one(old(self), self, Signal::DcPin(level), true);
        }
    }

    fn pause(&mut self, ms: u64)
        ensures
            final(self).advanced(old(self), seq![Signal::Wait(ms)]),
            final(self).fb == old(self).fb,
            final(self).state == old(self).state,
            final(self).spi == old(self).spi,
    {
        self.delay.delay_ms(ms);
        self.signals = Ghost(self.signals@.push(Signal::Wait(ms)));
        proof {
            Self::lemma_advanced_one(old(self), self, Signal::Wait(ms), true);
        }
    }

    fn transmit(&mut self, bytes: &[u8]) -> (r: Result<(), TransportFailure>)
        ensures
            final(self).advanced(old(self), seq![Signal::Bytes(bytes@)]),
            final(self).fb == old(self).fb,
            final(self).state == old(self).state,
            final(self).spi.delivered() == old(self).spi.delivered().push(r is Ok),
            old(self).spi.accepts_all() ==> r is Ok && final(self).spi.accepts_all(),
    {
        let r = self.spi.send_bytes(bytes);
        self.signals = Ghost(self.signals@.push(Signal::Bytes(bytes@)));
        proof {
            Self::lemma_advanced_one(old(self), self, Signal::Bytes(bytes@), r is Ok);
        }
        r
    }

    /// Drives the reset line high, low and high again, pausing after each
    /// edge.
    pub fn reset(&mut self)
        ensures
            final(self).performed(old(self), reset_sequence(), true),
            final(self).fb == old(self).fb,
            final(self).state == old(self).state,
            final(self).spi == old(self).spi,
    {
        let ghost s0 = *self;
        self.drive_reset(true);
        let ghost s1 = *self;
        self.pause(RESET_INTERVAL_MS);
        let ghost s2 = *self;
        self.drive_reset(false);
        let ghost s3 = *self;
        self.pause(RESET_INTERVAL_MS);
        let ghost s4 = *self;
        self.drive_reset(true);
        let ghost s5 = *self;
        self.pause(RESET_INTERVAL_MS);
        proof {
            let a = seq![Signal::ResetPin(true)];
            let b = seq![Signal::Wait(RESET_INTERVAL_MS)];
            let c = seq![Signal::ResetPin(false)];
            Self::lemma_advanced_chain(&s0, &s1, &s2, a, b);
            Self::lemma_advanced_chain(&s0, &s2, &s3, a + b, c);
            Self::lemma_advanced_chain(&s0, &s3, &s4, a + b + c, b);
            Self::lemma_advanced_chain(&s0, &s4, &s5, a + b + c + b, a);
            Self::lemma_advanced_chain(&s0, &s5, self, a + b + c + b + a, b);
            assert(a + b + c + b + a + b =~= reset_sequence());
            assert(self.outcomes_since(&s0) =~= Seq::<bool>::empty());
            Self::lemma_performed_all(&s0, self, reset_sequence(), true);
        }
    }

    /// Sends one command: data/command line low, then `commands` as one
    /// transfer.
    pub fn send_display_commands(&mut self, commands: &[u8]) -> (r: Result<(), TransportFailure>)
        ensures
            final(self).performed(old(self), command(commands@), r is Ok),
            final(self).fb == old(self).fb,
            final(self).state == old(self).state,
            old(self).spi.accepts_all() ==> r is Ok && final(self).spi.accepts_all(),
    {
        let ghost s0 = *self;
        self.drive_dc(false);
        let ghost s1 = *self;
        let r = self.transmit(commands);
        proof {
            Self::lemma_advanced_chain(
                &s0,
                &s1,
                self,
                seq![Signal::DcPin(false)],
                seq![Signal::Bytes(commands@)],
            );
            assert(seq![Signal::DcPin(false)] + seq![Signal::Bytes(commands@)] =~= command(
                commands@,
            ));
            assert(self.outcomes_since(&s0) =~= seq![r is Ok]);
            Self::lemma_performed_all(&s0, self, command(commands@), r is Ok);
        }
        r
    }

    /// Configures the controller, one command per transfer, stopping at the
    /// first transfer that fails.
    fn configure(&mut self) -> (r: Result<(), TransportFailure>)
        ensures
            final(self).performed(old(self), setup_sequence(), r is Ok),
            final(self).fb == old(self).fb,
            final(self).state == old(self).state,
            old(self).spi.accepts_all() ==> r is Ok && final(self).spi.accepts_all(),
    {
        let ghost s0 = *self;
        let ghost c1 = command(seq![0xAEu8]);
        let ghost c2 = command(seq![0x20u8, 0x01u8]);
        let ghost c3 = command(seq![0x21u8, 0x00u8, 0x7Fu8]);
        let ghost c4 = command(seq![0x22u8, 0x00u8, 0x03u8]);
        let ghost c5 = command(seq![0xACu8]);
        let display_off = [0xAEu8];
        proof {
            assert(display_off@ =~= seq![0xAEu8]);
        }
        let r = self.send_display_commands(display_off.as_slice());
        if r.is_err() {
            proof {
                Self::lemma_performed_stop(&s0, self, c1, c2);
                Self::lemma_performed_stop(&s0, self, c1 + c2, c3);
                Self::lemma_performed_stop(&s0, self, c1 + c2 + c3, c4);
                Self::lemma_performed_stop(&s0, self, c1 + c2 + c3 + c4, c5);
            }
            return r;
        }
        let ghost s1 = *self;
        let vertical_addressing = [0x20u8, 0x01u8];
        proof {
            assert(vertical_addressing@ =~= seq![0x20u8, 0x01u8]);
        }
        let r = self.send_display_commands(vertical_addressing.as_slice());
        proof {
            Self::lemma_performed_then(&s0, &s1, self, c1, c2, r is Ok);
        }
        if r.is_err() {
            proof {
                Self::lemma_performed_stop(&s0, self, c1 + c2, c3);
                Self::lemma_performed_stop(&s0, self, c1 + c2 + c3, c4);
                Self::lemma_performed_stop(&s0, self, c1 + c2 + c3 + c4, c5);
            }
            return r;
        }
        let ghost s2 = *self;
        let column_range = [0x21u8, 0x00u8, 0x7Fu8];
        proof {
            assert(column_range@ =~= seq![0x21u8, 0x00u8, 0x7Fu8]);
        }
        let r = self.send_display_commands(column_range.as_slice());
        proof {
            Self::lemma_performed_then(&s0, &s2, self, c1 + c2, c3, r is Ok);
        }
        if r.is_err() {
            proof {
                Self::lemma_performed_stop(&s0, self, c1 + c2 + c3, c4);
                Self::lemma_performed_stop(&s0, self, c1 + c2 + c3 + c4, c5);
            }
            return r;
        }
        let ghost s3 = *self;
        let page_range = [0x22u8, 0x00u8, 0x03u8];
        proof {
            assert(page_range@ =~= seq![0x22u8, 0x00u8, 0x03u8]);
        }
        let r = self.send_display_commands(page_range.as_slice());
        proof {
            Self::lemma_performed_then(&s0, &s3, self, c1 + c2 + c3, c4, r is Ok);
        }
        if r.is_err() {
            proof {
                Self::lemma_performed_stop(&s0, self, c1 + c2 + c3 + c4, c5);
            }
            return r;
        }
        let ghost s4 = *self;
        let display_on_dim = [0xACu8];
        proof {
            assert(display_on_dim@ =~= seq![0xACu8]);
        }
        let r = self.send_display_commands(display_on_dim.as_slice());
        proof {
            Self::lemma_performed_then(&s0, &s4, self, c1 + c2 + c3 + c4, c5, r is Ok);
        }
        r
    }

    /// Drives the data/command line high, then sends the whole frame as one
    /// transfer.
    fn send_frame(&mut self) -> (r: Result<(), TransportFailure>)
        ensures
            final(self).performed(old(self), frame_transfer(old(self).fb.buffer@), r is Ok),
            final(self).fb == old(self).fb,
            final(self).state == old(self).state,
            old(self).spi.accepts_all() ==> r is Ok && final(self).spi.accepts_all(),
    {
        let ghost s0 = *self;
        self.drive_dc(true);
        let ghost s1 = *self;
        let r = self.spi.send_bytes(self.fb.buffer.as_slice());
        self.signals = Ghost(self.signals@.push(Signal::Bytes(s0.fb.buffer@)));
        proof {
            Self::lemma_advanced_one(&s1, self, Signal::Bytes(s0.fb.buffer@), r is Ok);
            Self::lemma_advanced_chain(
                &s0,
                &s1,
                self,
                seq![Signal::DcPin(true)],
                seq![Signal::Bytes(s0.fb.buffer@)],
            );
            assert(seq![Signal::DcPin(true)] + seq![Signal::Bytes(s0.fb.buffer@)] =~= frame_transfer(
                s0.fb.buffer@,
            ));
            assert(self.outcomes_since(&s0) =~= seq![r is Ok]);
            Self::lemma_performed_all(&s0, self, frame_transfer(s0.fb.buffer@), r is Ok);
        }
        r
    }
}

impl<T: SpiInterface, U: PinInterface, D: DelayInterface> DisplayControl for RaspberryDisplay<T, U, D> {
    open spec fn state(&self) -> DriverState {
        self.state
    }

    /// Resets the controller, configures it and sends the frame, stopping at
    /// the first transfer that fails. The driver is active once all of it
    /// went through.
    #[verifier::rlimit(50)]
    fn init(&mut self) -> (r: Result<(), TransportFailure>)
        ensures
            final(self).performed(old(self), init_sequence(old(self).fb.buffer@), r is Ok),
            final(self).fb == old(self).fb,
            final(self).state == if r is Ok {
                DriverState::Active
            } else {
                DriverState::Configuring
            },
            old(self).spi.accepts_all() ==> r is Ok && final(self).spi.accepts_all(),
    {
        let ghost s0 = *self;
        self.state = DriverState::Resetting;
        self.reset();
        self.state = DriverState::Configuring;
        let ghost s1 = *self;
        assert(s1.spi == s0.spi);
        let r = self.configure();
        proof {
            Self::lemma_performed_then(&s0, &s1, self, reset_sequence(), setup_sequence(), r is Ok);
        }
        if r.is_err() {
            proof {
                Self::lemma_performed_stop(
                    &s0,
                    self,
                    reset_sequence() + setup_sequence(),
                    frame_transfer(s0.fb.buffer@),
                );
            }
            return r;
        }
        let ghost s2 = *self;
        let r = self.send_frame();
        proof {
            Self::lemma_performed_then(
                &s0,
                &s2,
                self,
                reset_sequence() + setup_sequence(),
                frame_transfer(s0.fb.buffer@),
                r is Ok,
            );
        }
        if r.is_ok() {
            self.state = DriverState::Active;
        }
        r
    }

    /// Blanks the frame, sends it, pauses, and drives the reset line low,
    /// leaving the driver deinitialized; stops if the transfer fails.
    fn deinit(&mut self) -> (r: Result<(), TransportFailure>)
        ensures
            final(self).performed(old(self), deinit_sequence(), r is Ok),
            final(self).fb.buffer@ == uniform(0u8),
            final(self).state == if r is Ok {
                DriverState::Deinitialized
            } else {
                old(self).state
            },
            old(self).spi.accepts_all() ==> r is Ok && final(self).spi.accepts_all(),
    {
        let ghost s0 = *self;
        self.fb.fill_with_black();
        proof {
            Self::lemma_advanced_none(&s0);
            assert(self.outcomes_since(&s0) =~= Seq::<bool>::empty());
            Self::lemma_performed_all(&s0, self, Seq::empty(), true);
        }
        let ghost s1 = *self;
        let r = self.send_frame();
        proof {
            Self::lemma_performed_then(&s0, &s1, self, Seq::empty(), frame_transfer(uniform(0u8)), r is Ok);
            assert(Seq::<Signal>::empty() + frame_transfer(uniform(0u8)) =~= frame_transfer(uniform(0u8)));
        }
        if r.is_err() {
            proof {
                Self::lemma_performed_stop(
                    &s0,
                    self,
                    frame_transfer(uniform(0u8)),
                    seq![Signal::Wait(RESET_INTERVAL_MS), Signal::ResetPin(false)],
                );
            }
            return r;
        }
        let ghost s2 = *self;
        self.pause(RESET_INTERVAL_MS);
        let ghost s3 = *self;
        self.drive_reset(false);
        proof {
            Self::lemma_advanced_chain(
                &s2,
                &s3,
                self,
                seq![Signal::Wait(RESET_INTERVAL_MS)],
                seq![Signal::ResetPin(false)],
            );
            let tail = seq![Signal::Wait(RESET_INTERVAL_MS), Signal::ResetPin(false)];
            assert(seq![Signal::Wait(RESET_INTERVAL_MS)] + seq![Signal::ResetPin(false)] =~= tail);
            assert(self.outcomes_since(&s2) =~= Seq::<bool>::empty());
            Self::lemma_performed_all(&s2, self, tail, true);
            Self::lemma_performed_then(&s0, &s2, self, frame_transfer(uniform(0u8)), tail, true);
        }
        self.state = DriverState::Deinitialized;
        r
    }

    /// Drives the data/command line high, then sends the whole frame as one
    /// transfer.
    fn swap(&mut self) -> (r: Result<(), TransportFailure>)
        ensures
            final(self).performed(old(self), frame_transfer(old(self).fb.buffer@), r is Ok),
            final(self).fb == old(self).fb,
            final(self).state == old(self).state,
            old(self).spi.accepts_all() ==> r is Ok && final(self).spi.accepts_all(),
    {
        self.send_frame()
    }

    fn fb(&mut self) -> (r: &mut DisplayBuffer)
        ensures
            *r == old(self).fb,
            final(self).fb == *final(r),
            final(self).spi == old(self).spi,
            final(self).reset_pin == old(self).reset_pin,
            final(self).dc_pin == old(self).dc_pin,
            final(self).delay == old(self).delay,
            final(self).signals == old(self).signals,
            final(self).state == old(self).state,
    {
        &mut self.fb
    }
}

} // verus!
