//! A driver for a seven segment LED display whose segments `a` through `g`
//! are driven by seven independent GPIO output pins.
//!
//! The driver keeps no state besides the pins. What it does to them is
//! described by a ghost record of every write it issued, in order: each
//! operation that writes several segments writes them in the order `a`, `b`,
//! `c`, `d`, `e`, `f`, `g` and stops at the first write that fails.
use embedded_hal::digital::v2::OutputPin;
use vstd::prelude::*;

verus! {

/// One of the seven segments of the display.
#[derive(PartialEq, Eq, Structural, Clone, Copy, Debug)]
pub enum Segment {
    A,
    B,
    C,
    D,
    E,
    F,
    G,
}

/// A write that the driver issued to the pin of one segment: the level it
/// asked for (`true` for high, that is on), and whether the pin reported
/// success.
pub struct LineWrite {
    pub segment: Segment,
    pub level: bool,
    pub ok: bool,
}

/// The segment at position `i` of the order `a`, `b`, ..., `g`.
pub open spec fn segment_at(i: int) -> Segment {
    if i == 0 {
        Segment::A
    } else if i == 1 {
        Segment::B
    } else if i == 2 {
        Segment::C
    } else if i == 3 {
        Segment::D
    } else if i == 4 {
        Segment::E
    } else if i == 5 {
        Segment::F
    } else {
        Segment::G
    }
}

/// The position of segment `s` in the order `a`, `b`, ..., `g`.
pub open spec fn position(s: Segment) -> int {
    match s {
        Segment::A => 0,
        Segment::B => 1,
        Segment::C => 2,
        Segment::D => 3,
        Segment::E => 4,
        Segment::F => 5,
        Segment::G => 6,
    }
}

/// All seven segments off.
pub open spec fn blank() -> Seq<bool> {
    seq![false, false, false, false, false, false, false]
}

/// The levels of segments `a` through `g` that show the hexadecimal digit
/// `num`; any value above 15 shows nothing.
pub open spec fn glyph(num: u8) -> Seq<bool> {
    match num {
        0 => seq![true, true, true, true, true, true, false],
        1 => seq![false, false, false, false, true, true, false],
        2 => seq![true, true, false, true, true, false, true],
        3 => seq![true, false, false, true, true, true, true],
        4 => seq![false, false, true, false, true, true, true],
        5 => seq![true, false, true, true, false, true, true],
        6 => seq![true, true, true, true, false, true, true],
        7 => seq![false, false, false, true, true, true, false],
        8 => seq![true, true, true, true, true, true, true],
        9 => seq![true, false, true, true, true, true, true],
        10 => seq![false, true, true, true, true, true, true],
        11 => seq![true, true, true, false, false, true, true],
        12 => seq![true, true, true, true, false, false, false],
        13 => seq![true, true, false, false, true, true, true],
        14 => seq![true, true, true, true, false, false, true],
        15 => seq![false, true, true, true, false, false, true],
        _ => blank(),
    }
}

/// `writes` is what an operation that shows `levels` issued, given that it
/// returned `r`: the segments in order from `a`, each at its level in
/// `levels`, every write but the last one successful, and the operation
/// stopped after the first failed write and succeeded only after all seven
/// writes succeeded.
pub open spec fn writes_levels(writes: Seq<LineWrite>, levels: Seq<bool>, r: Result<(), ()>) -> bool {
    &&& 1 <= writes.len() <= 7
    &&& forall|i: int|
        0 <= i < writes.len() ==> #[trigger] writes[i].segment == segment_at(i) && writes[i].level
            == levels[i]
    &&& forall|i: int| 0 <= i < writes.len() - 1 ==> #[trigger] writes[i].ok
    &&& (r is Ok) == writes.last().ok
    &&& writes.last().ok ==> writes.len() == 7
}

/// `after` is `before` followed by what an operation that wrote `levels` and
/// returned `r` issued.
pub open spec fn extends_with(
    before: Seq<LineWrite>,
    after: Seq<LineWrite>,
    levels: Seq<bool>,
    r: Result<(), ()>,
) -> bool {
    let n = before.len();
    &&& n < after.len()
    &&& after.take(n as int) == before
    &&& writes_levels(after.skip(n as int), levels, r)
}

/// `mid` is `before` followed by successful writes of the first `k` of
/// `levels`.
spec fn first_written(before: Seq<LineWrite>, mid: Seq<LineWrite>, levels: Seq<bool>, k: int) -> bool {
    &&& mid.len() == before.len() + k
    &&& mid.take(before.len() as int) == before
    &&& forall|i: int|
        0 <= i < k ==> #[trigger] mid[before.len() + i] == (LineWrite {
            segment: segment_at(i),
            level: levels[i],
            ok: true,
        })
}

/// One more write, of the segment at position `k`, either extends the
/// successful prefix, or ends the operation.
proof fn lemma_write_step(
    before: Seq<LineWrite>,
    mid: Seq<LineWrite>,
    levels: Seq<bool>,
    k: int,
    w: LineWrite,
)
    requires
        levels.len() == 7,
        0 <= k < 7,
        first_written(before, mid, levels, k),
        w.segment == segment_at(k),
        w.level == levels[k],
    ensures
        w.ok ==> first_written(before, mid.push(w), levels, k + 1),
        !w.ok ==> extends_with(before, mid.push(w), levels, Err(())),
        w.ok && k == 6 ==> extends_with(before, mid.push(w), levels, Ok(())),
{
    let n = before.len() as int;
    let after = mid.push(w);
    assert(after.take(n) =~= before) by {
        assert(mid.take(n) =~= before);
    }
    let tail = after.skip(n);
    assert(tail.len() == k + 1);
    assert forall|i: int| 0 <= i < k implies #[trigger] tail[i] == (LineWrite {
        segment: segment_at(i),
        level: levels[i],
        ok: true,
    }) by {
        assert(tail[i] == mid[n + i]);
    }
    assert(tail[k] == w);
}

/// Showing a value outside `0..=15` writes the same levels as clearing the
/// display: all seven segments off.
pub proof fn lemma_out_of_range_is_blank(num: u8)
    requires
        num > 15,
    ensures
        glyph(num) == blank(),
{
}

/// An operation that cleared the display and succeeded issued exactly seven
/// writes, all successful, that drove segments `a` through `g` low in this
/// order.
pub proof fn lemma_clear_success(before: Seq<LineWrite>, after: Seq<LineWrite>)
    requires
        extends_with(before, after, blank(), Ok(())),
    ensures
        after == before + Seq::new(
            7,
            |i: int| LineWrite { segment: segment_at(i), level: false, ok: true },
        ),
{
    let n = before.len() as int;
    let added = Seq::new(7, |i: int| LineWrite { segment: segment_at(i), level: false, ok: true });
    let tail = after.skip(n);
    assert forall|i: int| 0 <= i < 7 implies #[trigger] tail[i] == added[i] by {
        assert(tail[i].segment == segment_at(i));
        if i < 6 {
            assert(tail[i].ok);
        }
    }
    assert(tail =~= added);
    assert(after =~= after.take(n) + tail);
}

/// In an operation that writes several segments, a failed write is the
/// last one: the segments before it in the order `a` through `g` were all
/// written successfully, none after it was written, and the operation
/// failed.
pub proof fn lemma_failed_write_ends(
    before: Seq<LineWrite>,
    after: Seq<LineWrite>,
    levels: Seq<bool>,
    r: Result<(), ()>,
    j: int,
)
    requires
        extends_with(before, after, levels, r),
        before.len() <= j < after.len(),
        !after[j].ok,
    ensures
        r is Err,
        after.len() == j + 1,
        after[j].segment == segment_at(j - before.len()),
        forall|i: int| before.len() <= i < j ==> #[trigger] after[i].ok,
        forall|i: int|
            before.len() <= i < j ==> #[trigger] after[i].segment == segment_at(i - before.len()),
{
    let n = before.len() as int;
    let tail = after.skip(n);
    assert(tail[j - n] == after[j]);
    assert forall|i: int| n <= i < j implies #[trigger] after[i].ok by {
        assert(tail[i - n] == after[i]);
        assert(tail[i - n].ok);
    }
    assert forall|i: int| n <= i < j implies #[trigger] after[i].segment == segment_at(i - n) by {
        assert(tail[i - n] == after[i]);
        assert(tail[i - n].segment == segment_at(i - n));
    }
}

/// Position `i` holds the segment that `segment_at(i)` names.
proof fn lemma_position_of_segment_at(i: int)
    requires
        0 <= i < 7,
    ensures
        position(segment_at(i)) == i,
{
}

/// The levels of segments `a` through `g` that show the digit `num`.
fn glyph_levels(num: u8) -> (r: [bool; 7])
    ensures
        r@ == glyph(num),
{
    let r = match num {
        0 => [true, true, true, true, true, true, false],
        1 => [false, false, false, false, true, true, false],
        2 => [true, true, false, true, true, false, true],
        3 => [true, false, false, true, true, true, true],
        4 => [false, false, true, false, true, true, true],
        5 => [true, false, true, true, false, true, true],
        6 => [true, true, true, true, false, true, true],
        7 => [false, false, false, true, true, true, false],
        8 => [true, true, true, true, true, true, true],
        9 => [true, false, true, true, true, true, true],
        10 => [false, true, true, true, true, true, true],
        11 => [true, true, true, false, false, true, true],
        12 => [true, true, true, true, false, false, false],
        13 => [true, true, false, false, true, true, true],
        14 => [true, true, true, true, false, false, true],
        15 => [false, true, true, true, false, false, true],
        _ => [false, false, false, false, false, false, false],
    };
    assert(r@ =~= glyph(num));
    r
}

/// A seven segment display, owning the output pins of its segments `a`
/// through `g`.
pub struct SevenSeg<A, B, C, D, E, F, G> {
    seg_a: A,
    seg_b: B,
    seg_c: C,
    seg_d: D,
    seg_e: E,
    seg_f: F,
    seg_g: G,
    issued: Ghost<Seq<LineWrite>>,
}

impl<A, B, C, D, E, F, G> SevenSeg<A, B, C, D, E, F, G> where
    A: OutputPin,
    B: OutputPin,
    C: OutputPin,
    D: OutputPin,
    E: OutputPin,
    F: OutputPin,
    G: OutputPin,
 {
    /// The pins of segments `a` through `g`.
    pub closed spec fn pins(&self) -> (A, B, C, D, E, F, G) {
        (self.seg_a, self.seg_b, self.seg_c, self.seg_d, self.seg_e, self.seg_f, self.seg_g)
    }

    /// The writes issued to the pins since the display was created, oldest
    /// first.
    pub closed spec fn writes(&self) -> Seq<LineWrite> {
        self.issued@
    }

    /// The display made of the given pins, before any write.
    pub closed spec fn assembled(a: A, b: B, c: C, d: D, e: E, f: F, g: G) -> Self {
        SevenSeg {
            seg_a: a,
            seg_b: b,
            seg_c: c,
            seg_d: d,
            seg_e: e,
            seg_f: f,
            seg_g: g,
            issued: Ghost(Seq::empty()),
        }
    }

    /// The pin of segment `s` in `self` is the one in `other`.
    pub open spec fn same_pin(&self, other: &Self, s: Segment) -> bool {
        match s {
            Segment::A => self.pins().0 == other.pins().0,
            Segment::B => self.pins().1 == other.pins().1,
            Segment::C => self.pins().2 == other.pins().2,
            Segment::D => self.pins().3 == other.pins().3,
            Segment::E => self.pins().4 == other.pins().4,
            Segment::F => self.pins().5 == other.pins().5,
            Segment::G => self.pins().6 == other.pins().6,
        }
    }

    /// Every pin of `self` but that of segment `s` is the one of `before`.
    pub open spec fn keeps_pins_but(&self, before: &Self, s: Segment) -> bool {
        forall|t: Segment| t != s ==> #[trigger] self.same_pin(before, t)
    }

    /// `self` is `before` after one operation that wrote `levels` and
    /// returned `r`; the pins of the segments that it did not reach are
    /// those of `before`.
    pub open spec fn wrote_levels(&self, before: &Self, levels: Seq<bool>, r: Result<(), ()>) -> bool {
        &&& extends_with(before.writes(), self.writes(), levels, r)
        &&& forall|t: Segment|
            self.writes().len() - before.writes().len() <= position(t) ==> #[trigger] self.same_pin(
                before,
                t,
            )
    }

    /// Creates a display from the pins of its segments `a`, `b`, `c`, `d`,
    /// `e`, `f` and `g`, in this order. The pins are not written.
    pub fn new(seg_a: A, seg_b: B, seg_c: C, seg_d: D, seg_e: E, seg_f: F, seg_g: G) -> (r: Self)
        ensures
            r == Self::assembled(seg_a, seg_b, seg_c, seg_d, seg_e, seg_f, seg_g),
    {
        SevenSeg {
            seg_a,
            seg_b,
            seg_c,
            seg_d,
            seg_e,
            seg_f,
            seg_g,
            issued: Ghost(Seq::empty()),
        }
    }

    /// Releases the seven pins of the display, in the order in which `new`
    /// took them, without writing them.
    pub fn release(self) -> (r: (A, B, C, D, E, F, G))
        ensures
            r == self.pins(),
    {
        (self.seg_a, self.seg_b, self.seg_c, self.seg_d, self.seg_e, self.seg_f, self.seg_g)
    }

    /// Relies on `OutputPin::set_high` of embedded-hal, called on the pin of
    /// segment `a` alone: drives it high, which the record of writes
    /// gains; any error of the pin is reported as `Err(())`.
    #[verifier::external_body]
    fn drive_a_high(&mut self) -> (r: Result<(), ()>)
        ensures
            final(self).writes() == old(self).writes().push(
                (LineWrite { segment: Segment::A, level: true, ok: r is Ok }),
            ),
            final(self).keeps_pins_but(old(self), Segment::A),
    {
        match self.seg_a.set_high() {
            Ok(()) => Ok(()),
            Err(_) => Err(()),
        }
    }

    /// Relies on `OutputPin::set_low` of embedded-hal, called on the pin of
    /// segment `a` alone: drives it low, which the record of writes
    /// gains; any error of the pin is reported as `Err(())`.
    #[verifier::external_body]
    fn drive_a_low(&mut self) -> (r: Result<(), ()>)
        ensures
            final(self).writes() == old(self).writes().push(
                (LineWrite { segment: Segment::A, level: false, ok: r is Ok }),
            ),
            final(self).keeps_pins_but(old(self), Segment::A),
    {
        match self.seg_a.set_low() {
            Ok(()) => Ok(()),
            Err(_) => Err(()),
        }
    }

    /// Relies on `OutputPin::set_high` of embedded-hal, called on the pin of
    /// segment `b` alone: drives it high, which the record of writes
    /// gains; any error of the pin is reported as `Err(())`.
    #[verifier::external_body]
    fn drive_b_high(&mut self) -> (r: Result<(), ()>)
        ensures
            final(self).writes() == old(self).writes().push(
                (LineWrite { segment: Segment::B, level: true, ok: r is Ok }),
            ),
            final(self).keeps_pins_but(old(self), Segment::B),
    {
        match self.seg_b.set_high() {
            Ok(()) => Ok(()),
            Err(_) => Err(()),
        }
    }

    /// Relies on `OutputPin::set_low` of embedded-hal, called on the pin of
    /// segment `b` alone: drives it low, which the record of writes
    /// gains; any error of the pin is reported as `Err(())`.
    #[verifier::external_body]
    fn drive_b_low(&mut self) -> (r: Result<(), ()>)
        ensures
            final(self).writes() == old(self).writes().push(
                (LineWrite { segment: Segment::B, level: false, ok: r is Ok }),
            ),
            final(self).keeps_pins_but(old(self), Segment::B),
    {
        match self.seg_b.set_low() {
            Ok(()) => Ok(()),
            Err(_) => Err(()),
        }
    }

    /// Relies on `OutputPin::set_high` of embedded-hal, called on the pin of
    /// segment `c` alone: drives it high, which the record of writes
    /// gains; any error of the pin is reported as `Err(())`.
    #[verifier::external_body]
    fn drive_c_high(&mut self) -> (r: Result<(), ()>)
        ensures
            final(self).writes() == old(self).writes().push(
                (LineWrite { segment: Segment::C, level: true, ok: r is Ok }),
            ),
            final(self).keeps_pins_but(old(self), Segment::C),
    {
        match self.seg_c.set_high() {
            Ok(()) => Ok(()),
            Err(_) => Err(()),
        }
    }

    /// Relies on `OutputPin::set_low` of embedded-hal, called on the pin of
    /// segment `c` alone: drives it low, which the record of writes
    /// gains; any error of the pin is reported as `Err(())`.
    #[verifier::external_body]
    fn drive_c_low(&mut self) -> (r: Result<(), ()>)
        ensures
            final(self).writes() == old(self).writes().push(
                (LineWrite { segment: Segment::C, level: false, ok: r is Ok }),
            ),
            final(self).keeps_pins_but(old(self), Segment::C),
    {
        match self.seg_c.set_low() {
            Ok(()) => Ok(()),
            Err(_) => Err(()),
        }
    }

    /// Relies on `OutputPin::set_high` of embedded-hal, called on the pin of
    /// segment `d` alone: drives it high, which the record of writes
    /// gains; any error of the pin is reported as `Err(())`.
    #[verifier::external_body]
    fn drive_d_high(&mut self) -> (r: Result<(), ()>)
        ensures
            final(self).writes() == old(self).writes().push(
                (LineWrite { segment: Segment::D, level: true, ok: r is Ok }),
            ),
            final(self).keeps_pins_but(old(self), Segment::D),
    {
        match self.seg_d.set_high() {
            Ok(()) => Ok(()),
            Err(_) => Err(()),
        }
    }

    /// Relies on `OutputPin::set_low` of embedded-hal, called on the pin of
    /// segment `d` alone: drives it low, which the record of writes
    /// gains; any error of the pin is reported as `Err(())`.
    #[verifier::external_body]
    fn drive_d_low(&mut self) -> (r: Result<(), ()>)
        ensures
            final(self).writes() == old(self).writes().push(
                (LineWrite { segment: Segment::D, level: false, ok: r is Ok }),
            ),
            final(self).keeps_pins_but(old(self), Segment::D),
    {
        match self.seg_d.set_low() {
            Ok(()) => Ok(()),
            Err(_) => Err(()),
        }
    }

    /// Relies on `OutputPin::set_high` of embedded-hal, called on the pin of
    /// segment `e` alone: drives it high, which the record of writes
    /// gains; any error of the pin is reported as `Err(())`.
    #[verifier::external_body]
    fn drive_e_high(&mut self) -> (r: Result<(), ()>)
        ensures
            final(self).writes() == old(self).writes().push(
                (LineWrite { segment: Segment::E, level: true, ok: r is Ok }),
            ),
            final(self).keeps_pins_but(old(self), Segment::E),
    {
        match self.seg_e.set_high() {
            Ok(()) => Ok(()),
            Err(_) => Err(()),
        }
    }

    /// Relies on `OutputPin::set_low` of embedded-hal, called on the pin of
    /// segment `e` alone: drives it low, which the record of writes
    /// gains; any error of the pin is reported as `Err(())`.
    #[verifier::external_body]
    fn drive_e_low(&mut self) -> (r: Result<(), ()>)
        ensures
            final(self).writes() == old(self).writes().push(
                (LineWrite { segment: Segment::E, level: false, ok: r is Ok }),
            ),
            final(self).keeps_pins_but(old(self), Segment::E),
    {
        match self.seg_e.set_low() {
            Ok(()) => Ok(()),
            Err(_) => Err(()),
        }
    }

    /// Relies on `OutputPin::set_high` of embedded-hal, called on the pin of
    /// segment `f` alone: drives it high, which the record of writes
    /// gains; any error of the pin is reported as `Err(())`.
    #[verifier::external_body]
    fn drive_f_high(&mut self) -> (r: Result<(), ()>)
        ensures
            final(self).writes() == old(self).writes().push(
                (LineWrite { segment: Segment::F, level: true, ok: r is Ok }),
            ),
            final(self).keeps_pins_but(old(self), Segment::F),
    {
        match self.seg_f.set_high() {
            Ok(()) => Ok(()),
            Err(_) => Err(()),
        }
    }

    /// Relies on `OutputPin::set_low` of embedded-hal, called on the pin of
    /// segment `f` alone: drives it low, which the record of writes
    /// gains; any error of the pin is reported as `Err(())`.
    #[verifier::external_body]
    fn drive_f_low(&mut self) -> (r: Result<(), ()>)
        ensures
            final(self).writes() == old(self).writes().push(
                (LineWrite { segment: Segment::F, level: false, ok: r is Ok }),
            ),
            final(self).keeps_pins_but(old(self), Segment::F),
    {
        match self.seg_f.set_low() {
            Ok(()) => Ok(()),
            Err(_) => Err(()),
        }
    }

    /// Relies on `OutputPin::set_high` of embedded-hal, called on the pin of
    /// segment `g` alone: drives it high, which the record of writes
    /// gains; any error of the pin is reported as `Err(())`.
    #[verifier::external_body]
    fn drive_g_high(&mut self) -> (r: Result<(), ()>)
        ensures
            final(self).writes() == old(self).writes().push(
                (LineWrite { segment: Segment::G, level: true, ok: r is Ok }),
            ),
            final(self).keeps_pins_but(old(self), Segment::G),
    {
        match self.seg_g.set_high() {
            Ok(()) => Ok(()),
            Err(_) => Err(()),
        }
    }

    /// Relies on `OutputPin::set_low` of embedded-hal, called on the pin of
    /// segment `g` alone: drives it low, which the record of writes
    /// gains; any error of the pin is reported as `Err(())`.
    #[verifier::external_body]
    fn drive_g_low(&mut self) -> (r: Result<(), ()>)
        ensures
            final(self).writes() == old(self).writes().push(
                (LineWrite { segment: Segment::G, level: false, ok: r is Ok }),
            ),
            final(self).keeps_pins_but(old(self), Segment::G),
    {
        match self.seg_g.set_low() {
            Ok(()) => Ok(()),
            Err(_) => Err(()),
        }
    }

    /// Releasing a display just created gives back the pins it was made of,
    /// in the same order.
    pub proof fn lemma_release_of_new(a: A, b: B, c: C, d: D, e: E, f: F, g: G)
        ensures
            Self::assembled(a, b, c, d, e, f, g).pins() == (a, b, c, d, e, f, g),
            Self::assembled(a, b, c, d, e, f, g).writes().len() == 0,
    {
    }

    /// Enables or disables segment `a` according to `state`: drives its pin
    /// high for `true` and low for `false`, and touches no other pin.
    pub fn seg_a(&mut self, state: bool) -> (r: Result<(), ()>)
        ensures
            final(self).writes() == old(self).writes().push(
                (LineWrite { segment: Segment::A, level: state, ok: r is Ok }),
            ),
            final(self).keeps_pins_but(old(self), Segment::A),
    {
        if state {
            self.drive_a_high()
        } else {
            self.drive_a_low()
        }
    }

    /// Enables or disables segment `b` according to `state`: drives its pin
    /// high for `true` and low for `false`, and touches no other pin.
    pub fn seg_b(&mut self, state: bool) -> (r: Result<(), ()>)
        ensures
            final(self).writes() == old(self).writes().push(
                (LineWrite { segment: Segment::B, level: state, ok: r is Ok }),
            ),
            final(self).keeps_pins_but(old(self), Segment::B),
    {
        if state {
            self.drive_b_high()
        } else {
            self.drive_b_low()
        }
    }

    /// Enables or disables segment `c` according to `state`: drives its pin
    /// high for `true` and low for `false`, and touches no other pin.
    pub fn seg_c(&mut self, state: bool) -> (r: Result<(), ()>)
        ensures
            final(self).writes() == old(self).writes().push(
                (LineWrite { segment: Segment::C, level: state, ok: r is Ok }),
            ),
            final(self).keeps_pins_but(old(self), Segment::C),
    {
        if state {
            self.drive_c_high()
        } else {
            self.drive_c_low()
        }
    }

    /// Enables or disables segment `d` according to `state`: drives its pin
    /// high for `true` and low for `false`, and touches no other pin.
    pub fn seg_d(&mut self, state: bool) -> (r: Result<(), ()>)
        ensures
            final(self).writes() == old(self).writes().push(
                (LineWrite { segment: Segment::D, level: state, ok: r is Ok }),
            ),
            final(self).keeps_pins_but(old(self), Segment::D),
    {
        if state {
            self.drive_d_high()
        } else {
            self.drive_d_low()
        }
    }

    /// Enables or disables segment `e` according to `state`: drives its pin
    /// high for `true` and low for `false`, and touches no other pin.
    pub fn seg_e(&mut self, state: bool) -> (r: Result<(), ()>)
        ensures
            final(self).writes() == old(self).writes().push(
                (LineWrite { segment: Segment::E, level: state, ok: r is Ok }),
            ),
            final(self).keeps_pins_but(old(self), Segment::E),
    {
        if state {
            self.drive_e_high()
        } else {
            self.drive_e_low()
        }
    }

    /// Enables or disables segment `f` according to `state`: drives its pin
    /// high for `true` and low for `false`, and touches no other pin.
    pub fn seg_f(&mut self, state: bool) -> (r: Result<(), ()>)
        ensures
            final(self).writes() == old(self).writes().push(
                (LineWrite { segment: Segment::F, level: state, ok: r is Ok }),
            ),
            final(self).keeps_pins_but(old(self), Segment::F),
    {
        if state {
            self.drive_f_high()
        } else {
            self.drive_f_low()
        }
    }

    /// Enables or disables segment `g` according to `state`: drives its pin
    /// high for `true` and low for `false`, and touches no other pin.
    pub fn seg_g(&mut self, state: bool) -> (r: Result<(), ()>)
        ensures
            final(self).writes() == old(self).writes().push(
                (LineWrite { segment: Segment::G, level: state, ok: r is Ok }),
            ),
            final(self).keeps_pins_but(old(self), Segment::G),
    {
        if state {
            self.drive_g_high()
        } else {
            self.drive_g_low()
        }
    }

    /// Writes `levels` to segments `a` through `g`, in this order, and stops
    /// at the first write that fails.
    fn write_levels(&mut self, levels: [bool; 7]) -> (r: Result<(), ()>)
        ensures
            final(self).wrote_levels(old(self), levels@, r),
    {
        let ghost before = self.writes();
        proof {
            assert(before.take(before.len() as int) =~= before);
        }
        let mut k: usize = 0;
        while k < 7
            invariant
                before == old(self).writes(),
                first_written(before, self.writes(), levels@, k as int),
                forall|t: Segment| k <= position(t) ==> #[trigger] self.same_pin(old(self), t),
                k < 7,
            decreases 7 - k,
        {
            let ghost mid = self.writes();
            let ghost prev = *self;
            let level = levels[k];
            let r = if k == 0 {
                self.seg_a(level)
            } else if k == 1 {
                self.seg_b(level)
            } else if k == 2 {
                self.seg_c(level)
            } else if k == 3 {
                self.seg_d(level)
            } else if k == 4 {
                self.seg_e(level)
            } else if k == 5 {
                self.seg_f(level)
            } else {
                self.seg_g(level)
            };
            let ghost w = LineWrite { segment: segment_at(k as int), level: level, ok: r is Ok };
            proof {
                lemma_write_step(before, mid, levels@, k as int, w);
                lemma_position_of_segment_at(k as int);
                assert forall|t: Segment| k + 1 <= position(t) implies #[trigger] self.same_pin(
                    old(self),
                    t,
                ) by {
                    assert(self.same_pin(&prev, t));
                    assert(prev.same_pin(old(self), t));
                }
            }
            if r.is_err() || k == 6 {
                return r;
            }
            k = k + 1;
        }
        Ok(())
    }

    /// Turns the display off by driving all seven pins low, in the order `a`
    /// through `g`; stops at the first write that fails and returns its
    /// error.
    pub fn clear(&mut self) -> (r: Result<(), ()>)
        ensures
            final(self).wrote_levels(old(self), blank(), r),
    {
        let r = self.write_levels([false, false, false, false, false, false, false]);
        assert([false, false, false, false, false, false, false]@ =~= blank());
        r
    }

    /// Shows the hexadecimal digit `num` (`0` through `9` and `A` through
    /// `F`); any other value turns the display off, as `clear` does. The
    /// segments are written in the order `a` through `g`, and the first write
    /// that fails ends the call with its error.
    pub fn display(&mut self, num: u8) -> (r: Result<(), ()>)
        ensures
            final(self).wrote_levels(old(self), glyph(num), r),
    {
        let levels = glyph_levels(num);
        self.write_levels(levels)
    }
}

} // verus!
