//! The LED ring: pixel colors, whole-ring frames, and the bit packing the
//! ring's serial protocol expects.
//!
//! The ring is a fixed chain of `RING_SIZE` addressable RGB pixels. A frame
//! fully replaces the previous one; each pixel travels on the wire as one
//! 32-bit word holding green, red and blue in the top three bytes. The DMA
//! transfer that pushes the packed words out, and the minimum inter-frame
//! reset gap after it, belong to the hardware driver outside the library;
//! `LedRing` here keeps the history of frames committed to the wire, so
//! contracts can speak of exactly what was shown.

use vstd::prelude::*;

verus! {

/// Number of pixels on the ring (a deployment-time constant).
pub const RING_SIZE: usize = 16;

/// One pixel color.
#[derive(Clone, Copy, PartialEq, Eq, Structural, Debug)]
pub struct Rgb {
    pub r: u8,
    pub g: u8,
    pub b: u8,
}

/// An unlit pixel.
pub open spec fn spec_off_color() -> Rgb {
    Rgb { r: 0x00, g: 0x00, b: 0x00 }
}

pub open spec fn spec_red() -> Rgb {
    Rgb { r: 0xFF, g: 0x00, b: 0x00 }
}

pub open spec fn spec_green() -> Rgb {
    Rgb { r: 0x00, g: 0x80, b: 0x00 }
}

pub open spec fn spec_blue() -> Rgb {
    Rgb { r: 0x00, g: 0x00, b: 0xFF }
}

pub open spec fn spec_yellow() -> Rgb {
    Rgb { r: 0xFF, g: 0xFF, b: 0x00 }
}

pub open spec fn spec_orange() -> Rgb {
    Rgb { r: 0xFF, g: 0xA5, b: 0x00 }
}

pub fn off_color() -> (c: Rgb)
    ensures
        c == spec_off_color(),
{
    Rgb { r: 0x00, g: 0x00, b: 0x00 }
}

pub fn red() -> (c: Rgb)
    ensures
        c == spec_red(),
{
    Rgb { r: 0xFF, g: 0x00, b: 0x00 }
}

pub fn green() -> (c: Rgb)
    ensures
        c == spec_green(),
{
    Rgb { r: 0x00, g: 0x80, b: 0x00 }
}

pub fn blue() -> (c: Rgb)
    ensures
        c == spec_blue(),
{
    Rgb { r: 0x00, g: 0x00, b: 0xFF }
}

pub fn yellow() -> (c: Rgb)
    ensures
        c == spec_yellow(),
{
    Rgb { r: 0xFF, g: 0xFF, b: 0x00 }
}

pub fn orange() -> (c: Rgb)
    ensures
        c == spec_orange(),
{
    Rgb { r: 0xFF, g: 0xA5, b: 0x00 }
}

/// A fully dark frame.
pub open spec fn off_frame() -> Seq<Rgb> {
    Seq::new(RING_SIZE as nat, |i: int| spec_off_color())
}

/// A frame with every pixel set to `color`.
pub open spec fn full_frame(color: Rgb) -> Seq<Rgb> {
    Seq::new(RING_SIZE as nat, |i: int| color)
}

/// A frame with only pixel `index` lit, in `color`.
pub open spec fn single_frame(index: int, color: Rgb) -> Seq<Rgb> {
    Seq::new(RING_SIZE as nat, |i: int| if i == index { color } else { spec_off_color() })
}

/// A whole-ring frame of one color.
fn filled(color: Rgb) -> (f: Vec<Rgb>)
    ensures
        f@ == full_frame(color),
{
    let mut f: Vec<Rgb> = Vec::new();
    let mut i: usize = 0;
    while i < RING_SIZE
        invariant
            i <= RING_SIZE,
            f@.len() == i,
            forall|j: int| 0 <= j < i ==> f@[j] == color,
        decreases RING_SIZE - i,
    {
        f.push(color);
        i = i + 1;
    }
    assert(f@ =~= full_frame(color));
    f
}

/// All pixels dark.
pub fn off() -> (f: Vec<Rgb>)
    ensures
        f@ == off_frame(),
{
    let f = filled(off_color());
    assert(f@ =~= off_frame());
    f
}

/// All pixels red.
pub fn full_red() -> (f: Vec<Rgb>)
    ensures
        f@ == full_frame(spec_red()),
{
    filled(red())
}

/// Only pixel `index` lit, in `color`.
pub fn single(index: usize, color: Rgb) -> (f: Vec<Rgb>)
    requires
        index < RING_SIZE,
    ensures
        f@ == single_frame(index as int, color),
{
    let mut f = off();
    f.set(index, color);
    assert(f@ =~= single_frame(index as int, color));
    f
}

/// The 32-bit wire word for one pixel: green, red, blue in the top three
/// bytes, the lowest byte unused.
pub open spec fn spec_pack_word(c: Rgb) -> u32 {
    ((c.g as u32) << 24u32) | ((c.r as u32) << 16u32) | ((c.b as u32) << 8u32)
}

/// The packed words for a whole frame, pixel order preserved.
pub open spec fn spec_pack_frame(f: Seq<Rgb>) -> Seq<u32> {
    Seq::new(f.len(), |i: int| spec_pack_word(f[i]))
}

pub fn pack_word(c: Rgb) -> (w: u32)
    ensures
        w == spec_pack_word(c),
{
    ((c.g as u32) << 24u32) | ((c.r as u32) << 16u32) | ((c.b as u32) << 8u32)
}

/// The LED ring as the sequencer sees it: a sink of whole frames. The
/// history of committed frames, and the packed words handed to the wire
/// for each, are kept so contracts can state exactly what was shown.
pub struct LedRing {
    frames: Vec<Vec<Rgb>>,
    words: Vec<Vec<u32>>,
}

impl LedRing {
    /// Every frame shown so far, oldest first.
    pub closed spec fn frames(self) -> Seq<Seq<Rgb>> {
        self.frames@.map_values(|f: Vec<Rgb>| f@)
    }

    /// The packed words pushed to the wire for each frame.
    pub closed spec fn words(self) -> Seq<Seq<u32>> {
        self.words@.map_values(|w: Vec<u32>| w@)
    }

    /// Each committed frame fills the whole ring, and the words on the
    /// wire are exactly its packing.
    pub closed spec fn wf(self) -> bool {
        &&& self.words@.len() == self.frames@.len()
        &&& forall|i: int|
            0 <= i < self.frames@.len() ==> (#[trigger] self.frames@[i])@.len() == RING_SIZE
                && self.words@[i]@ == spec_pack_frame(self.frames@[i]@)
    }

    pub fn new() -> (ring: LedRing)
        ensures
            ring.wf(),
            ring.frames() == Seq::<Seq<Rgb>>::empty(),
    {
        let ring = LedRing { frames: Vec::new(), words: Vec::new() };
        assert(ring.frames() =~= Seq::<Seq<Rgb>>::empty());
        ring
    }

    /// Commit one frame: it fully replaces whatever the ring showed. The
    /// packed words for the hardware transfer are computed here; pushing
    /// them out (and honoring the reset gap) is the host driver's part.
    pub fn write(&mut self, colors: Vec<Rgb>)
        requires
            old(self).wf(),
            colors@.len() == RING_SIZE,
        ensures
            final(self).wf(),
            final(self).frames() == old(self).frames().push(colors@),
            final(self).words() == old(self).words().push(spec_pack_frame(colors@)),
    {
        let ghost cview = colors@;
        let mut packed: Vec<u32> = Vec::new();
        let mut i: usize = 0;
        while i < colors.len()
            invariant
                i <= colors@.len(),
                packed@.len() == i,
                forall|j: int| 0 <= j < i ==> packed@[j] == spec_pack_word(colors@[j]),
            decreases colors@.len() - i,
        {
            let w = pack_word(colors[i]);
            packed.push(w);
            i = i + 1;
        }
        assert(packed@ =~= spec_pack_frame(colors@));
        self.frames.push(colors);
        self.words.push(packed);
        proof {
            assert(self.frames() =~= old(self).frames().push(cview));
            assert(self.words() =~= old(self).words().push(spec_pack_frame(cview)));
        }
    }

    /// How many frames have been committed.
    pub fn frame_count(&self) -> (n: usize)
        ensures
            n == self.frames().len(),
    {
        self.frames.len()
    }

    /// One committed frame, for inspection.
    pub fn frame_at(&self, i: usize) -> (f: &Vec<Rgb>)
        requires
            i < self.frames().len(),
        ensures
            f@ == self.frames()[i as int],
    {
        &self.frames[i]
    }

    /// The packed words of one committed frame, for inspection.
    pub fn words_at(&self, i: usize) -> (w: &Vec<u32>)
        requires
            i < self.words().len(),
        ensures
            w@ == self.words()[i as int],
    {
        &self.words[i]
    }
}

} // verus!
