//! The flags word of a draw command, which kind of primitive it is and
//! how it is drawn, and the damage a window's scene keeps of its last
//! frames. A damage rect is whatever the caller measures rects in,
//! carried through untouched.
use vstd::prelude::*;

verus! {

/// Bits 0..2: what the primitive is.
pub const KIND: u32 = 0b11;

/// A box: rounded, bordered, or neither, in which case it is a fill.
pub const QUAD: u32 = 0;

/// A coverage tile, tinted.
pub const SPRITE: u32 = 1;

/// A colour tile stretched over the rect, with rounded corners.
pub const IMAGE: u32 = 2;

/// Images: desaturate the tile first.
pub const GRAYSCALE: u32 = 4;

/// Set on every command in the opaque list.
pub const OPAQUE: u32 = 8;

/// Bits 8..16: opacity, `0..=255`; images only, 255 elsewhere.
pub const OPACITY_SHIFT: u32 = 8;

/// A command's flags: kind, grayscale, opaque and opacity packed.
#[derive(Debug, Clone, Copy, PartialEq, Eq, Structural)]
pub struct Flags(pub u32);

impl Flags {
    /// The word for `kind`, the two bits and an opacity already rounded to
    /// eight bits.
    pub open spec fn spec_pack(kind: u32, opaque: bool, grayscale: bool, opacity: u8) -> u32 {
        (kind & KIND) | (if opaque {
            OPAQUE
        } else {
            0
        }) | (if grayscale {
            GRAYSCALE
        } else {
            0
        }) | ((opacity as u32) << OPACITY_SHIFT)
    }

    /// The flags for `kind`, the two bits and an opacity in `0..=255`.
    pub fn pack(kind: u32, opaque: bool, grayscale: bool, opacity: u8) -> (f: Flags)
        ensures
            f.0 == Self::spec_pack(kind, opaque, grayscale, opacity),
    {
        Flags(
            (kind & KIND) | (if opaque {
                OPAQUE
            } else {
                0
            }) | (if grayscale {
                GRAYSCALE
            } else {
                0
            }) | ((opacity as u32) << OPACITY_SHIFT),
        )
    }

    pub fn kind(&self) -> (k: u32)
        ensures
            k == self.0 & KIND,
    {
        self.0 & KIND
    }

    pub fn is_opaque(&self) -> (b: bool)
        ensures
            b == (self.0 & OPAQUE != 0),
    {
        self.0 & OPAQUE != 0
    }

    pub fn is_grayscale(&self) -> (b: bool)
        ensures
            b == (self.0 & GRAYSCALE != 0),
    {
        self.0 & GRAYSCALE != 0
    }

    /// The opacity's eight bits, `0..=255` for `0.0..=1.0`.
    pub fn opacity(&self) -> (a: u8)
        ensures
            a == (self.0 >> OPACITY_SHIFT) & 0xff,
    {
        let w: u32 = self.0;
        let v: u32 = (w >> OPACITY_SHIFT) & 0xff;
        assert(v <= 0xff) by (bit_vector)
            requires
                v == (w >> 8u32) & 0xff,
        ;
        v as u8
    }
}

/// What goes in comes back out: the kind's two bits, both flags and the
/// opacity are read back from the packed word as they were packed.
pub proof fn law_flags_round_trip(kind: u32, opaque: bool, grayscale: bool, opacity: u8)
    ensures
        Flags::spec_pack(kind, opaque, grayscale, opacity) & KIND == kind & KIND,
        (Flags::spec_pack(kind, opaque, grayscale, opacity) & OPAQUE != 0) == opaque,
        (Flags::spec_pack(kind, opaque, grayscale, opacity) & GRAYSCALE != 0) == grayscale,
        (Flags::spec_pack(kind, opaque, grayscale, opacity) >> OPACITY_SHIFT) & 0xff == opacity,
{
    let o: u32 = if opaque {
        8
    } else {
        0
    };
    let g: u32 = if grayscale {
        4
    } else {
        0
    };
    let a: u32 = opacity as u32;
    assert(a < 256);
    assert(((kind & 3) | o | g | (a << 8)) & 3 == kind & 3) by (bit_vector)
        requires
            o == 0 || o == 8,
            g == 0 || g == 4,
            a < 256,
    ;
    assert((((kind & 3) | o | g | (a << 8)) & 8 != 0) == (o == 8)) by (bit_vector)
        requires
            o == 0 || o == 8,
            g == 0 || g == 4,
            a < 256,
    ;
    assert((((kind & 3) | o | g | (a << 8)) & 4 != 0) == (g == 4)) by (bit_vector)
        requires
            o == 0 || o == 8,
            g == 0 || g == 4,
            a < 256,
    ;
    assert((((kind & 3) | o | g | (a << 8)) >> 8) & 0xff == a) by (bit_vector)
        requires
            o == 0 || o == 8,
            g == 0 || g == 4,
            a < 256,
    ;
}

/// How many buffers a backend holds per window. That many frames of
/// damage are kept, so a buffer of any age up to it gets an exact
/// scissor. Default 2.
pub struct RenderModule {
    pub buffers: usize,
}

impl Default for RenderModule {
    fn default() -> (m: Self)
        ensures
            m.buffers == 2,
    {
        RenderModule { buffers: 2 }
    }
}

/// The lists of `lists`, one after another.
pub open spec fn concat<R>(lists: Seq<Seq<R>>) -> Seq<R>
    decreases lists.len(),
{
    if lists.len() == 0 {
        Seq::empty()
    } else {
        concat(lists.drop_last()) + lists.last()
    }
}

/// The last frames' damage a window's scene keeps, newest first: as many
/// frames as buffers a backend holds.
pub struct History<R> {
    lists: Vec<Vec<R>>,
    buffers: usize,
}

impl<R: Copy> History<R> {
    /// The frames' damage held, newest first.
    pub closed spec fn frames(self) -> Seq<Seq<R>> {
        self.lists@.map_values(|l: Vec<R>| l@)
    }

    /// How many frames are kept.
    pub closed spec fn spec_buffers(self) -> nat {
        self.buffers as nat
    }

    pub closed spec fn wf(self) -> bool {
        self.lists@.len() <= self.buffers
    }

    /// Nothing held; `buffers` frames kept from now on.
    pub fn new(buffers: usize) -> (h: Self)
        ensures
            h.wf(),
            h.frames() == Seq::<Seq<R>>::empty(),
            h.spec_buffers() == buffers,
    {
        let h = History { lists: Vec::new(), buffers };
        assert(h.frames() =~= Seq::<Seq<R>>::empty());
        h
    }

    /// File a frame's damage, as the newest. Past the frames kept, the
    /// oldest falls off and comes back, emptied, to collect the next
    /// frame's damage in.
    pub fn file(&mut self, damage: Vec<R>) -> (spare: Option<Vec<R>>)
        requires
            old(self).wf(),
        ensures
            final(self).wf(),
            final(self).spec_buffers() == old(self).spec_buffers(),
            ({
                let all = seq![damage@] + old(self).frames();
                let kept = if all.len() <= old(self).spec_buffers() {
                    all.len()
                } else {
                    old(self).spec_buffers()
                };
                &&& final(self).frames() == all.take(kept as int)
                &&& spare matches Some(s) ==> s@ == Seq::<R>::empty()
                &&& (spare is Some <==> all.len() > old(self).spec_buffers())
            }),
    {
        let ghost all = seq![damage@] + self.frames();
        self.lists.insert(0, damage);
        assert(self.frames() =~= all);
        if self.lists.len() > self.buffers {
            let mut gone = self.lists.pop().unwrap();
            assert(self.frames() =~= all.take(self.buffers as int));
            gone.clear();
            Some(gone)
        } else {
            assert(all.take(all.len() as int) =~= all);
            None
        }
    }

    /// The damage a buffer of `age` needs redrawn: the newest `age`
    /// frames' rects, newest first, when that many are held; `None`, the
    /// whole window, for an age of 0 or past the frames held.
    pub fn scissor(&self, age: usize) -> (r: Option<Vec<R>>)
        ensures
            match r {
                Some(rects) => 1 <= age <= self.frames().len() && rects@ == concat(
                    self.frames().take(age as int),
                ),
                None => age == 0 || age > self.frames().len(),
            },
    {
        if age == 0 || age > self.lists.len() {
            return None;
        }
        let ghost f = self.frames();
        let mut out: Vec<R> = Vec::new();
        let mut k: usize = 0;
        while k < age
            invariant
                k <= age <= self.lists@.len(),
                f == self.frames(),
                out@ == concat(f.take(k as int)),
            decreases age - k,
        {
            let list = &self.lists[k];
            let mut j: usize = 0;
            let ghost start = out@;
            while j < list.len()
                invariant
                    j <= list@.len(),
                    out@ == start + list@.take(j as int),
                decreases list@.len() - j,
            {
                out.push(list[j]);
                assert(list@.take(j + 1) =~= list@.take(j as int).push(list@[j as int]));
                j = j + 1;
            }
            proof {
                assert(list@.take(list@.len() as int) =~= list@);
                assert(f[k as int] == list@);
                assert(f.take(k + 1).drop_last() =~= f.take(k as int));
                assert(f.take(k + 1).last() == f[k as int]);
            }
            k = k + 1;
        }
        Some(out)
    }
}

/// What a backend is told of its buffers, once a frame's damage is
/// filed as the newest: a buffer one frame old misses that damage; one
/// two frames old misses it and the frame's before, newest first.
pub proof fn law_ages_union_the_frames_held<R>(frames: Seq<Seq<R>>, newest: Seq<R>)
    ensures
        concat((seq![newest] + frames).take(1)) == newest,
        frames.len() >= 1 ==> concat((seq![newest] + frames).take(2)) == newest + frames[0],
{
    reveal_with_fuel(concat, 3);
    let all = seq![newest] + frames;
    assert(all.take(1).drop_last() =~= Seq::<Seq<R>>::empty());
    assert(all.take(1).last() == newest);
    assert(Seq::<R>::empty() + newest =~= newest);
    if frames.len() >= 1 {
        assert(all.take(2).drop_last() =~= all.take(1));
        assert(all.take(2).last() == frames[0]);
    }
}

} // verus!
