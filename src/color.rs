use vstd::prelude::*;

verus! {

/// A colour as red, green, blue and alpha bytes.
#[derive(Clone, Copy, Debug, PartialEq, Eq, Structural)]
pub struct Rgba(pub u8, pub u8, pub u8, pub u8);

impl Rgba {
    pub fn white() -> (r: Rgba)
        ensures
            r == Rgba(0xff, 0xff, 0xff, 0xff),
    {
        Rgba(0xff, 0xff, 0xff, 0xff)
    }

    pub fn black() -> (r: Rgba)
        ensures
            r == Rgba(0x00, 0x00, 0x00, 0xff),
    {
        Rgba(0x00, 0x00, 0x00, 0xff)
    }

    pub fn transparent() -> (r: Rgba)
        ensures
            r == Rgba(0x00, 0x00, 0x00, 0x00),
    {
        Rgba(0x00, 0x00, 0x00, 0x00)
    }

    pub fn orange() -> (r: Rgba)
        ensures
            r == Rgba(0xff, 0x88, 0x00, 0xff),
    {
        Rgba(0xff, 0x88, 0x00, 0xff)
    }

    pub fn red() -> (r: Rgba)
        ensures
            r == Rgba(0xff, 0x00, 0x00, 0xff),
    {
        Rgba(0xff, 0x00, 0x00, 0xff)
    }

    pub fn blue() -> (r: Rgba)
        ensures
            r == Rgba(0x00, 0x33, 0xff, 0xff),
    {
        Rgba(0x00, 0x33, 0xff, 0xff)
    }

    pub fn cyan() -> (r: Rgba)
        ensures
            r == Rgba(0x22, 0xdd, 0xff, 0xff),
    {
        Rgba(0x22, 0xdd, 0xff, 0xff)
    }

    pub fn green() -> (r: Rgba)
        ensures
            r == Rgba(0x00, 0xff, 0x00, 0xff),
    {
        Rgba(0x00, 0xff, 0x00, 0xff)
    }

    pub fn yellow() -> (r: Rgba)
        ensures
            r == Rgba(0xff, 0xff, 0x00, 0xff),
    {
        Rgba(0xff, 0xff, 0x00, 0xff)
    }

    pub fn purple() -> (r: Rgba)
        ensures
            r == Rgba(0x80, 0x00, 0x80, 0xff),
    {
        Rgba(0x80, 0x00, 0x80, 0xff)
    }

    pub fn pink() -> (r: Rgba)
        ensures
            r == Rgba(0xff, 0x69, 0xb4, 0xff),
    {
        Rgba(0xff, 0x69, 0xb4, 0xff)
    }

    pub fn teal() -> (r: Rgba)
        ensures
            r == Rgba(0x00, 0x80, 0x80, 0xff),
    {
        Rgba(0x00, 0x80, 0x80, 0xff)
    }

    /// The four bytes in the order red, green, blue, alpha.
    pub fn as_slice(&self) -> (r: [u8; 4])
        ensures
            r@ == seq![self.0, self.1, self.2, self.3],
    {
        let r = [self.0, self.1, self.2, self.3];
        assert(r@ =~= seq![self.0, self.1, self.2, self.3]);
        r
    }

    /// The same colour with its alpha replaced.
    pub fn with_alpha(&self, num: u8) -> (r: Rgba)
        ensures
            r == Rgba(self.0, self.1, self.2, num),
    {
        Rgba(self.0, self.1, self.2, num)
    }
}

/// One channel of a gradient: `lo` moved towards `hi` by `|hi - lo| * t / 255`,
/// rounded down.
pub open spec fn mix_channel(lo: u8, hi: u8, t: u8) -> u8 {
    if lo > hi {
        (lo - (lo - hi) * t / 255) as u8
    } else {
        (lo + (hi - lo) * t / 255) as u8
    }
}

/// A two-point gradient from a cold colour (`.0`) to a hot one (`.1`).
#[derive(Clone, Copy, Debug, PartialEq, Eq, Structural)]
pub struct MixedRgba(pub Rgba, pub Rgba);

impl MixedRgba {
    /// The colour of the gradient at `mix` out of 255.
    pub open spec fn mixed(&self, mix: u8) -> Rgba {
        Rgba(
            mix_channel(self.0.0, self.1.0, mix),
            mix_channel(self.0.1, self.1.1, mix),
            mix_channel(self.0.2, self.1.2, mix),
            mix_channel(self.0.3, self.1.3, mix),
        )
    }

    /// Colour at `mix` out of 255: `mix == 0` gives the cold end, `mix == 255`
    /// the hot end, and every channel stays between the two ends.
    pub fn as_rgba(&self, mix: u8) -> (r: Rgba)
        ensures
            r == self.mixed(mix),
    {
        Rgba(
            channel(self.0.0, self.1.0, mix),
            channel(self.0.1, self.1.1, mix),
            channel(self.0.2, self.1.2, mix),
            channel(self.0.3, self.1.3, mix),
        )
    }

    /// The preset heat gradients, chosen by a digit key: `0` to `6`.
    pub fn preset(n: u8) -> (r: Option<MixedRgba>)
        ensures
            r == preset_spec(n),
    {
        match n {
            0 => Some(MixedRgba(Rgba::black(), Rgba::black())),
            1 => Some(MixedRgba(Rgba::blue().with_alpha(0), Rgba::cyan())),
            2 => Some(MixedRgba(Rgba::red().with_alpha(0), Rgba::orange())),
            3 => Some(MixedRgba(Rgba::green().with_alpha(0), Rgba::yellow())),
            4 => Some(MixedRgba(Rgba::blue().with_alpha(0), Rgba::purple())),
            5 => Some(MixedRgba(Rgba::purple().with_alpha(0), Rgba::pink())),
            6 => Some(MixedRgba(Rgba::teal().with_alpha(0), Rgba::green())),
            _ => None,
        }
    }
}

/// The preset gradients: `0` is plain black, each other one fades from a hue
/// with alpha zero to a brighter hue.
pub open spec fn preset_spec(n: u8) -> Option<MixedRgba> {
    if n == 0 {
        Some(MixedRgba(Rgba(0x00, 0x00, 0x00, 0xff), Rgba(0x00, 0x00, 0x00, 0xff)))
    } else if n == 1 {
        Some(MixedRgba(Rgba(0x00, 0x33, 0xff, 0x00), Rgba(0x22, 0xdd, 0xff, 0xff)))
    } else if n == 2 {
        Some(MixedRgba(Rgba(0xff, 0x00, 0x00, 0x00), Rgba(0xff, 0x88, 0x00, 0xff)))
    } else if n == 3 {
        Some(MixedRgba(Rgba(0x00, 0xff, 0x00, 0x00), Rgba(0xff, 0xff, 0x00, 0xff)))
    } else if n == 4 {
        Some(MixedRgba(Rgba(0x00, 0x33, 0xff, 0x00), Rgba(0x80, 0x00, 0x80, 0xff)))
    } else if n == 5 {
        Some(MixedRgba(Rgba(0x80, 0x00, 0x80, 0x00), Rgba(0xff, 0x69, 0xb4, 0xff)))
    } else if n == 6 {
        Some(MixedRgba(Rgba(0x00, 0x80, 0x80, 0x00), Rgba(0x00, 0xff, 0x00, 0xff)))
    } else {
        None
    }
}

fn channel(lo: u8, hi: u8, t: u8) -> (r: u8)
    ensures
        r == mix_channel(lo, hi, t),
{
    let diff: u32 = if lo > hi {
        (lo - hi) as u32
    } else {
        (hi - lo) as u32
    };
    let tt: u32 = t as u32;
    assert(diff * tt <= diff * 255) by (nonlinear_arith)
        requires
            tt <= 255,
    ;
    assert(diff * tt / 255 <= diff) by (nonlinear_arith)
        requires
            diff * tt <= diff * 255,
    ;
    let shift: u32 = diff * tt / 255;
    if lo > hi {
        lo - shift as u8
    } else {
        lo + shift as u8
    }
}

/// At `0` the gradient gives its cold end and at `255` its hot end, whatever
/// the two ends are.
pub proof fn lemma_gradient_endpoints(g: MixedRgba)
    ensures
        g.mixed(0) == g.0,
        g.mixed(255) == g.1,
{
    assert forall|lo: u8, hi: u8| mix_channel(lo, hi, 0) == lo && mix_channel(lo, hi, 255) == hi by {
        if lo > hi {
            assert((lo - hi) * 255 / 255 == lo - hi) by (nonlinear_arith);
        } else {
            assert((hi - lo) * 255 / 255 == hi - lo) by (nonlinear_arith);
        }
    }
}

/// Each channel of a gradient colour lies between the two ends' channels.
pub proof fn lemma_mix_between(lo: u8, hi: u8, t: u8)
    ensures
        lo <= hi ==> lo <= mix_channel(lo, hi, t) <= hi,
        hi < lo ==> hi <= mix_channel(lo, hi, t) <= lo,
{
    if lo > hi {
        assert((lo - hi) * t / 255 <= lo - hi) by (nonlinear_arith)
            requires
                t <= 255,
                lo > hi,
        ;
    } else {
        assert((hi - lo) * t / 255 <= hi - lo) by (nonlinear_arith)
            requires
                t <= 255,
                lo <= hi,
        ;
    }
}

} // verus!
