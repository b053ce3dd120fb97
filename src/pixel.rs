use vstd::prelude::*;

verus! {

/// Alpha value of a pixel that carries three payload bytes.
pub const MARK_THREE: u8 = 0xFF;

/// Alpha value of a pixel that carries two payload bytes.
pub const MARK_TWO: u8 = 0xFE;

/// Alpha value of a pixel that carries one payload byte.
pub const MARK_ONE: u8 = 0xFD;

/// One RGBA pixel: three data channels and the marker channel `a`.
#[derive(Clone, Copy, Debug, PartialEq, Eq, Structural)]
pub struct Pixel {
    pub r: u8,
    pub g: u8,
    pub b: u8,
    pub a: u8,
}

/// The four channel bytes of a pixel, in the order the image stores them.
pub open spec fn channels(p: Pixel) -> Seq<u8> {
    seq![p.r, p.g, p.b, p.a]
}

/// The transparent filler pixel.
pub open spec fn filler() -> Pixel {
    Pixel { r: 0, g: 0, b: 0, a: 0 }
}

/// The pixel that carries a chunk of payload bytes. A chunk of one, two or
/// three bytes fills the leading channels and is marked by its length; any
/// other chunk gives an empty pixel marked as full.
pub open spec fn pixel_of(chunk: Seq<u8>) -> Pixel {
    if chunk.len() == 1 {
        Pixel { r: chunk[0], g: 0, b: 0, a: MARK_ONE }
    } else if chunk.len() == 2 {
        Pixel { r: chunk[0], g: chunk[1], b: 0, a: MARK_TWO }
    } else if chunk.len() == 3 {
        Pixel { r: chunk[0], g: chunk[1], b: chunk[2], a: MARK_THREE }
    } else {
        Pixel { r: 0, g: 0, b: 0, a: MARK_THREE }
    }
}

/// The payload bytes that a stored pixel `(c0, c1, c2, m)` yields: as many
/// leading data channels as `0xFF - m` leaves (three, two or one), and none
/// for any other marker, the filler's `0x00` included.
pub open spec fn payload_of(c0: u8, c1: u8, c2: u8, m: u8) -> Seq<u8> {
    if m == MARK_THREE {
        seq![c0, c1, c2]
    } else if m == MARK_TWO {
        seq![c0, c1]
    } else if m == MARK_ONE {
        seq![c0]
    } else {
        Seq::empty()
    }
}

/// The payload bytes that pixel `p` carries.
pub open spec fn held(p: Pixel) -> Seq<u8> {
    payload_of(p.r, p.g, p.b, p.a)
}

impl Pixel {
    /// The transparent filler pixel, which carries no payload.
    pub fn empty() -> (r: Self)
        ensures
            r == filler(),
            held(r).len() == 0,
    {
        Pixel { r: 0, g: 0, b: 0, a: 0 }
    }

    /// Packs a chunk of at most three payload bytes into one pixel.
    pub fn from_buf(buf: &[u8]) -> (r: Self)
        ensures
            r == pixel_of(buf@),
            1 <= buf@.len() <= 3 ==> held(r) == buf@,
    {
        let r = if buf.len() == 1 {
            Pixel { r: buf[0], g: 0, b: 0, a: MARK_ONE }
        } else if buf.len() == 2 {
            Pixel { r: buf[0], g: buf[1], b: 0, a: MARK_TWO }
        } else if buf.len() == 3 {
            Pixel { r: buf[0], g: buf[1], b: buf[2], a: MARK_THREE }
        } else {
            Pixel { r: 0, g: 0, b: 0, a: MARK_THREE }
        };
        proof {
            if 1 <= buf@.len() <= 3 {
                assert(held(r) =~= buf@);
            }
        }
        r
    }

    /// The pixel's channel bytes in storage order `[r, g, b, a]`.
    pub fn to_buf(&self) -> (r: Vec<u8>)
        ensures
            r@ == channels(*self),
    {
        let r = vec![self.r, self.g, self.b, self.a];
        proof {
            assert(r@ =~= channels(*self));
        }
        r
    }
}

/// Decodes one stored pixel `(c0, c1, c2, m)` into the payload bytes it holds,
/// appending them to `out`.
pub fn push_payload(out: &mut Vec<u8>, c0: u8, c1: u8, c2: u8, m: u8)
    ensures
        final(out)@ == old(out)@ + payload_of(c0, c1, c2, m),
{
    let missing: u8 = 0xFF - m;
    if missing == 0 {
        out.push(c0);
        out.push(c1);
        out.push(c2);
    } else if missing == 1 {
        out.push(c0);
        out.push(c1);
    } else if missing == 2 {
        out.push(c0);
    }
    proof {
        assert(final(out)@ =~= old(out)@ + payload_of(c0, c1, c2, m));
    }
}

} // verus!
