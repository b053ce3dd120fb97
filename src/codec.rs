use vstd::prelude::*;

use crate::pixel::{
    channels, filler, held, payload_of, pixel_of, push_payload, Pixel, MARK_ONE, MARK_TWO,
};

verus! {

/// Number of pixels needed for `len` payload bytes, three to a pixel.
pub open spec fn pixel_count(len: nat) -> nat {
    (len + 2) / 3
}

/// The `i`-th chunk of `b`: bytes `3i .. 3i+3`, cut short at the end of `b`.
pub open spec fn chunk_at(b: Seq<u8>, i: int) -> Seq<u8> {
    b.subrange(3 * i, if 3 * i + 3 <= b.len() { 3 * i + 3 } else { b.len() as int })
}

/// The pixels that carry `b`: one per chunk of three bytes, in order.
pub open spec fn pack_spec(b: Seq<u8>) -> Seq<Pixel> {
    Seq::new(pixel_count(b.len()), |i: int| pixel_of(chunk_at(b, i)))
}

/// `ps` followed by filler pixels up to `total` pixels in all.
pub open spec fn padded(ps: Seq<Pixel>, total: nat) -> Seq<Pixel> {
    if total <= ps.len() {
        ps
    } else {
        ps + Seq::new((total - ps.len()) as nat, |i: int| filler())
    }
}

/// The flat RGBA buffer of `ps`: four channel bytes per pixel, in order.
pub open spec fn rgba_of(ps: Seq<Pixel>) -> Seq<u8> {
    Seq::new(4 * ps.len(), |j: int| channels(ps[j / 4])[j % 4])
}

/// The pixels stored in a flat RGBA buffer: one per complete group of four
/// bytes. A trailing group of fewer than four bytes holds no pixel.
pub open spec fn pixels_in(flat: Seq<u8>) -> Seq<Pixel> {
    Seq::new(
        flat.len() / 4,
        |i: int| Pixel { r: flat[4 * i], g: flat[4 * i + 1], b: flat[4 * i + 2], a: flat[4 * i + 3] },
    )
}

/// The payload bytes carried by a sequence of pixels, in order.
pub open spec fn payload_seq(ps: Seq<Pixel>) -> Seq<u8>
    decreases ps.len(),
{
    if ps.len() == 0 {
        Seq::empty()
    } else {
        payload_seq(ps.drop_last()) + held(ps.last())
    }
}

/// The bytes recovered from a flat RGBA buffer.
pub open spec fn unpack_spec(flat: Seq<u8>) -> Seq<u8> {
    payload_seq(pixels_in(flat))
}

/// Splits `bytes` into chunks of at most three and packs each into a pixel.
pub fn pack(bytes: &[u8]) -> (r: Vec<Pixel>)
    ensures
        r@ == pack_spec(bytes@),
{
    let mut out: Vec<Pixel> = Vec::new();
    let mut i: usize = 0;
    while i < bytes.len()
        invariant
            i <= bytes@.len(),
            i == bytes@.len() || i == 3 * out@.len(),
            i <= 3 * out@.len() < i + 3,
            out@ =~= Seq::new(out@.len(), |k: int| pixel_of(chunk_at(bytes@, k))),
        decreases bytes@.len() - i,
    {
        let end: usize = if bytes.len() - i >= 3 { i + 3 } else { bytes.len() };
        let p = Pixel::from_buf(&bytes[i..end]);
        proof {
            assert(bytes@.subrange(i as int, end as int) == chunk_at(bytes@, out@.len() as int));
        }
        out.push(p);
        i = end;
    }
    proof {
        assert(out@.len() == pixel_count(bytes@.len()));
        assert(out@ =~= pack_spec(bytes@));
    }
    out
}

/// Appends filler pixels to `pixels` until it holds `total` pixels.
pub fn pad(pixels: &mut Vec<Pixel>, total: u64)
    ensures
        final(pixels)@ == padded(old(pixels)@, total as nat),
{
    let ghost start = pixels@;
    while (pixels.len() as u64) < total
        invariant
            start.len() <= pixels@.len(),
            pixels@.len() <= total || pixels@.len() == start.len(),
            pixels@ =~= start + Seq::new((pixels@.len() - start.len()) as nat, |k: int| filler()),
        decreases total - pixels@.len(),
    {
        pixels.push(Pixel::empty());
    }
    proof {
        if total <= start.len() {
            assert(pixels@ =~= start);
        } else {
            assert(pixels@ =~= padded(start, total as nat));
        }
    }
}

/// The flat RGBA buffer of `pixels`: each pixel's `[r, g, b, a]` in turn.
pub fn to_rgba(pixels: &[Pixel]) -> (r: Vec<u8>)
    ensures
        r@ == rgba_of(pixels@),
{
    let mut out: Vec<u8> = Vec::new();
    let mut k: usize = 0;
    while k < pixels.len()
        invariant
            k <= pixels@.len(),
            out@ =~= rgba_of(pixels@.take(k as int)),
        decreases pixels@.len() - k,
    {
        let buf = pixels[k].to_buf();
        proof {
            assert(rgba_of(pixels@.take(k + 1)) =~= rgba_of(pixels@.take(k as int)) + buf@);
        }
        out.push(buf[0]);
        out.push(buf[1]);
        out.push(buf[2]);
        out.push(buf[3]);
        proof {
            assert(out@ =~= rgba_of(pixels@.take(k + 1)));
        }
        k = k + 1;
    }
    proof {
        assert(pixels@.take(k as int) =~= pixels@);
    }
    out
}

/// Recovers the payload bytes from a flat RGBA buffer: each group of four
/// bytes yields the bytes its marker announces, and a trailing group of
/// fewer than four bytes is ignored.
pub fn unpack(flat: &[u8]) -> (r: Vec<u8>)
    ensures
        r@ == unpack_spec(flat@),
{
    let mut out: Vec<u8> = Vec::new();
    let n: usize = flat.len() / 4;
    let mut k: usize = 0;
    while k < n
        invariant
            n == flat@.len() / 4,
            k <= n,
            out@ == payload_seq(pixels_in(flat@).take(k as int)),
        decreases n - k,
    {
        proof {
            assert(4 * k + 4 <= flat.len());
        }
        let j: usize = 4 * k;
        proof {
            let ps = pixels_in(flat@).take(k + 1);
            assert(ps.drop_last() =~= pixels_in(flat@).take(k as int));
        }
        push_payload(&mut out, flat[j], flat[j + 1], flat[j + 2], flat[j + 3]);
        k = k + 1;
    }
    proof {
        assert(pixels_in(flat@).take(k as int) =~= pixels_in(flat@));
    }
    out
}

/// Filler pixels carry nothing: appending any number of them to a sequence
/// of pixels leaves its payload unchanged.
proof fn lemma_payload_fillers(ps: Seq<Pixel>, k: nat)
    ensures
        payload_seq(ps + Seq::new(k, |i: int| filler())) == payload_seq(ps),
    decreases k,
{
    let s = ps + Seq::new(k, |i: int| filler());
    if k == 0 {
        assert(s =~= ps);
    } else {
        lemma_payload_fillers(ps, (k - 1) as nat);
        assert(s.drop_last() =~= ps + Seq::new((k - 1) as nat, |i: int| filler()));
        assert(held(s.last()) =~= Seq::<u8>::empty());
        assert(payload_seq(s) =~= payload_seq(s.drop_last()));
    }
}

/// The pixels that carry `b` carry exactly `b`.
proof fn lemma_payload_pack(b: Seq<u8>)
    ensures
        payload_seq(pack_spec(b)) == b,
    decreases b.len(),
{
    let m = pixel_count(b.len());
    if m == 0 {
        assert(b =~= Seq::<u8>::empty());
    } else {
        let cut = 3 * (m - 1);
        let front = b.subrange(0, cut as int);
        assert(pixel_count(front.len()) == m - 1);
        assert forall|i: int| 0 <= i < m - 1 implies chunk_at(front, i) =~= chunk_at(b, i) by {
            assert(3 * i + 3 <= cut);
        }
        assert(pack_spec(b).drop_last() =~= pack_spec(front));
        lemma_payload_pack(front);
        let c = chunk_at(b, m - 1);
        assert(1 <= c.len() <= 3);
        assert(held(pixel_of(c)) =~= c);
        assert(b =~= front + c);
    }
}

/// Reading the pixels back out of their flat RGBA buffer gives the same pixels.
proof fn lemma_pixels_in_rgba(ps: Seq<Pixel>)
    ensures
        pixels_in(rgba_of(ps)) == ps,
{
    let flat = rgba_of(ps);
    assert forall|i: int| 0 <= i < ps.len() implies #[trigger] pixels_in(flat)[i] == ps[i] by {
        assert((4 * i) / 4 == i && (4 * i) % 4 == 0);
        assert((4 * i + 1) / 4 == i && (4 * i + 1) % 4 == 1);
        assert((4 * i + 2) / 4 == i && (4 * i + 2) % 4 == 2);
        assert((4 * i + 3) / 4 == i && (4 * i + 3) % 4 == 3);
    }
    assert(pixels_in(flat) =~= ps);
}

/// Round trip: the RGBA buffer built from `b`, padded with filler pixels to
/// any number of pixels, unpacks to exactly `b`.
pub proof fn lemma_round_trip(b: Seq<u8>, total: nat)
    ensures
        unpack_spec(rgba_of(padded(pack_spec(b), total))) == b,
{
    let ps = pack_spec(b);
    lemma_pixels_in_rgba(padded(ps, total));
    if total > ps.len() {
        lemma_payload_fillers(ps, (total - ps.len()) as nat);
    }
    lemma_payload_pack(b);
}

/// A trailing chunk of one or two bytes is carried by a last pixel marked
/// `0xFD` or `0xFE`, which yields exactly those trailing bytes back.
pub proof fn lemma_partial_chunk(b: Seq<u8>)
    requires
        b.len() % 3 != 0,
    ensures
        pack_spec(b).len() > 0,
        b.len() % 3 == 1 ==> pack_spec(b).last().a == MARK_ONE,
        b.len() % 3 == 2 ==> pack_spec(b).last().a == MARK_TWO,
        held(pack_spec(b).last()) == b.subrange(b.len() - b.len() % 3, b.len() as int),
{
    let m = pixel_count(b.len());
    let c = chunk_at(b, m - 1);
    assert(3 * (m - 1) == b.len() - b.len() % 3);
    assert(c.len() == b.len() % 3);
    assert(held(pixel_of(c)) =~= c);
}

/// Filler is transparent: a stored pixel whose marker is not one of the three
/// payload markers (the filler's `0x00` among them) yields no bytes, whatever
/// its data channels hold.
pub proof fn lemma_filler_transparent(c0: u8, c1: u8, c2: u8, m: u8)
    requires
        m != 0xFF && m != 0xFE && m != 0xFD,
    ensures
        payload_of(c0, c1, c2, m).len() == 0,
        unpack_spec(seq![c0, c1, c2, m]) == Seq::<u8>::empty(),
{
    let flat = seq![c0, c1, c2, m];
    let ps = pixels_in(flat);
    assert(ps.len() == 1);
    assert(ps.drop_last() =~= Seq::<Pixel>::empty());
    assert(payload_seq(ps.drop_last()) =~= Seq::<u8>::empty());
    assert(ps.last() == (Pixel { r: c0, g: c1, b: c2, a: m }));
    assert(unpack_spec(flat) =~= Seq::<u8>::empty());
}

} // verus!
