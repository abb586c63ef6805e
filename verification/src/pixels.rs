//! Pixel rows read back from Windows bitmaps: blue-green-red-alpha rows in
//! the order the screen keeps them, turned into the red-green-blue-alpha the
//! cards draw. Capturing the bitmaps belongs to the platform layer.
use vstd::prelude::*;

verus! {

/// Pixel `p` of a BGRA buffer as RGBA, with full alpha when `opaque`.
pub open spec fn converted(bgra: Seq<u8>, opaque: bool, i: int) -> u8 {
    let p = i / 4;
    let c = i % 4;
    if c == 0 {
        bgra[4 * p + 2]
    } else if c == 1 {
        bgra[4 * p + 1]
    } else if c == 2 {
        bgra[4 * p]
    } else if opaque {
        255
    } else {
        bgra[4 * p + 3]
    }
}

/// The RGBA pixels of a BGRA buffer: one per whole group of four bytes, a
/// trailing partial group dropped. `opaque` forces full alpha, since window
/// captures carry garbage in that channel.
pub fn rgba_from_bgra(bgra: &[u8], opaque: bool) -> (rgba: Vec<u8>)
    ensures
        rgba@.len() == bgra@.len() / 4 * 4,
        forall|i: int| 0 <= i < rgba@.len() ==> #[trigger] rgba@[i] == converted(bgra@, opaque, i),
{
    let n = bgra.len();
    let pixels = n / 4;
    let mut rgba: Vec<u8> = Vec::new();
    let mut p: usize = 0;
    while p < pixels
        invariant
            n == bgra@.len(),
            pixels == bgra@.len() / 4,
            p <= pixels,
            rgba@.len() == 4 * p,
            forall|i: int| 0 <= i < rgba@.len() ==> #[trigger] rgba@[i] == converted(bgra@, opaque, i),
        decreases pixels - p,
    {
        assert(4 * p + 4 <= bgra@.len()) by (nonlinear_arith)
            requires
                p < pixels,
                pixels == bgra@.len() / 4,
        ;
        let o = 4 * p;
        rgba.push(bgra[o + 2]);
        rgba.push(bgra[o + 1]);
        rgba.push(bgra[o]);
        rgba.push(if opaque { 255 } else { bgra[o + 3] });
        assert forall|i: int| 4 * p <= i < 4 * p + 4 implies #[trigger] rgba@[i] == converted(bgra@, opaque, i) by {
            assert(i / 4 == p as int) by (nonlinear_arith)
                requires
                    4 * p <= i < 4 * p + 4,
            ;
            assert(i % 4 == i - 4 * p) by (nonlinear_arith)
                requires
                    4 * p <= i < 4 * p + 4,
            ;
        }
        p += 1;
    }
    rgba
}

/// Every whole pixel of `rgba` has the colour of the first one, alpha aside.
pub open spec fn spec_uniform(rgba: Seq<u8>) -> bool {
    forall|p: int, c: int| 0 <= p < rgba.len() / 4 && 0 <= c < 3 ==> #[trigger] rgba[4 * p + c] == rgba[c]
}

/// Whether a capture came back as one flat colour: a window that did not
/// paint, whose card falls back to its icon.
pub fn is_uniform(rgba: &[u8]) -> (r: bool)
    ensures
        r == spec_uniform(rgba@),
{
    let n = rgba.len();
    let pixels = n / 4;
    let mut p: usize = 0;
    while p < pixels
        invariant
            n == rgba@.len(),
            pixels == rgba@.len() / 4,
            p <= pixels,
            forall|q: int, c: int| 0 <= q < p && 0 <= c < 3 ==> #[trigger] rgba@[4 * q + c] == rgba@[c],
        decreases pixels - p,
    {
        assert(4 * p + 4 <= rgba@.len()) by (nonlinear_arith)
            requires
                p < pixels,
                pixels == rgba@.len() / 4,
        ;
        let o = 4 * p;
        if rgba[o] != rgba[0] || rgba[o + 1] != rgba[1] || rgba[o + 2] != rgba[2] {
            proof {
                let q = p as int;
                if rgba@[o as int] != rgba@[0] {
                    assert(rgba@[4 * q + 0] != rgba@[0]);
                } else if rgba@[o + 1] != rgba@[1] {
                    assert(rgba@[4 * q + 1] != rgba@[1]);
                } else {
                    assert(rgba@[4 * q + 2] != rgba@[2]);
                }
            }
            return false;
        }
        proof {
            let q = p as int;
            assert(rgba@[4 * q + 0] == rgba@[0]);
            assert(rgba@[4 * q + 1] == rgba@[1]);
            assert(rgba@[4 * q + 2] == rgba@[2]);
        }
        p += 1;
    }
    true
}

} // verus!
