//! Wallpaper choices and the exposé backdrop: which images to try, in which
//! order, and the small blurred copy of a wallpaper frame.
use crate::text::same_str;
use vstd::prelude::*;

verus! {

/// The names in one full cycle that starts after `current` (from the first
/// name when `current` is absent or not listed).
pub open spec fn cycle_from(names: Seq<String>, start: int) -> Seq<String> {
    Seq::new(names.len(), |i: int| names[(start + i) % (names.len() as int)])
}

/// Index after the first occurrence of `current`, 0 when not listed.
pub open spec fn start_after(names: Seq<String>, current: Option<Seq<char>>) -> int {
    match current {
        Some(c) => if exists|i: int| 0 <= i < names.len() && names[i]@ == c {
            1 + choose|i: int| 0 <= i < names.len() && names[i]@ == c && forall|j: int| 0 <= j < i ==> names[j]@ != c
        } else {
            0
        },
        None => 0,
    }
}

/// One full cycle of the images after the current one, excluding none:
/// callers skip the unreadable ones.
pub fn next_candidates(names: &[String], current: Option<&str>) -> (r: Vec<String>)
    ensures
        r@ == cycle_from(names@, start_after(names@, match current { Some(c) => Some(c@), None => None::<Seq<char>> })),
{
    let ghost cur = match current { Some(c) => Some(c@), None => None::<Seq<char>> };
    let len = names.len();
    let mut start: usize = 0;
    if let Some(name) = current {
        let mut i: usize = 0;
        while i < len && !crate::text::same_str(names[i].as_str(), name)
            invariant
                len == names@.len(),
                i <= len,
                forall|j: int| 0 <= j < i ==> names@[j]@ != name@,
            decreases len - i,
        {
            i += 1;
        }
        if i < len {
            start = i + 1;
            proof {
                let c = choose|k: int| 0 <= k < names@.len() && names@[k]@ == name@ && forall|j: int| 0 <= j < k ==> names@[j]@ != name@;
                assert(names@[i as int]@ == name@);
                if c < i as int {
                } else if c > i as int {
                    assert(names@[i as int]@ != name@);
                }
                assert(c == i);
            }
        } else {
            assert(!exists|k: int| 0 <= k < names@.len() && names@[k]@ == name@);
        }
    }
    assert(start as int == start_after(names@, cur));
    let mut out: Vec<String> = Vec::new();
    let mut k: usize = 0;
    while k < len
        invariant
            len == names@.len(),
            start <= len,
            k <= len,
            out@.len() == k,
            forall|j: int| 0 <= j < k ==> out@[j] == names@[(start + j) % (len as int)],
        decreases len - k,
    {
        let index = if k < len - start { start + k } else { k - (len - start) };
        assert(index as int == (start + k) % (len as int)) by (nonlinear_arith)
            requires
                start <= len,
                k < len,
                index == (if k < len - start { start + k } else { k - (len - start) }),
        ;
        out.push(names[index].clone());
        k += 1;
    }
    assert(out@ =~= cycle_from(names@, start as int));
    out
}

proof fn lemma_first_listed(names: Seq<String>, n: Seq<char>, q: int)
    requires
        0 <= q < names.len(),
        names[q]@ == n,
    ensures
        exists|i: int| 0 <= i < names.len() && names[i]@ == n && forall|j: int| 0 <= j < i ==> names[j]@ != n,
    decreases q,
{
    if exists|j: int| 0 <= j < q && names[j]@ == n {
        let j = choose|j: int| 0 <= j < q && names[j]@ == n;
        lemma_first_listed(names, n, j);
    }
}

/// The candidates are one full cycle: every image is tried once, and the
/// current image, when listed, comes last.
pub proof fn candidates_cycle_once(names: Seq<String>, current: Option<Seq<char>>)
    ensures
        ({
            let c = cycle_from(names, start_after(names, current));
            &&& c.len() == names.len()
            &&& forall|i: int| 0 <= i < names.len() ==> c.contains(#[trigger] names[i])
            &&& (current matches Some(n) && exists|i: int| 0 <= i < names.len() && names[i]@ == n) ==> c.last()@ == current->0
        }),
{
    let start = start_after(names, current);
    let len = names.len() as int;
    let c = cycle_from(names, start);
    if let Some(n) = current {
        if exists|i: int| 0 <= i < names.len() && names[i]@ == n {
            let p = choose|i: int| 0 <= i < names.len() && names[i]@ == n && forall|j: int| 0 <= j < i ==> names[j]@ != n;
            assert(0 <= p < len && names[p]@ == n) by {
                let q = choose|i: int| 0 <= i < names.len() && names[i]@ == n;
                lemma_first_listed(names, n, q);
            }
        }
    }
    assert(0 <= start <= len);
    assert forall|i: int| 0 <= i < names.len() implies c.contains(#[trigger] names[i]) by {
        let j = if start <= i { i - start } else { len - start + i };
        assert((start + j) % len == i) by (nonlinear_arith)
            requires
                0 <= start <= len,
                0 <= i < len,
                j == (if start <= i { i - start } else { len - start + i }),
        ;
        assert(c[j] == names[i]);
    }
    if start > 0 {
        assert((start + (len - 1)) % len == start - 1) by (nonlinear_arith)
            requires
                0 < start <= len,
        ;
    }
}

/// Downsampling factor of the exposé backdrop.
pub const BLUR_SCALE: u32 = 16;

/// Sum of channel `c` over `n` pixels of image row `row` from column `col`
/// (straight RGBA, `width` pixels per row).
pub open spec fn run_sum(p: Seq<u8>, width: int, row: int, col: int, c: int, n: int) -> int
    decreases n,
{
    if n <= 0 {
        0
    } else {
        run_sum(p, width, row, col, c, n - 1) + p[(row * width + col + n - 1) * 4 + c] as int
    }
}

/// Sum of channel `c` over the first `m` rows of the 16x16 block `(x, y)`.
pub open spec fn block_sum(p: Seq<u8>, width: int, x: int, y: int, c: int, m: int) -> int
    decreases m,
{
    if m <= 0 {
        0
    } else {
        block_sum(p, width, x, y, c, m - 1) + run_sum(p, width, y * 16 + m - 1, x * 16, c, 16)
    }
}

/// Channel `c` of downsampled pixel `(x, y)`: the block average, opaque alpha.
pub open spec fn down_at(p: Seq<u8>, width: int, x: int, y: int, c: int) -> int {
    if c == 3 { 255 } else { block_sum(p, width, x, y, c, 16) / 256 }
}

/// Every 16x16 block of the frame averaged into one opaque pixel.
pub open spec fn downsampled(p: Seq<u8>, width: int, w: int, h: int) -> Seq<u8> {
    Seq::new((w * h * 4) as nat, |i: int| down_at(p, width, (i / 4) % w, (i / 4) / w, i % 4) as u8)
}

/// Whether the neighbour `(x + dx - 1, y + dy - 1)` lies inside a `w` x `h` image.
pub open spec fn inside(w: int, h: int, x: int, y: int, dx: int, dy: int) -> bool {
    0 <= x + dx - 1 < w && 0 <= y + dy - 1 < h
}

pub open spec fn cell(s: Seq<u8>, w: int, h: int, x: int, y: int, dx: int, dy: int, c: int) -> int {
    if inside(w, h, x, y, dx, dy) { s[((y + dy - 1) * w + x + dx - 1) * 4 + c] as int } else { 0 }
}

/// Sum of channel `c` over the first `n` neighbours of row offset `dy`.
pub open spec fn row3(s: Seq<u8>, w: int, h: int, x: int, y: int, dy: int, c: int, n: int) -> int
    decreases n,
{
    if n <= 0 { 0 } else { row3(s, w, h, x, y, dy, c, n - 1) + cell(s, w, h, x, y, n - 1, dy, c) }
}

/// Sum of channel `c` over the first `m` rows of the 3x3 neighbourhood.
pub open spec fn sum3(s: Seq<u8>, w: int, h: int, x: int, y: int, c: int, m: int) -> int
    decreases m,
{
    if m <= 0 { 0 } else { sum3(s, w, h, x, y, c, m - 1) + row3(s, w, h, x, y, m - 1, c, 3) }
}

pub open spec fn count_row(w: int, h: int, x: int, y: int, dy: int, n: int) -> int
    decreases n,
{
    if n <= 0 { 0 } else { count_row(w, h, x, y, dy, n - 1) + if inside(w, h, x, y, n - 1, dy) { 1int } else { 0int } }
}

/// Number of neighbours inside the image among the first `m` rows.
pub open spec fn count3(w: int, h: int, x: int, y: int, m: int) -> int
    decreases m,
{
    if m <= 0 { 0 } else { count3(w, h, x, y, m - 1) + count_row(w, h, x, y, m - 1, 3) }
}

/// Channel `c` of pixel `(x, y)` after one 3x3 box pass: the mean of the
/// neighbours inside the image, opaque alpha.
pub open spec fn box_at(s: Seq<u8>, w: int, h: int, x: int, y: int, c: int) -> int {
    if c == 3 { 255 } else { sum3(s, w, h, x, y, c, 3) / count3(w, h, x, y, 3) }
}

/// The neighbour `(x + dx - 1, y + dy - 1)`: its colour channels when it lies inside the image.
fn neighbour(src: &Vec<u8>, w: u32, h: u32, x: usize, y: usize, dx: usize, dy: usize) -> (r: Option<(u8, u8, u8)>)
    requires
        w as int * h as int * 4 <= src@.len(),
        x < w,
        y < h,
        dx < 3,
        dy < 3,
    ensures
        r is Some <==> inside(w as int, h as int, x as int, y as int, dx as int, dy as int),
        r matches Some((a, b, c)) ==> {
            &&& a as int == cell(src@, w as int, h as int, x as int, y as int, dx as int, dy as int, 0)
            &&& b as int == cell(src@, w as int, h as int, x as int, y as int, dx as int, dy as int, 1)
            &&& c as int == cell(src@, w as int, h as int, x as int, y as int, dx as int, dy as int, 2)
        },
{
    let wu = w as usize;
    let hu = h as usize;
    let outside = (dx == 0 && x == 0) || (dx == 2 && x + 1 >= wu) || (dy == 0 && y == 0) || (dy == 2 && y + 1 >= hu);
    if outside {
        return None;
    }
    let sx = x + dx - 1;
    let sy = y + dy - 1;
    proof {
        lemma_in_image(sy as int, sx as int, w as int, h as int);
    }
    let len = src.len();
    assert((sy * wu + sx) * 4 + 3 < len);
    let i = (sy * wu + sx) * 4;
    Some((src[i], src[i + 1], src[i + 2]))
}

/// Channel sums over the 3x3 neighbourhood of `(x, y)` inside the image,
/// and the number of neighbours summed.
fn neighbourhood(src: &Vec<u8>, w: u32, h: u32, x: usize, y: usize) -> (r: (u32, u32, u32, u32))
    requires
        w as int * h as int * 4 <= src@.len(),
        x < w,
        y < h,
    ensures
        r.0 == sum3(src@, w as int, h as int, x as int, y as int, 0, 3),
        r.1 == sum3(src@, w as int, h as int, x as int, y as int, 1, 3),
        r.2 == sum3(src@, w as int, h as int, x as int, y as int, 2, 3),
        r.3 == count3(w as int, h as int, x as int, y as int, 3),
        r.0 <= 255 * r.3 && r.1 <= 255 * r.3 && r.2 <= 255 * r.3,
{
    let len = src.len();
    let ghost s = src@;
    let ghost wi = w as int;
    let ghost hi = h as int;
    let wu = w as usize;
    let hu = h as usize;
    let mut acc0: u32 = 0;
    let mut acc1: u32 = 0;
    let mut acc2: u32 = 0;
    let mut n: u32 = 0;
    let mut dy: usize = 0;
    while dy < 3
        invariant
            s == src@,
            wi == wu && hi == hu,
            wi == w as int && hi == h as int,
            wi * hi * 4 <= s.len(),
            len == s.len(),
            y < hu && x < wu,
            dy <= 3,
            acc0 == sum3(s, wi, hi, x as int, y as int, 0, dy as int),
            acc1 == sum3(s, wi, hi, x as int, y as int, 1, dy as int),
            acc2 == sum3(s, wi, hi, x as int, y as int, 2, dy as int),
            n == count3(wi, hi, x as int, y as int, dy as int),
            acc0 <= 255 * n && acc1 <= 255 * n && acc2 <= 255 * n,
            n <= 3 * dy,
        decreases 3 - dy,
    {
        let mut dx: usize = 0;
        while dx < 3
            invariant
                s == src@,
                wi == wu && hi == hu,
                wi == w as int && hi == h as int,
                wi * hi * 4 <= s.len(),
                len == s.len(),
                y < hu && x < wu,
                dy < 3,
                dx <= 3,
                acc0 == sum3(s, wi, hi, x as int, y as int, 0, dy as int) + row3(s, wi, hi, x as int, y as int, dy as int, 0, dx as int),
                acc1 == sum3(s, wi, hi, x as int, y as int, 1, dy as int) + row3(s, wi, hi, x as int, y as int, dy as int, 1, dx as int),
                acc2 == sum3(s, wi, hi, x as int, y as int, 2, dy as int) + row3(s, wi, hi, x as int, y as int, dy as int, 2, dx as int),
                n == count3(wi, hi, x as int, y as int, dy as int) + count_row(wi, hi, x as int, y as int, dy as int, dx as int),
                acc0 <= 255 * n && acc1 <= 255 * n && acc2 <= 255 * n,
                n <= 3 * dy + dx,
            decreases 3 - dx,
        {
            if let Some((a, b, c)) = neighbour(src, w, h, x, y, dx, dy) {
                acc0 = acc0 + a as u32;
                acc1 = acc1 + b as u32;
                acc2 = acc2 + c as u32;
                n = n + 1;
            }
            dx += 1;
        }
        dy += 1;
    }
    (acc0, acc1, acc2, n)
}

/// One 3x3 box pass over a `w` x `h` RGBA image held in `s`.
pub open spec fn boxed(s: Seq<u8>, w: int, h: int) -> Seq<u8> {
    Seq::new(s.len(), |i: int| if i < w * h * 4 { box_at(s, w, h, (i / 4) % w, (i / 4) / w, i % 4) as u8 } else { 255u8 })
}

/// The exposé backdrop of a frame: downsampled by 16, then two box passes.
pub open spec fn spec_blurred(p: Seq<u8>, width: int, height: int) -> Seq<u8> {
    let w = width / 16;
    let h = height / 16;
    boxed(boxed(downsampled(p, width, w, h), w, h), w, h)
}

proof fn lemma_pixel(q: int, w: int, x: int, y: int)
    requires
        0 <= x < w,
        0 <= y,
        q == y * w + x,
    ensures
        q % w == x,
        q / w == y,
{
    vstd::arithmetic::div_mod::lemma_fundamental_div_mod_converse(q, w, y, x);
}

proof fn lemma_channel(q: int, c: int)
    requires
        0 <= q,
        0 <= c < 4,
    ensures
        (q * 4 + c) / 4 == q,
        (q * 4 + c) % 4 == c,
{
}

proof fn lemma_in_image(r: int, col: int, width: int, height: int)
    by (nonlinear_arith)
    requires
        0 <= r < height,
        0 <= col < width,
    ensures
        r * width + col < width * height,
        0 <= r * width + col,
        (r * width + col) * 4 + 3 < width * height * 4,
{
}

proof fn lemma_pixel_order(y: int, x: int, w: int)
    by (nonlinear_arith)
    requires
        0 <= x < w,
        0 <= y,
    ensures
        y * w + x + 1 == (if x + 1 < w { y * w + (x + 1) } else { (y + 1) * w + 0 }),
{
}

proof fn lemma_next_row(y: int, w: int)
    by (nonlinear_arith)
    ensures
        y * w + w == (y + 1) * w,
{
}

proof fn lemma_mean_fits(acc: int, n: int)
    by (nonlinear_arith)
    requires
        0 <= acc <= 255 * n,
        n >= 1,
    ensures
        0 <= acc / n <= 255,
{
}

proof fn lemma_commute(a: int, b: int)
    by (nonlinear_arith)
    ensures
        a * b == b * a,
{
}

proof fn lemma_count_bounds(w: int, h: int, x: int, y: int)
    requires
        0 <= x < w,
        0 <= y < h,
    ensures
        1 <= count3(w, h, x, y, 3) <= 9,
{
    reveal_with_fuel(count3, 4);
    reveal_with_fuel(count_row, 4);
}

/// One 3x3 box pass: each colour channel becomes the mean of the pixel and
/// its neighbours inside the image; alpha and bytes past the image are 255.
fn box3(src: &Vec<u8>, w: u32, h: u32) -> (out: Vec<u8>)
    requires
        w as int * h as int * 4 <= src@.len(),
    ensures
        out@ == boxed(src@, w as int, h as int),
{
    let len = src.len();
    let mut out: Vec<u8> = Vec::new();
    while out.len() < len
        invariant
            out@.len() <= len,
            len == src@.len(),
            forall|i: int| 0 <= i < out@.len() ==> out@[i] == 255u8,
        decreases len - out@.len(),
    {
        out.push(255u8);
    }
    let wu = w as usize;
    let hu = h as usize;
    let ghost s = src@;
    let ghost wi = w as int;
    let ghost hi = h as int;
    let mut y: usize = 0;
    while y < hu
        invariant
            s == src@,
            wi == wu && hi == hu,
            wi == w as int && hi == h as int,
            wi * hi * 4 <= s.len(),
            len == s.len(),
            len <= usize::MAX,
            out@.len() == len,
            y <= hu,
            forall|i: int| 0 <= i < (y * wi) * 4 ==> out@[i] == boxed(s, wi, hi)[i],
            forall|i: int| (y * wi) * 4 <= i < len ==> out@[i] == 255u8,
        decreases hu - y,
    {
        let mut x: usize = 0;
        while x < wu
            invariant
                s == src@,
                wi == wu && hi == hu,
                wi == w as int && hi == h as int,
                wi * hi * 4 <= s.len(),
                len == s.len(),
                len <= usize::MAX,
                out@.len() == len,
                y < hu,
                x <= wu,
                forall|i: int| 0 <= i < (y * wi + x) * 4 ==> out@[i] == boxed(s, wi, hi)[i],
                forall|i: int| (y * wi + x) * 4 <= i < len ==> out@[i] == 255u8,
            decreases wu - x,
        {
            proof {
                lemma_in_image(y as int, x as int, wi, hi);
                lemma_count_bounds(wi, hi, x as int, y as int);
            }
            let (acc0, acc1, acc2, n) = neighbourhood(src, w, h, x, y);
            assert(n >= 1);
            let o = (y * wu + x) * 4;
            let ghost q = y * wi + x;
            proof {
                lemma_mean_fits(acc0 as int, n as int);
                lemma_mean_fits(acc1 as int, n as int);
                lemma_mean_fits(acc2 as int, n as int);
            }
            let v0 = (acc0 / n) as u8;
            let v1 = (acc1 / n) as u8;
            let v2 = (acc2 / n) as u8;
            out.set(o, v0);
            out.set(o + 1, v1);
            out.set(o + 2, v2);
            proof {
                lemma_pixel(q, wi, x as int, y as int);
                lemma_channel(q, 0);
                lemma_channel(q, 1);
                lemma_channel(q, 2);
                lemma_channel(q, 3);
                assert(out@[q * 4] == boxed(s, wi, hi)[q * 4]);
                assert(out@[q * 4 + 1] == boxed(s, wi, hi)[q * 4 + 1]);
                assert(out@[q * 4 + 2] == boxed(s, wi, hi)[q * 4 + 2]);
                assert(out@[q * 4 + 3] == boxed(s, wi, hi)[q * 4 + 3]);
                lemma_pixel_order(y as int, x as int, wi);
                assert forall|i: int| 0 <= i < (q + 1) * 4 implies out@[i] == boxed(s, wi, hi)[i] by {
                    if i >= q * 4 {
                        assert(i == q * 4 || i == q * 4 + 1 || i == q * 4 + 2 || i == q * 4 + 3);
                    }
                }
            }
            x += 1;
        }
        proof {
            lemma_next_row(y as int, wi);
        }
        y += 1;
    }
    proof {
        lemma_commute(y as int, wi);
        assert forall|i: int| 0 <= i < len implies out@[i] == boxed(s, wi, hi)[i] by {
            if i >= (y * wi) * 4 {
            }
        }
    }
    assert(out@ =~= boxed(s, wi, hi));
    out
}

proof fn lemma_product_le(a: int, b: int, c: int, d: int)
    by (nonlinear_arith)
    requires
        0 <= a <= c,
        0 <= b <= d,
    ensures
        a * b <= c * d,
{
}

/// Small blurred copy of a wallpaper frame (straight RGBA, top row first):
/// every 16x16 block averaged, then two 3x3 box passes. Scaled back up with
/// smooth filtering it reads as a heavy blur, for a fraction of the cost.
/// `None` when the frame is smaller than one block either way or `pixels`
/// is shorter than the frame.
pub fn blurred(pixels: &[u8], width: u32, height: u32) -> (r: Option<(Vec<u8>, u32, u32)>)
    requires
        width / 16 == 0 || height / 16 == 0 || width as int * height as int * 4 <= u32::MAX,
    ensures
        r is None <==> (width / 16 == 0 || height / 16 == 0 || pixels@.len() < width as int * height as int * 4),
        r matches Some((small, w, h)) ==> {
            &&& w == width / 16
            &&& h == height / 16
            &&& small@ == spec_blurred(pixels@, width as int, height as int)
        },
{
    let w = width / BLUR_SCALE;
    let h = height / BLUR_SCALE;
    if w == 0 || h == 0 || pixels.len() < (width * height * 4) as usize {
        return None;
    }
    let ghost p = pixels@;
    let ghost wi = w as int;
    let ghost hi = h as int;
    let ghost wd = width as int;
    let ghost ht = height as int;
    proof {
        lemma_product_le(wi, hi, wd, ht);
    }
    let wu = w as usize;
    let hu = h as usize;
    let width_u = width as usize;
    let len = wu * hu * 4;
    let mut small: Vec<u8> = Vec::new();
    while small.len() < len
        invariant
            small@.len() <= len,
            forall|i: int| 0 <= i < small@.len() ==> small@[i] == 255u8,
        decreases len - small@.len(),
    {
        small.push(255u8);
    }
    let mut y: usize = 0;
    while y < hu
        invariant
            p == pixels@,
            wi == wu && hi == hu && wd == width_u && ht == height,
            1 <= wi && 1 <= hi,
            wi * 16 <= wd && hi * 16 <= ht,
            wd * ht * 4 <= p.len(),
            wd * ht * 4 <= u32::MAX,
            len == wi * hi * 4,
            small@.len() == len,
            y <= hu,
            forall|i: int| 0 <= i < (y * wi) * 4 ==> small@[i] == downsampled(p, wd, wi, hi)[i],
            forall|i: int| (y * wi) * 4 <= i < len ==> small@[i] == 255u8,
        decreases hu - y,
    {
        let mut x: usize = 0;
        while x < wu
            invariant
                p == pixels@,
                wi == wu && hi == hu && wd == width_u && ht == height,
                1 <= wi && 1 <= hi,
                wi * 16 <= wd && hi * 16 <= ht,
                wd * ht * 4 <= p.len(),
                wd * ht * 4 <= u32::MAX,
                len == wi * hi * 4,
                small@.len() == len,
                y < hu,
                x <= wu,
                forall|i: int| 0 <= i < (y * wi + x) * 4 ==> small@[i] == downsampled(p, wd, wi, hi)[i],
                forall|i: int| (y * wi + x) * 4 <= i < len ==> small@[i] == 255u8,
            decreases wu - x,
        {
            let mut acc0: u32 = 0;
            let mut acc1: u32 = 0;
            let mut acc2: u32 = 0;
            let mut dy: usize = 0;
            while dy < 16
                invariant
                    p == pixels@,
                    wi == wu && hi == hu && wd == width_u && ht == height,
                    wi * 16 <= wd && hi * 16 <= ht,
                    wd * ht * 4 <= p.len(),
                    wd * ht * 4 <= u32::MAX,
                    y < hu && x < wu,
                    dy <= 16,
                    acc0 == block_sum(p, wd, x as int, y as int, 0, dy as int),
                    acc1 == block_sum(p, wd, x as int, y as int, 1, dy as int),
                    acc2 == block_sum(p, wd, x as int, y as int, 2, dy as int),
                    acc0 <= 4080 * dy && acc1 <= 4080 * dy && acc2 <= 4080 * dy,
                decreases 16 - dy,
            {
                let mut dx: usize = 0;
                while dx < 16
                    invariant
                        p == pixels@,
                        wi == wu && hi == hu && wd == width_u && ht == height,
                        wi * 16 <= wd && hi * 16 <= ht,
                        wd * ht * 4 <= p.len(),
                        wd * ht * 4 <= u32::MAX,
                        y < hu && x < wu,
                        dy < 16,
                        dx <= 16,
                        acc0 == block_sum(p, wd, x as int, y as int, 0, dy as int) + run_sum(p, wd, y * 16 + dy, x * 16, 0, dx as int),
                        acc1 == block_sum(p, wd, x as int, y as int, 1, dy as int) + run_sum(p, wd, y * 16 + dy, x * 16, 1, dx as int),
                        acc2 == block_sum(p, wd, x as int, y as int, 2, dy as int) + run_sum(p, wd, y * 16 + dy, x * 16, 2, dx as int),
                        acc0 <= 4080 * dy + 255 * dx && acc1 <= 4080 * dy + 255 * dx && acc2 <= 4080 * dy + 255 * dx,
                    decreases 16 - dx,
                {
                    let row = y * 16 + dy;
                    let col = x * 16 + dx;
                    proof {
                        lemma_in_image(row as int, col as int, wd, ht);
                    }
                    let i = (row * width_u + col) * 4;
                    acc0 = acc0 + pixels[i] as u32;
                    acc1 = acc1 + pixels[i + 1] as u32;
                    acc2 = acc2 + pixels[i + 2] as u32;
                    dx += 1;
                }
                dy += 1;
            }
            proof {
                lemma_in_image(y as int, x as int, wi, hi);
            }
            let o = (y * wu + x) * 4;
            let ghost q = y * wi + x;
            small.set(o, (acc0 / 256) as u8);
            small.set(o + 1, (acc1 / 256) as u8);
            small.set(o + 2, (acc2 / 256) as u8);
            proof {
                lemma_pixel(q, wi, x as int, y as int);
                lemma_channel(q, 0);
                lemma_channel(q, 1);
                lemma_channel(q, 2);
                lemma_channel(q, 3);
                assert(small@[q * 4] == downsampled(p, wd, wi, hi)[q * 4]);
                assert(small@[q * 4 + 1] == downsampled(p, wd, wi, hi)[q * 4 + 1]);
                assert(small@[q * 4 + 2] == downsampled(p, wd, wi, hi)[q * 4 + 2]);
                assert(small@[q * 4 + 3] == downsampled(p, wd, wi, hi)[q * 4 + 3]);
                lemma_pixel_order(y as int, x as int, wi);
                assert forall|i: int| 0 <= i < (q + 1) * 4 implies small@[i] == downsampled(p, wd, wi, hi)[i] by {
                    if i >= q * 4 {
                        assert(i == q * 4 || i == q * 4 + 1 || i == q * 4 + 2 || i == q * 4 + 3);
                    }
                }
            }
            x += 1;
        }
        proof {
            lemma_next_row(y as int, wi);
        }
        y += 1;
    }
    proof {
        lemma_commute(y as int, wi);
    }
    assert(small@ =~= downsampled(p, wd, wi, hi));
    let once = box3(&small, w, h);
    let twice = box3(&once, w, h);
    Some((twice, w, h))
}

/// The backdrop holds one opaque RGBA pixel per 16x16 block of the frame.
pub proof fn backdrop_is_opaque(p: Seq<u8>, width: int, height: int)
    requires
        width / 16 > 0,
        height / 16 > 0,
    ensures
        ({
            let b = spec_blurred(p, width, height);
            &&& b.len() == (width / 16) * (height / 16) * 4
            &&& forall|i: int| 0 <= i < b.len() && i % 4 == 3 ==> #[trigger] b[i] == 255
        }),
{
    let w = width / 16;
    let h = height / 16;
    let d = downsampled(p, width, w, h);
    let once = boxed(d, w, h);
    let b = boxed(once, w, h);
    assert(w * h * 4 >= 0) by (nonlinear_arith)
        requires
            w > 0,
            h > 0,
    ;
    assert(b =~= spec_blurred(p, width, height));
    assert forall|i: int| 0 <= i < b.len() && i % 4 == 3 implies #[trigger] b[i] == 255 by {
        assert(b[i] == (if i < w * h * 4 { box_at(once, w, h, (i / 4) % w, (i / 4) / w, i % 4) as u8 } else { 255u8 }));
    }
}

/// Channel `c` of the colour `(a, b, cc)` with alpha `d`.
pub open spec fn pick(c: int, a: u8, b: u8, cc: u8, d: u8) -> int {
    if c == 0 { a as int } else if c == 1 { b as int } else if c == 2 { cc as int } else { d as int }
}

/// The first `pixels` RGBA pixels of `s` all have the colour `(a, b, cc)`,
/// whatever their alpha.
pub open spec fn one_colour(s: Seq<u8>, pixels: int, a: u8, b: u8, cc: u8) -> bool {
    &&& s.len() >= pixels * 4
    &&& forall|k: int| 0 <= k < pixels * 4 && k % 4 < 3 ==> #[trigger] s[k] as int == pick(k % 4, a, b, cc, 0)
}

proof fn lemma_run_uniform(p: Seq<u8>, width: int, height: int, row: int, col: int, c: int, n: int, a: u8, b: u8, cc: u8)
    requires
        one_colour(p, width * height, a, b, cc),
        0 <= row < height,
        0 <= col,
        0 <= n,
        col + n <= width,
        0 <= c < 3,
    ensures
        run_sum(p, width, row, col, c, n) == n * pick(c, a, b, cc, 0),
    decreases n,
{
    if n > 0 {
        lemma_run_uniform(p, width, height, row, col, c, n - 1, a, b, cc);
        let q = row * width + col + n - 1;
        lemma_in_image(row, col + n - 1, width, height);
        lemma_channel(q, c);
        let k = q * 4 + c;
        assert(0 <= k < width * height * 4);
        assert(p[k] as int == pick(c, a, b, cc, 0));
        let v = pick(c, a, b, cc, 0);
        assert(run_sum(p, width, row, col, c, n) == run_sum(p, width, row, col, c, n - 1) + p[k] as int);
        assert((n - 1) * v + v == n * v) by (nonlinear_arith);
    } else {
        let v = pick(c, a, b, cc, 0);
        assert(n * v == 0) by (nonlinear_arith)
            requires
                n == 0,
        ;
    }
}

proof fn lemma_block_uniform(p: Seq<u8>, width: int, height: int, x: int, y: int, c: int, m: int, a: u8, b: u8, cc: u8)
    requires
        one_colour(p, width * height, a, b, cc),
        0 <= x,
        0 <= y,
        x * 16 + 16 <= width,
        y * 16 + 16 <= height,
        0 <= m <= 16,
        0 <= c < 3,
    ensures
        block_sum(p, width, x, y, c, m) == m * 16 * pick(c, a, b, cc, 0),
    decreases m,
{
    if m > 0 {
        lemma_block_uniform(p, width, height, x, y, c, m - 1, a, b, cc);
        lemma_run_uniform(p, width, height, y * 16 + m - 1, x * 16, c, 16, a, b, cc);
        let v = pick(c, a, b, cc, 0);
        assert((m - 1) * 16 * v + 16 * v == m * 16 * v) by (nonlinear_arith);
    } else {
        let v = pick(c, a, b, cc, 0);
        assert(m * 16 * v == 0) by (nonlinear_arith)
            requires
                m == 0,
        ;
    }
}

proof fn lemma_block_fits(q: int, w: int, h: int, width: int, height: int)
    requires
        0 <= q < w * h,
        w == width / 16,
        h == height / 16,
        w > 0,
        h > 0,
        width >= 0,
        height >= 0,
    ensures
        (q % w) * 16 + 16 <= width,
        (q / w) * 16 + 16 <= height,
        0 <= q % w,
        0 <= q / w,
{
    let x = q % w;
    let y = q / w;
    assert(0 <= x < w);
    vstd::arithmetic::div_mod::lemma_multiply_divide_lt(q, w, h);
    assert(0 <= y) by (nonlinear_arith)
        requires
            q >= 0,
            w > 0,
            y == q / w,
    ;
    assert(x * 16 + 16 <= width) by (nonlinear_arith)
        requires
            x + 1 <= w,
            w == width / 16,
            width >= 0,
    ;
    assert(y * 16 + 16 <= height) by (nonlinear_arith)
        requires
            y + 1 <= h,
            h == height / 16,
            height >= 0,
    ;
}

proof fn lemma_down_uniform(p: Seq<u8>, width: int, height: int, a: u8, b: u8, cc: u8)
    requires
        one_colour(p, width * height, a, b, cc),
        width / 16 > 0,
        height / 16 > 0,
    ensures
        ({
            let w = width / 16;
            let h = height / 16;
            let d = downsampled(p, width, w, h);
            &&& d.len() == w * h * 4
            &&& forall|k: int| 0 <= k < w * h * 4 ==> #[trigger] d[k] as int == pick(k % 4, a, b, cc, 255)
        }),
{
    let w = width / 16;
    let h = height / 16;
    let d = downsampled(p, width, w, h);
    assert(w * h * 4 >= 0) by (nonlinear_arith)
        requires
            w > 0,
            h > 0,
    ;
    assert forall|k: int| 0 <= k < w * h * 4 implies #[trigger] d[k] as int == pick(k % 4, a, b, cc, 255) by {
        let q = k / 4;
        let c = k % 4;
        assert(0 <= q < w * h);
        lemma_block_fits(q, w, h, width, height);
        if c < 3 {
            lemma_block_uniform(p, width, height, q % w, q / w, c, 16, a, b, cc);
            let v = pick(c, a, b, cc, 0);
            assert(16 * 16 * v / 256 == v) by (nonlinear_arith);
            assert(0 <= v <= 255);
        }
    }
}

proof fn lemma_box_uniform(s: Seq<u8>, w: int, h: int, a: u8, b: u8, cc: u8, d: u8)
    requires
        w > 0,
        h > 0,
        s.len() >= w * h * 4,
        forall|k: int| 0 <= k < w * h * 4 ==> #[trigger] s[k] as int == pick(k % 4, a, b, cc, d),
    ensures
        ({
            let o = boxed(s, w, h);
            &&& o.len() == s.len()
            &&& forall|k: int| 0 <= k < w * h * 4 ==> #[trigger] o[k] as int == pick(k % 4, a, b, cc, 255)
        }),
{
    let o = boxed(s, w, h);
    assert forall|k: int| 0 <= k < w * h * 4 implies #[trigger] o[k] as int == pick(k % 4, a, b, cc, 255) by {
        let q = k / 4;
        let c = k % 4;
        let x = q % w;
        let y = q / w;
        assert(0 <= q < w * h);
        assert(0 <= x < w);
        vstd::arithmetic::div_mod::lemma_multiply_divide_lt(q, w, h);
        assert(0 <= y) by (nonlinear_arith)
            requires
                q >= 0,
                w > 0,
                y == q / w,
        ;
        if c < 3 {
            let v = pick(c, a, b, cc, d);
            lemma_sum3_uniform(s, w, h, x, y, c, 3, a, b, cc, d);
            lemma_count_bounds(w, h, x, y);
            let n = count3(w, h, x, y, 3);
            assert(n * v / n == v) by (nonlinear_arith)
                requires
                    n >= 1,
            ;
            assert(0 <= v <= 255);
        }
    }
}

proof fn lemma_cell_uniform(s: Seq<u8>, w: int, h: int, x: int, y: int, dx: int, dy: int, c: int, a: u8, b: u8, cc: u8, d: u8)
    requires
        0 <= x < w,
        0 <= y < h,
        0 <= dx < 3,
        0 <= dy < 3,
        0 <= c < 3,
        forall|k: int| 0 <= k < w * h * 4 ==> #[trigger] s[k] as int == pick(k % 4, a, b, cc, d),
    ensures
        cell(s, w, h, x, y, dx, dy, c) == (if inside(w, h, x, y, dx, dy) { pick(c, a, b, cc, d) } else { 0 }),
{
    if inside(w, h, x, y, dx, dy) {
        let q = (y + dy - 1) * w + x + dx - 1;
        lemma_in_image(y + dy - 1, x + dx - 1, w, h);
        lemma_channel(q, c);
        let k = q * 4 + c;
        assert(0 <= k < w * h * 4);
        assert(s[k] as int == pick(c, a, b, cc, d));
    }
}

proof fn lemma_row3_uniform(s: Seq<u8>, w: int, h: int, x: int, y: int, dy: int, c: int, n: int, a: u8, b: u8, cc: u8, d: u8)
    requires
        0 <= x < w,
        0 <= y < h,
        0 <= dy < 3,
        0 <= n <= 3,
        0 <= c < 3,
        forall|k: int| 0 <= k < w * h * 4 ==> #[trigger] s[k] as int == pick(k % 4, a, b, cc, d),
    ensures
        row3(s, w, h, x, y, dy, c, n) == count_row(w, h, x, y, dy, n) * pick(c, a, b, cc, d),
    decreases n,
{
    if n > 0 {
        lemma_row3_uniform(s, w, h, x, y, dy, c, n - 1, a, b, cc, d);
        lemma_cell_uniform(s, w, h, x, y, n - 1, dy, c, a, b, cc, d);
        let v = pick(c, a, b, cc, d);
        let r = count_row(w, h, x, y, dy, n - 1);
        assert(r * v + v == (r + 1) * v) by (nonlinear_arith);
    }
}

proof fn lemma_sum3_uniform(s: Seq<u8>, w: int, h: int, x: int, y: int, c: int, m: int, a: u8, b: u8, cc: u8, d: u8)
    requires
        0 <= x < w,
        0 <= y < h,
        0 <= m <= 3,
        0 <= c < 3,
        forall|k: int| 0 <= k < w * h * 4 ==> #[trigger] s[k] as int == pick(k % 4, a, b, cc, d),
    ensures
        sum3(s, w, h, x, y, c, m) == count3(w, h, x, y, m) * pick(c, a, b, cc, d),
    decreases m,
{
    if m > 0 {
        lemma_sum3_uniform(s, w, h, x, y, c, m - 1, a, b, cc, d);
        lemma_row3_uniform(s, w, h, x, y, m - 1, c, 3, a, b, cc, d);
        let v = pick(c, a, b, cc, d);
        let t = count3(w, h, x, y, m - 1);
        let r = count_row(w, h, x, y, m - 1, 3);
        assert(t * v + r * v == (t + r) * v) by (nonlinear_arith);
    }
}

/// A frame of one colour blurs to a backdrop of that colour: every backdrop
/// pixel has the frame's colour channels and is opaque.
pub proof fn one_colour_blurs_to_itself(p: Seq<u8>, width: int, height: int, a: u8, b: u8, cc: u8)
    requires
        width / 16 > 0,
        height / 16 > 0,
        one_colour(p, width * height, a, b, cc),
    ensures
        ({
            let out = spec_blurred(p, width, height);
            &&& out.len() == (width / 16) * (height / 16) * 4
            &&& forall|k: int| 0 <= k < out.len() ==> #[trigger] out[k] as int == pick(k % 4, a, b, cc, 255)
        }),
{
    let w = width / 16;
    let h = height / 16;
    lemma_down_uniform(p, width, height, a, b, cc);
    let d = downsampled(p, width, w, h);
    lemma_box_uniform(d, w, h, a, b, cc, 255);
    let once = boxed(d, w, h);
    lemma_box_uniform(once, w, h, a, b, cc, 255);
}

/// At most this many themes are remembered.
pub const MAX_THEMES: usize = 256;

/// A remembered choice as plain text: the image, or `None` for the solid
/// theme background.
pub open spec fn choice_view(c: Option<String>) -> Option<Seq<char>> {
    match c {
        Some(name) => Some(name@),
        None => None,
    }
}

/// No theme is listed twice.
pub open spec fn distinct_themes(s: Seq<(String, Option<String>)>) -> bool {
    forall|i: int, j: int| 0 <= i < s.len() && 0 <= j < s.len() && i != j ==> s[i].0@ != s[j].0@
}

pub open spec fn lists_theme(s: Seq<(String, Option<String>)>, key: Seq<char>) -> bool {
    exists|i: int| 0 <= i < s.len() && s[i].0@ == key
}

pub open spec fn slot_of(s: Seq<(String, Option<String>)>, key: Seq<char>) -> int {
    choose|i: int| 0 <= i < s.len() && s[i].0@ == key
}

/// The entries as a map from theme to choice.
pub open spec fn choices(s: Seq<(String, Option<String>)>) -> Map<Seq<char>, Option<Seq<char>>> {
    Map::new(|key: Seq<char>| lists_theme(s, key), |key: Seq<char>| choice_view(s[slot_of(s, key)].1))
}

/// Per-theme wallpaper memory. A theme without an entry starts with the
/// first available image; an entry of `None` asks for the solid theme
/// background.
pub struct Selections {
    themes: Vec<(String, Option<String>)>,
}

impl View for Selections {
    type V = Map<Seq<char>, Option<Seq<char>>>;

    closed spec fn view(&self) -> Map<Seq<char>, Option<Seq<char>>> {
        choices(self.themes@)
    }
}

proof fn lemma_slot(s: Seq<(String, Option<String>)>, i: int)
    requires
        distinct_themes(s),
        0 <= i < s.len(),
    ensures
        lists_theme(s, s[i].0@),
        slot_of(s, s[i].0@) == i,
{
    let j = slot_of(s, s[i].0@);
    assert(0 <= j < s.len() && s[j].0@ == s[i].0@);
}

impl Selections {
    #[verifier::type_invariant]
    closed spec fn distinct(&self) -> bool {
        distinct_themes(self.themes@)
    }

    /// How many themes have an entry.
    pub closed spec fn count(&self) -> nat {
        self.themes@.len()
    }

    /// Nothing remembered.
    pub fn new() -> (s: Self)
        ensures
            s@ == Map::<Seq<char>, Option<Seq<char>>>::empty(),
            s.count() == 0,
    {
        let s = Selections { themes: Vec::new() };
        assert(s@ =~= Map::<Seq<char>, Option<Seq<char>>>::empty());
        s
    }

    /// Where `key` is listed, the entry count when it is not.
    fn find(&self, key: &str) -> (i: usize)
        ensures
            i <= self.themes@.len(),
            i < self.themes@.len() ==> self.themes@[i as int].0@ == key@ && slot_of(self.themes@, key@) == i,
            i == self.themes@.len() ==> !lists_theme(self.themes@, key@),
    {
        proof {
            use_type_invariant(self);
        }
        let mut i: usize = 0;
        while i < self.themes.len() && !same_str(self.themes[i].0.as_str(), key)
            invariant
                i <= self.themes@.len(),
                forall|j: int| 0 <= j < i ==> self.themes@[j].0@ != key@,
            decreases self.themes@.len() - i,
        {
            i += 1;
        }
        proof {
            if i < self.themes@.len() {
                lemma_slot(self.themes@, i as int);
            }
        }
        i
    }

    /// The entries, each theme once; in the order they were first remembered.
    pub fn entries(&self) -> (r: &[(String, Option<String>)])
        ensures
            choices(r@) == self@,
            distinct_themes(r@),
            r@.len() == self.count(),
    {
        proof {
            use_type_invariant(self);
        }
        self.themes.as_slice()
    }

    /// Whether the memory stays within what is stored: at most
    /// `MAX_THEMES` themes.
    pub fn fits(&self) -> (r: bool)
        ensures
            r == (self.count() <= MAX_THEMES),
    {
        self.themes.len() <= MAX_THEMES
    }

    /// Images to try for the theme whose selection key is `key`: the
    /// remembered image first, then the others in their order; all of them
    /// for a theme without an entry, none for the solid background. A missing
    /// or unreadable image must not make the theme unusable.
    pub fn candidates(&self, key: &str, names: &[String]) -> (r: Vec<String>)
        ensures
            !self@.dom().contains(key@) ==> r@ == names@,
            self@.dom().contains(key@) ==> match self@[key@] {
                None => r@.len() == 0,
                Some(chosen) => r@ == picked(names@, chosen) + others(names@, chosen),
            },
    {
        let i = self.find(key);
        if i == self.themes.len() {
            return crate::text::owned(names);
        }
        match &self.themes[i].1 {
            None => Vec::new(),
            Some(chosen) => {
                let ghost c = chosen@;
                let mut first: Vec<String> = Vec::new();
                let mut rest: Vec<String> = Vec::new();
                let mut k: usize = 0;
                while k < names.len()
                    invariant
                        k <= names@.len(),
                        c == chosen@,
                        first@ == picked(names@.take(k as int), c),
                        rest@ == others(names@.take(k as int), c),
                    decreases names@.len() - k,
                {
                    let ghost t = names@.take(k + 1);
                    proof {
                        reveal(Seq::filter);
                        assert(t.drop_last() =~= names@.take(k as int));
                        assert(t.last() == names@[k as int]);
                    }
                    if same_str(names[k].as_str(), chosen.as_str()) {
                        first.push(names[k].clone());
                    } else {
                        rest.push(names[k].clone());
                    }
                    k += 1;
                }
                assert(names@.take(k as int) =~= names@);
                first.append(&mut rest);
                first
            },
        }
    }

    /// Remembers `name` for the theme whose selection key is `key`; gives
    /// back what was remembered before (`None` when the theme had no entry),
    /// so that a failed save can be undone with `restore`.
    pub fn remember(&mut self, key: String, name: Option<String>) -> (previous: Option<Option<String>>)
        ensures
            final(self)@ == old(self)@.insert(key@, choice_view(name)),
            previous is None <==> !old(self)@.dom().contains(key@),
            previous matches Some(p) ==> old(self)@[key@] == choice_view(p),
            final(self).count() == old(self).count() + (if previous is None { 1int } else { 0int }),
    {
        proof {
            use_type_invariant(&*self);
        }
        let i = self.find(key.as_str());
        let mut themes: Vec<(String, Option<String>)> = Vec::new();
        std::mem::swap(&mut themes, &mut self.themes);
        let ghost before = themes@;
        if i < themes.len() {
            let (theme, old_choice) = themes.remove(i);
            themes.insert(i, (theme, name));
            proof {
                assert(themes@ =~= before.update(i as int, themes@[i as int]));
                assert(choices(themes@) =~= choices(before).insert(key@, choice_view(name))) by {
                    assert forall|k: Seq<char>| #![trigger lists_theme(themes@, k)]
                        lists_theme(themes@, k) == lists_theme(before, k) by {
                        if lists_theme(before, k) {
                            let j = slot_of(before, k);
                            assert(themes@[j].0@ == k);
                        }
                        if lists_theme(themes@, k) {
                            let j = slot_of(themes@, k);
                            assert(before[j].0@ == k);
                        }
                    }
                    assert forall|k: Seq<char>| lists_theme(themes@, k) implies
                        #[trigger] choices(themes@)[k] == choices(before).insert(key@, choice_view(name))[k] by {
                        let j = slot_of(before, k);
                        lemma_slot(before, j);
                        lemma_slot(themes@, j);
                    }
                }
            }
            self.themes = themes;
            Some(old_choice)
        } else {
            themes.push((key, name));
            proof {
                let n = before.len() as int;
                assert(themes@ =~= before.push(themes@[n]));
                assert(choices(themes@) =~= choices(before).insert(themes@[n].0@, choice_view(name))) by {
                    lemma_slot(themes@, n);
                    assert forall|k: Seq<char>| #![trigger lists_theme(themes@, k)]
                        lists_theme(themes@, k) == (lists_theme(before, k) || k == themes@[n].0@) by {
                        if lists_theme(before, k) {
                            let j = slot_of(before, k);
                            assert(themes@[j].0@ == k);
                        }
                    }
                    assert forall|k: Seq<char>| lists_theme(before, k) implies
                        #[trigger] choices(themes@)[k] == choices(before)[k] by {
                        let j = slot_of(before, k);
                        lemma_slot(before, j);
                        lemma_slot(themes@, j);
                    }
                }
            }
            self.themes = themes;
            None
        }
    }

    /// Puts back what `remember` replaced: the earlier choice, or no entry.
    pub fn restore(&mut self, key: String, previous: Option<Option<String>>)
        ensures
            final(self)@ == match previous {
                Some(p) => old(self)@.insert(key@, choice_view(p)),
                None => old(self)@.remove(key@),
            },
    {
        match previous {
            Some(p) => {
                self.remember(key, p);
            },
            None => {
                proof {
                    use_type_invariant(&*self);
                }
                let i = self.find(key.as_str());
                if i < self.themes.len() {
                    let mut themes: Vec<(String, Option<String>)> = Vec::new();
                    std::mem::swap(&mut themes, &mut self.themes);
                    let ghost before = themes@;
                    themes.remove(i);
                    proof {
                        assert(choices(themes@) =~= choices(before).remove(key@)) by {
                            assert forall|k: Seq<char>| #![trigger lists_theme(themes@, k)]
                                lists_theme(themes@, k) == (lists_theme(before, k) && k != key@) by {
                                if lists_theme(before, k) && k != key@ {
                                    let j = slot_of(before, k);
                                    lemma_slot(before, j);
                                    if j < i {
                                        assert(themes@[j].0@ == k);
                                    } else {
                                        assert(themes@[j - 1].0@ == k);
                                    }
                                }
                                if lists_theme(themes@, k) {
                                    let j = slot_of(themes@, k);
                                    if j < i {
                                        assert(before[j].0@ == k);
                                    } else {
                                        assert(before[j + 1].0@ == k);
                                    }
                                }
                            }
                            assert forall|k: Seq<char>| lists_theme(themes@, k) implies
                                #[trigger] choices(themes@)[k] == choices(before)[k] by {
                                let j = slot_of(themes@, k);
                                lemma_slot(themes@, j);
                                if j < i {
                                    lemma_slot(before, j);
                                } else {
                                    lemma_slot(before, j + 1);
                                }
                            }
                        }
                    }
                    self.themes = themes;
                } else {
                    proof {
                        assert(self@ =~= self@.remove(key@));
                    }
                }
            },
        }
    }
}

impl Default for Selections {
    fn default() -> (s: Self)
        ensures
            s@ == Map::<Seq<char>, Option<Seq<char>>>::empty(),
    {
        Selections::new()
    }
}

/// The names equal to `chosen`, in order.
pub open spec fn picked(names: Seq<String>, chosen: Seq<char>) -> Seq<String> {
    names.filter(|n: String| n@ == chosen)
}

/// The other names, in order.
pub open spec fn others(names: Seq<String>, chosen: Seq<char>) -> Seq<String> {
    names.filter(|n: String| n@ != chosen)
}

proof fn lemma_split_keeps_all(names: Seq<String>, chosen: Seq<char>)
    ensures
        picked(names, chosen).to_multiset().add(others(names, chosen).to_multiset()) == names.to_multiset(),
    decreases names.len(),
{
    broadcast use vstd::seq_lib::group_to_multiset_ensures;
    broadcast use vstd::multiset::group_multiset_axioms;
    reveal(Seq::filter);
    if names.len() == 0 {
        assert(picked(names, chosen) =~= Seq::<String>::empty());
        assert(others(names, chosen) =~= Seq::<String>::empty());
        assert(names.to_multiset() =~= vstd::multiset::Multiset::<String>::empty());
        assert(Seq::<String>::empty().to_multiset() =~= vstd::multiset::Multiset::<String>::empty());
        assert(vstd::multiset::Multiset::<String>::empty().add(vstd::multiset::Multiset::<String>::empty()) =~= vstd::multiset::Multiset::<String>::empty());
    } else {
        let rest = names.drop_last();
        let last = names.last();
        lemma_split_keeps_all(rest, chosen);
        assert(rest.push(last) =~= names);
        assert(picked(names, chosen).to_multiset().add(others(names, chosen).to_multiset()) =~= names.to_multiset());
    }
}

proof fn lemma_picked_are_chosen(names: Seq<String>, chosen: Seq<char>)
    ensures
        forall|i: int| 0 <= i < picked(names, chosen).len() ==> (#[trigger] picked(names, chosen)[i])@ == chosen,
    decreases names.len(),
{
    reveal(Seq::filter);
    if names.len() > 0 {
        lemma_picked_are_chosen(names.drop_last(), chosen);
        let before = picked(names.drop_last(), chosen);
        assert forall|i: int| 0 <= i < picked(names, chosen).len() implies (#[trigger] picked(names, chosen)[i])@ == chosen by {
            if i < before.len() {
                assert(picked(names, chosen)[i] == before[i]);
            }
        }
    }
}

/// A remembered image comes first and no image is lost: the candidates of a
/// theme hold exactly its images, each as often as listed, so a missing or
/// corrupt remembered image never leaves the theme without one to try.
pub proof fn candidates_keep_every_image(names: Seq<String>, chosen: Seq<char>)
    ensures
        (picked(names, chosen) + others(names, chosen)).to_multiset() == names.to_multiset(),
        forall|i: int| 0 <= i < picked(names, chosen).len() ==> (#[trigger] picked(names, chosen)[i])@ == chosen,
{
    vstd::seq_lib::lemma_multiset_commutative(picked(names, chosen), others(names, chosen));
    lemma_split_keeps_all(names, chosen);
    lemma_picked_are_chosen(names, chosen);
}

/// Undoing a choice: `restore` with what `remember` gave back leaves the
/// memory as it was before the choice.
pub proof fn restore_undoes_remember(
    before: Map<Seq<char>, Option<Seq<char>>>,
    key: Seq<char>,
    name: Option<Seq<char>>,
    previous: Option<Option<Seq<char>>>,
)
    requires
        previous is None <==> !before.dom().contains(key),
        previous matches Some(p) ==> before[key] == p,
    ensures
        before == match previous {
            Some(p) => before.insert(key, name).insert(key, p),
            None => before.insert(key, name).remove(key),
        },
{
    match previous {
        Some(p) => assert(before =~= before.insert(key, name).insert(key, p)),
        None => assert(before =~= before.insert(key, name).remove(key)),
    }
}

} // verus!

