//! The integer side of the blur plugin: parameter checks, the disc-shaped kernel,
//! the pixels each output pixel reads, and progress reporting. The weighted sums
//! themselves are floating point and are not part of this module.

use vstd::prelude::*;
use crate::validation::{STATUS_INVALID_PARAMS, STATUS_INVALID_RADIUS};

verus! {

/// Parameters of the blur plugin, as read from its JSON text.
#[derive(Debug, Clone, Copy, PartialEq, Eq)]
pub struct BlurParams {
    pub radius: u32,
    pub iterations: u32,
}

/// Blur parameters once the radius has been converted for pixel arithmetic.
#[derive(Debug, Clone, Copy, PartialEq, Eq)]
pub struct BlurSettings {
    pub radius: isize,
    pub iterations: u32,
}

/// What the blur plugin does with the outcome of reading its parameter text
/// (`None` when the text is not valid JSON for [`BlurParams`]): either the
/// settings to blur with, or the status to return at once.
pub fn blur_settings(params: Option<BlurParams>) -> (res: Result<BlurSettings, i32>)
    ensures
        match params {
            None => res == Err::<BlurSettings, i32>(STATUS_INVALID_PARAMS),
            Some(p) => if p.radius <= isize::MAX {
                res == Ok::<BlurSettings, i32>(
                    BlurSettings { radius: p.radius as isize, iterations: p.iterations },
                )
            } else {
                res == Err::<BlurSettings, i32>(STATUS_INVALID_RADIUS)
            },
        },
{
    match params {
        None => Err(STATUS_INVALID_PARAMS),
        Some(p) => {
            if (p.radius as u64) <= (isize::MAX as u64) {
                Ok(BlurSettings { radius: p.radius as isize, iterations: p.iterations })
            } else {
                Err(STATUS_INVALID_RADIUS)
            }
        },
    }
}

/// Why a blur was refused.
#[derive(Debug, Clone, Copy, PartialEq, Eq)]
pub enum BlurError {
    /// The radius or the number of iterations is zero.
    ZeroRadiusOrIterations,
}

impl BlurError {
    /// The text that reports this error.
    pub fn message(&self) -> (msg: String)
        ensures
            msg@ == "radius and iterations must be greater than 0"@,
    {
        String::from_str("radius and iterations must be greater than 0")
    }
}

/// A blur needs a non-zero radius and at least one iteration.
pub fn check_blur_args(radius: isize, iterations: u32) -> (res: Result<(), BlurError>)
    ensures
        res is Err <==> (radius == 0 || iterations == 0),
        res is Err ==> res == Err::<(), BlurError>(BlurError::ZeroRadiusOrIterations),
{
    if radius == 0 || iterations == 0 {
        Err(BlurError::ZeroRadiusOrIterations)
    } else {
        Ok(())
    }
}

/// One offset of the blur kernel, with its squared distance from the centre.
#[derive(Debug, Clone, Copy, PartialEq, Eq)]
pub struct KernelTap {
    pub dx: isize,
    pub dy: isize,
    pub dist_sq: isize,
}

/// The kernel entry for offset `(dx, dy)`.
pub open spec fn disc_tap(dx: int, dy: int) -> KernelTap {
    KernelTap { dx: dx as isize, dy: dy as isize, dist_sq: (dx * dx + dy * dy) as isize }
}

/// Offsets `(dx, dy)` of row `dy` with `-r <= dx < -r + n` that lie in the closed disc of
/// radius `r`, left to right.
pub open spec fn kernel_row(r: int, dy: int, n: nat) -> Seq<KernelTap>
    decreases n,
{
    if n == 0 {
        seq![]
    } else {
        let dx = -r + (n - 1);
        let prev = kernel_row(r, dy, (n - 1) as nat);
        if dx * dx + dy * dy <= r * r {
            prev.push(disc_tap(dx, dy))
        } else {
            prev
        }
    }
}

/// The disc offsets of rows `-r <= dy < -r + m`, row by row.
pub open spec fn kernel_rows(r: int, m: nat) -> Seq<KernelTap>
    decreases m,
{
    if m == 0 {
        seq![]
    } else {
        kernel_rows(r, (m - 1) as nat) + kernel_row(r, -r + (m - 1), (2 * r + 1) as nat)
    }
}

/// All offsets `(dx, dy)` with `dx * dx + dy * dy <= r * r`, row by row from `dy = -r`
/// and left to right inside a row; empty for a negative radius.
pub open spec fn blur_kernel_spec(r: int) -> Seq<KernelTap> {
    if r < 0 {
        seq![]
    } else {
        kernel_rows(r, (2 * r + 1) as nat)
    }
}

/// The squared offsets a radius needs fit in `isize`.
pub open spec fn kernel_radius_fits(radius: int) -> bool {
    &&& radius * radius <= isize::MAX
    &&& radius > isize::MIN
    &&& (radius <= 0 || 2 * radius * radius <= isize::MAX)
}

/// Builds the blur kernel: every offset within `radius` of the centre, with its
/// squared distance, in row-major order.
pub fn blur_kernel(radius: isize) -> (kernel: Vec<KernelTap>)
    requires
        kernel_radius_fits(radius as int),
    ensures
        kernel@ == blur_kernel_spec(radius as int),
{
    proof {
        assert(0 <= radius * radius) by (nonlinear_arith);
    }
    let radius_sq = radius * radius;
    let mut kernel: Vec<KernelTap> = Vec::new();
    if radius < 0 {
        return kernel;
    }
    let ghost r = radius as int;
    proof {
        assert(r < isize::MAX) by (nonlinear_arith)
            requires
                r >= 0,
                r <= 0 || 2 * r * r <= isize::MAX,
        ;
    }
    let mut dy: isize = -radius;
    while dy <= radius
        invariant
            r == radius,
            r >= 0,
            radius_sq == r * r,
            2 * r * r <= isize::MAX,
            r < isize::MAX,
            -r <= dy <= r + 1,
            kernel@ == kernel_rows(r, (dy + r) as nat),
        decreases r + 1 - dy,
    {
        let mut dx: isize = -radius;
        while dx <= radius
            invariant
                r == radius,
                r >= 0,
                radius_sq == r * r,
                2 * r * r <= isize::MAX,
                r < isize::MAX,
                -r <= dy <= r,
                -r <= dx <= r + 1,
                kernel@ == kernel_rows(r, (dy + r) as nat) + kernel_row(r, dy as int, (dx + r) as nat),
            decreases r + 1 - dx,
        {
            proof {
                assert(dx * dx <= r * r && dy * dy <= r * r && 0 <= dx * dx && 0 <= dy * dy)
                    by (nonlinear_arith)
                    requires
                        -r <= dx <= r,
                        -r <= dy <= r,
                ;
                assert(r * r + r * r == 2 * r * r) by (nonlinear_arith);
            }
            let dist_sq = dx * dx + dy * dy;
            if dist_sq <= radius_sq {
                kernel.push(KernelTap { dx, dy, dist_sq });
            }
            proof {
                let n = (dx + 1 + r) as nat;
                assert(-r + (n - 1) == dx);
                assert(kernel_rows(r, (dy + r) as nat) + kernel_row(r, dy as int, n) =~= kernel@);
            }
            dx = dx + 1;
        }
        proof {
            let m = (dy + 1 + r) as nat;
            assert(-r + (m - 1) == dy);
            assert(kernel_rows(r, m) == kernel_rows(r, (dy + r) as nat) + kernel_row(
                r,
                dy as int,
                (2 * r + 1) as nat,
            ));
        }
        dy = dy + 1;
    }
    kernel
}

} // verus!

verus! {

/// A pixel that an output pixel reads: the byte index of its red channel, and the
/// squared distance that fixes its weight.
#[derive(Debug, Clone, Copy, PartialEq, Eq)]
pub struct SourceTap {
    pub index: usize,
    pub dist_sq: isize,
}

/// The pixels read for output pixel `(x, y)` of a `width` x `height` image: one per
/// kernel entry whose target `(x + dx, y + dy)` lies inside the image, in kernel order.
pub open spec fn source_taps(kernel: Seq<KernelTap>, x: int, y: int, width: int, height: int) -> Seq<
    SourceTap,
>
    decreases kernel.len(),
{
    if kernel.len() == 0 {
        seq![]
    } else {
        let prev = source_taps(kernel.drop_last(), x, y, width, height);
        let t = kernel.last();
        let nx = x + t.dx;
        let ny = y + t.dy;
        if 0 <= nx < width && 0 <= ny < height {
            prev.push(SourceTap { index: ((ny * width + nx) * 4) as usize, dist_sq: t.dist_sq })
        } else {
            prev
        }
    }
}

/// Every kernel offset, added to `(x, y)`, stays within `isize`.
pub open spec fn offsets_fit(kernel: Seq<KernelTap>, x: int, y: int) -> bool {
    forall|i: int|
        0 <= i < kernel.len() ==> isize::MIN <= x + (#[trigger] kernel[i]).dx <= isize::MAX
            && isize::MIN <= y + kernel[i].dy <= isize::MAX
}

/// Lists, in kernel order, the pixels that output pixel `(x, y)` reads.
pub fn pixel_taps(kernel: &Vec<KernelTap>, x: usize, y: usize, width: usize, height: usize) -> (taps:
    Vec<SourceTap>)
    requires
        x < width,
        y < height,
        width <= isize::MAX,
        height <= isize::MAX,
        width * height * 4 <= usize::MAX,
        offsets_fit(kernel@, x as int, y as int),
    ensures
        taps@ == source_taps(kernel@, x as int, y as int, width as int, height as int),
        forall|i: int|
            0 <= i < taps@.len() ==> (#[trigger] taps@[i]).index + 4 <= width * height * 4
                && taps@[i].index % 4 == 0,
{
    let width_i = width as isize;
    let height_i = height as isize;
    let x_i = x as isize;
    let y_i = y as isize;
    let mut taps: Vec<SourceTap> = Vec::new();
    let mut k: usize = 0;
    while k < kernel.len()
        invariant
            x < width,
            y < height,
            width <= isize::MAX,
            height <= isize::MAX,
            width * height * 4 <= usize::MAX,
            width_i == width,
            height_i == height,
            x_i == x,
            y_i == y,
            offsets_fit(kernel@, x as int, y as int),
            k <= kernel@.len(),
            taps@ == source_taps(kernel@.take(k as int), x as int, y as int, width as int, height as int),
            forall|i: int|
                0 <= i < taps@.len() ==> (#[trigger] taps@[i]).index + 4 <= width * height * 4
                    && taps@[i].index % 4 == 0,
        decreases kernel@.len() - k,
    {
        let t = kernel[k];
        assert(isize::MIN <= x + kernel@[k as int].dx <= isize::MAX);
        let nx = x_i + t.dx;
        let ny = y_i + t.dy;
        let ghost prefix = kernel@.take(k as int + 1);
        assert(prefix.drop_last() =~= kernel@.take(k as int));
        assert(prefix.last() == t);
        if !(nx < 0 || ny < 0 || nx >= width_i || ny >= height_i) {
            proof {
                assert((ny * width + nx) * 4 + 4 <= width * height * 4) by (nonlinear_arith)
                    requires
                        0 <= nx < width,
                        0 <= ny < height,
                ;
                assert(0 <= ny * width) by (nonlinear_arith)
                    requires
                        0 <= ny,
                        0 <= width,
                ;
                assert(ny * width + nx < width * height) by (nonlinear_arith)
                    requires
                        0 <= nx < width,
                        0 <= ny < height,
                ;
                assert(width * height <= width * height * 4) by (nonlinear_arith)
                    requires
                        0 <= width,
                        0 <= height,
                ;
            }
            let index = ((ny as usize) * width + (nx as usize)) * 4;
            taps.push(SourceTap { index, dist_sq: t.dist_sq });
        }
        k = k + 1;
    }
    assert(kernel@.take(kernel@.len() as int) =~= kernel@);
    taps
}

/// Percentage of rows done that the blur reports after finishing row `done_rows`
/// (counted from zero) out of `total_rows`, rounded down.
pub fn progress_percent(done_rows: usize, total_rows: usize) -> (percent: usize)
    requires
        total_rows > 0,
        (done_rows + 1) * 100 <= usize::MAX,
    ensures
        percent == ((done_rows + 1) * 100) / (total_rows as int),
        done_rows < total_rows ==> percent <= 100,
{
    let p = ((done_rows + 1) * 100) / total_rows;
    proof {
        if done_rows < total_rows {
            assert(((done_rows + 1) * 100) / (total_rows as int) <= 100) by (nonlinear_arith)
                requires
                    done_rows + 1 <= total_rows,
                    total_rows > 0,
            ;
        }
    }
    p
}

} // verus!

verus! {

/// Two kernel entries with offsets inside `isize` are equal only for equal offsets.
proof fn lemma_disc_tap_injective(a: int, b: int, c: int, d: int)
    requires
        isize::MIN <= a <= isize::MAX,
        isize::MIN <= b <= isize::MAX,
        isize::MIN <= c <= isize::MAX,
        isize::MIN <= d <= isize::MAX,
    ensures
        disc_tap(a, b) == disc_tap(c, d) <==> (a == c && b == d),
{
}

proof fn lemma_kernel_row_contains(r: int, dy: int, n: nat, a: int, b: int)
    requires
        0 <= r < isize::MAX,
        -r <= dy <= r,
        n <= 2 * r + 1,
        isize::MIN <= a <= isize::MAX,
        isize::MIN <= b <= isize::MAX,
    ensures
        kernel_row(r, dy, n).contains(disc_tap(a, b)) <==> (b == dy && -r <= a < -r + n && a * a
            + b * b <= r * r),
    decreases n,
{
    if n > 0 {
        let dx = -r + (n - 1);
        let prev = kernel_row(r, dy, (n - 1) as nat);
        lemma_kernel_row_contains(r, dy, (n - 1) as nat, a, b);
        lemma_disc_tap_injective(a, b, dx, dy);
        if dx * dx + dy * dy <= r * r {
            let cur = prev.push(disc_tap(dx, dy));
            if prev.contains(disc_tap(a, b)) {
                let i = choose|i: int| 0 <= i < prev.len() && prev[i] == disc_tap(a, b);
                assert(cur[i] == disc_tap(a, b));
            }
            if a == dx && b == dy {
                assert(cur[prev.len() as int] == disc_tap(a, b));
            }
            if cur.contains(disc_tap(a, b)) {
                let i = choose|i: int| 0 <= i < cur.len() && cur[i] == disc_tap(a, b);
                if i < prev.len() {
                    assert(prev[i] == disc_tap(a, b));
                }
            }
        }
    }
}

proof fn lemma_kernel_rows_contains(r: int, m: nat, a: int, b: int)
    requires
        0 <= r < isize::MAX,
        m <= 2 * r + 1,
        isize::MIN <= a <= isize::MAX,
        isize::MIN <= b <= isize::MAX,
    ensures
        kernel_rows(r, m).contains(disc_tap(a, b)) <==> (-r <= b < -r + m && -r <= a <= r && a * a
            + b * b <= r * r),
    decreases m,
{
    if m > 0 {
        let dy = -r + (m - 1);
        let prev = kernel_rows(r, (m - 1) as nat);
        let row = kernel_row(r, dy, (2 * r + 1) as nat);
        let cur = prev + row;
        lemma_kernel_rows_contains(r, (m - 1) as nat, a, b);
        lemma_kernel_row_contains(r, dy, (2 * r + 1) as nat, a, b);
        if prev.contains(disc_tap(a, b)) {
            let i = choose|i: int| 0 <= i < prev.len() && prev[i] == disc_tap(a, b);
            assert(cur[i] == disc_tap(a, b));
        }
        if row.contains(disc_tap(a, b)) {
            let i = choose|i: int| 0 <= i < row.len() && row[i] == disc_tap(a, b);
            assert(cur[prev.len() + i] == disc_tap(a, b));
        }
        if cur.contains(disc_tap(a, b)) {
            let i = choose|i: int| 0 <= i < cur.len() && cur[i] == disc_tap(a, b);
            if i < prev.len() {
                assert(prev[i] == disc_tap(a, b));
            } else {
                assert(row[i - prev.len()] == disc_tap(a, b));
            }
        }
    }
}

/// The kernel holds an entry for offset `(dx, dy)` exactly when the offset lies in the
/// closed disc of radius `radius`.
pub proof fn lemma_kernel_is_disc(radius: int, dx: int, dy: int)
    requires
        radius >= 0,
        kernel_radius_fits(radius),
        isize::MIN <= dx <= isize::MAX,
        isize::MIN <= dy <= isize::MAX,
    ensures
        blur_kernel_spec(radius).contains(disc_tap(dx, dy)) <==> dx * dx + dy * dy <= radius
            * radius,
{
    assert(radius < isize::MAX) by (nonlinear_arith)
        requires
            radius >= 0,
            radius <= 0 || 2 * radius * radius <= isize::MAX,
    ;
    lemma_kernel_rows_contains(radius, (2 * radius + 1) as nat, dx, dy);
    if dx * dx + dy * dy <= radius * radius {
        assert(-radius <= dx <= radius && -radius <= dy <= radius) by (nonlinear_arith)
            requires
                dx * dx + dy * dy <= radius * radius,
                radius >= 0,
        ;
    }
}

} // verus!

verus! {

/// The pixels output pixel `(x, y)` reads are exactly the kernel offsets that land
/// inside the image, `0 <= x + dx < width` and `0 <= y + dy < height`, kept in kernel
/// order; each reads the pixel at byte `((y + dy) * width + (x + dx)) * 4` with the
/// offset's squared distance. An offset that leaves the image in either direction
/// contributes nothing, even when that byte position would still be inside the buffer.
pub proof fn lemma_pixel_taps_are_the_offsets_inside(
    kernel: Seq<KernelTap>,
    x: int,
    y: int,
    width: int,
    height: int,
)
    ensures
        source_taps(kernel, x, y, width, height) == kernel.filter(
            |t: KernelTap| 0 <= x + t.dx < width && 0 <= y + t.dy < height,
        ).map_values(
            |t: KernelTap|
                SourceTap {
                    index: (((y + t.dy) * width + (x + t.dx)) * 4) as usize,
                    dist_sq: t.dist_sq,
                },
        ),
    decreases kernel.len(),
{
    let inside = |t: KernelTap| 0 <= x + t.dx < width && 0 <= y + t.dy < height;
    let read = |t: KernelTap|
        SourceTap { index: (((y + t.dy) * width + (x + t.dx)) * 4) as usize, dist_sq: t.dist_sq };
    reveal_with_fuel(Seq::filter, 1);
    if kernel.len() == 0 {
        assert(kernel.filter(inside).map_values(read) =~= seq![]);
    } else {
        lemma_pixel_taps_are_the_offsets_inside(kernel.drop_last(), x, y, width, height);
        let sub = kernel.drop_last().filter(inside);
        if inside(kernel.last()) {
            assert(sub.push(kernel.last()).map_values(read) =~= sub.map_values(read).push(
                read(kernel.last()),
            ));
        }
    }
}

} // verus!

verus! {

/// Kernel entry `a` comes before `b` in row-major order: an earlier row, or the same
/// row and a smaller column offset.
pub open spec fn tap_before(a: KernelTap, b: KernelTap) -> bool {
    a.dy < b.dy || (a.dy == b.dy && a.dx < b.dx)
}

proof fn lemma_kernel_row_shape(r: int, dy: int, n: nat)
    requires
        0 <= r < isize::MAX,
        -r <= dy <= r,
        n <= 2 * r + 1,
    ensures
        forall|i: int|
            0 <= i < kernel_row(r, dy, n).len() ==> {
                let t = #[trigger] kernel_row(r, dy, n)[i];
                &&& t.dy == dy
                &&& -r <= t.dx < -r + n
                &&& t == disc_tap(t.dx as int, t.dy as int)
                &&& t.dx * t.dx + t.dy * t.dy <= r * r
            },
        forall|i: int, j: int|
            0 <= i < j < kernel_row(r, dy, n).len() ==> #[trigger] kernel_row(r, dy, n)[i].dx
                < #[trigger] kernel_row(r, dy, n)[j].dx,
    decreases n,
{
    if n > 0 {
        let dx = -r + (n - 1);
        let prev = kernel_row(r, dy, (n - 1) as nat);
        lemma_kernel_row_shape(r, dy, (n - 1) as nat);
        if dx * dx + dy * dy <= r * r {
            let cur = prev.push(disc_tap(dx, dy));
            assert(cur == kernel_row(r, dy, n));
            assert forall|i: int| 0 <= i < cur.len() implies {
                let t = #[trigger] cur[i];
                &&& t.dy == dy
                &&& -r <= t.dx < -r + n
                &&& t == disc_tap(t.dx as int, t.dy as int)
                &&& t.dx * t.dx + t.dy * t.dy <= r * r
            } by {
                if i < prev.len() {
                    assert(cur[i] == prev[i]);
                } else {
                    assert(cur[i] == disc_tap(dx, dy));
                }
            }
            assert forall|i: int, j: int| 0 <= i < j < cur.len() implies #[trigger] cur[i].dx
                < #[trigger] cur[j].dx by {
                if j < prev.len() {
                    assert(cur[i] == prev[i] && cur[j] == prev[j]);
                } else {
                    assert(cur[i] == prev[i] && cur[j] == disc_tap(dx, dy));
                }
            }
        }
    }
}

proof fn lemma_kernel_rows_shape(r: int, m: nat)
    requires
        0 <= r < isize::MAX,
        m <= 2 * r + 1,
    ensures
        forall|i: int|
            0 <= i < kernel_rows(r, m).len() ==> {
                let t = #[trigger] kernel_rows(r, m)[i];
                &&& -r <= t.dy < -r + m
                &&& t == disc_tap(t.dx as int, t.dy as int)
                &&& t.dx * t.dx + t.dy * t.dy <= r * r
            },
        forall|i: int, j: int|
            0 <= i < j < kernel_rows(r, m).len() ==> tap_before(
                #[trigger] kernel_rows(r, m)[i],
                #[trigger] kernel_rows(r, m)[j],
            ),
    decreases m,
{
    if m > 0 {
        let dy = -r + (m - 1);
        let prev = kernel_rows(r, (m - 1) as nat);
        let row = kernel_row(r, dy, (2 * r + 1) as nat);
        lemma_kernel_rows_shape(r, (m - 1) as nat);
        lemma_kernel_row_shape(r, dy, (2 * r + 1) as nat);
        let all = prev + row;
        assert forall|i: int| 0 <= i < all.len() implies {
            let t = #[trigger] all[i];
            &&& -r <= t.dy < -r + m
            &&& t == disc_tap(t.dx as int, t.dy as int)
            &&& t.dx * t.dx + t.dy * t.dy <= r * r
        } by {
            if i < prev.len() {
                assert(all[i] == prev[i]);
            } else {
                assert(all[i] == row[i - prev.len()]);
            }
        }
        assert forall|i: int, j: int| 0 <= i < j < all.len() implies tap_before(
            #[trigger] all[i],
            #[trigger] all[j],
        ) by {
            if j < prev.len() {
                assert(all[i] == prev[i] && all[j] == prev[j]);
            } else if i < prev.len() {
                assert(all[i] == prev[i] && all[j] == row[j - prev.len()]);
            } else {
                assert(all[i] == row[i - prev.len()] && all[j] == row[j - prev.len()]);
            }
        }
    }
}

/// The kernel lists the offsets of the disc in row-major order, each exactly once:
/// every entry is an offset `(dx, dy)` with `dx * dx + dy * dy <= radius * radius`
/// carrying that squared distance, and each entry comes strictly after the one before
/// it (an earlier row first, then a smaller column offset), so no offset repeats.
/// With `lemma_kernel_is_disc`, which says every offset of the disc is there, this
/// fixes the kernel completely.
pub proof fn lemma_kernel_is_sorted_without_repeats(radius: int)
    requires
        radius >= 0,
        kernel_radius_fits(radius),
    ensures
        forall|i: int|
            0 <= i < blur_kernel_spec(radius).len() ==> {
                let t = #[trigger] blur_kernel_spec(radius)[i];
                &&& t.dist_sq == t.dx * t.dx + t.dy * t.dy
                &&& t.dx * t.dx + t.dy * t.dy <= radius * radius
            },
        forall|i: int, j: int|
            0 <= i < j < blur_kernel_spec(radius).len() ==> tap_before(
                #[trigger] blur_kernel_spec(radius)[i],
                #[trigger] blur_kernel_spec(radius)[j],
            ),
        blur_kernel_spec(radius).no_duplicates(),
{
    assert(radius < isize::MAX) by (nonlinear_arith)
        requires
            radius >= 0,
            radius <= 0 || 2 * radius * radius <= isize::MAX,
    ;
    let k = blur_kernel_spec(radius);
    lemma_kernel_rows_shape(radius, (2 * radius + 1) as nat);
    assert forall|i: int| 0 <= i < k.len() implies {
        let t = #[trigger] k[i];
        &&& t.dist_sq == t.dx * t.dx + t.dy * t.dy
        &&& t.dx * t.dx + t.dy * t.dy <= radius * radius
    } by {
        let t = k[i];
        assert(t == disc_tap(t.dx as int, t.dy as int));
        assert(-radius <= t.dx <= radius && -radius <= t.dy <= radius) by (nonlinear_arith)
            requires
                t.dx * t.dx + t.dy * t.dy <= radius * radius,
                radius >= 0,
        ;
        assert(0 <= t.dx * t.dx + t.dy * t.dy <= 2 * radius * radius) by (nonlinear_arith)
            requires
                -radius <= t.dx <= radius,
                -radius <= t.dy <= radius,
        ;
        assert(t.dist_sq == ((t.dx * t.dx + t.dy * t.dy) as isize));
    }
    assert forall|i: int, j: int| 0 <= i < k.len() && 0 <= j < k.len() && i != j implies k[i]
        != k[j] by {
        if i < j {
            assert(tap_before(k[i], k[j]));
        } else {
            assert(tap_before(k[j], k[i]));
        }
    }
}

} // verus!
