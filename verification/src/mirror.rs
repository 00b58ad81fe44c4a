//! Mirroring of RGBA images stored row by row, four bytes per pixel.

use vstd::prelude::*;
use vstd::arithmetic::div_mod::lemma_fundamental_div_mod_converse;
use vstd::arithmetic::div_mod::lemma_fundamental_div_mod;
use crate::validation::{rgba_len_spec, STATUS_INVALID_PARAMS, STATUS_OK};

verus! {

/// Position, inside a row of `width` pixels, of the byte that byte `k` of that row
/// receives when the row is mirrored: same channel, pixel `width - 1 - k / 4`.
pub open spec fn row_mirror_offset(width: int, k: int) -> int {
    (width - 1 - k / 4) * 4 + k % 4
}

/// Swaps pixel `p` with pixel `width - 1 - p` for every `p < width / 2` in the row of
/// `width` pixels that starts at byte `start`; the rest of the buffer is left alone.
fn mirror_row(rgba: &mut [u8], start: usize, width: usize)
    requires
        start + width * 4 <= old(rgba)@.len(),
    ensures
        final(rgba)@.len() == old(rgba)@.len(),
        forall|p: int, c: int|
            0 <= p < width && 0 <= c < 4 ==> #[trigger] final(rgba)@[start + p * 4 + c]
                == old(rgba)@[start + (width - 1 - p) * 4 + c],
        forall|j: int|
            0 <= j < old(rgba)@.len() && !(start <= j < start + width * 4) ==> #[trigger] final(rgba)@[j] == old(rgba)@[j],
{
    let ghost before = rgba@;
    let n = rgba.len();
    let half = width / 2;
    let mut x: usize = 0;
    while x < half
        invariant
            start + width * 4 <= before.len(),
            n == before.len(),
            half == width / 2,
            x <= half,
            rgba@.len() == before.len(),
            forall|p: int, c: int|
                0 <= p < x && 0 <= c < 4 ==> #[trigger] rgba@[start + p * 4 + c] == before[start
                    + (width - 1 - p) * 4 + c],
            forall|p: int, c: int|
                width - x <= p < width && 0 <= c < 4 ==> #[trigger] rgba@[start + p * 4 + c]
                    == before[start + (width - 1 - p) * 4 + c],
            forall|p: int, c: int|
                x <= p < width - x && 0 <= c < 4 ==> #[trigger] rgba@[start + p * 4 + c]
                    == before[start + p * 4 + c],
            forall|j: int|
                0 <= j < before.len() && !(start <= j < start + width * 4) ==> #[trigger] rgba@[j]
                    == before[j],
        decreases half - x,
    {
        let left = start + x * 4;
        let right = start + (width - 1 - x) * 4;
        let mut i: usize = 0;
        while i < 4
            invariant
                start + width * 4 <= before.len(),
                n == before.len(),
                half == width / 2,
                x < half,
                left == start + x * 4,
                right == start + (width - 1 - x) * 4,
                left + 4 <= right,
                right + 4 <= start + width * 4,
                i <= 4,
                rgba@.len() == before.len(),
                forall|p: int, c: int|
                    0 <= p < x && 0 <= c < 4 ==> #[trigger] rgba@[start + p * 4 + c]
                        == before[start + (width - 1 - p) * 4 + c],
                forall|p: int, c: int|
                    width - x <= p < width && 0 <= c < 4 ==> #[trigger] rgba@[start + p * 4 + c]
                        == before[start + (width - 1 - p) * 4 + c],
                forall|p: int, c: int|
                    x < p < width - 1 - x && 0 <= c < 4 ==> #[trigger] rgba@[start + p * 4 + c]
                        == before[start + p * 4 + c],
                forall|c: int| 0 <= c < i ==> #[trigger] rgba@[left + c] == before[right + c],
                forall|c: int| 0 <= c < i ==> #[trigger] rgba@[right + c] == before[left + c],
                forall|c: int| i <= c < 4 ==> #[trigger] rgba@[left + c] == before[left + c],
                forall|c: int| i <= c < 4 ==> #[trigger] rgba@[right + c] == before[right + c],
                forall|j: int|
                    0 <= j < before.len() && !(start <= j < start + width * 4) ==> #[trigger] rgba@[j]
                        == before[j],
            decreases 4 - i,
        {
            let a = rgba[left + i];
            let b = rgba[right + i];
            rgba[left + i] = b;
            rgba[right + i] = a;
            i = i + 1;
        }
        assert forall|p: int, c: int|
            0 <= p < x + 1 && 0 <= c < 4 implies #[trigger] rgba@[start + p * 4 + c] == before[start
                + (width - 1 - p) * 4 + c] by {
            if p == x {
                assert(start + p * 4 + c == left + c);
            }
        }
        assert forall|p: int, c: int|
            width - (x + 1) <= p < width && 0 <= c < 4 implies #[trigger] rgba@[start + p * 4 + c]
                == before[start + (width - 1 - p) * 4 + c] by {
            if p == width - 1 - x {
                assert(start + p * 4 + c == right + c);
            }
        }
        x = x + 1;
    }
    assert forall|p: int, c: int|
        0 <= p < width && 0 <= c < 4 implies #[trigger] rgba@[start + p * 4 + c] == before[start + (
        width - 1 - p) * 4 + c] by {
        if x <= p < width - x {
            assert(p == width - 1 - p);
        }
    }
}

} // verus!

verus! {

/// Byte `i` of a buffer of `len` bytes, cut into rows of `width` pixels, receives byte
/// `hmirror_index(width, len, i)` when every complete row is mirrored left to right.
/// Bytes of a trailing incomplete row keep their place.
pub open spec fn hmirror_index(width: int, len: int, i: int) -> int {
    let row_len = width * 4;
    if row_len > 0 && 0 <= i < len - len % row_len {
        i - i % row_len + row_mirror_offset(width, i % row_len)
    } else {
        i
    }
}

/// The buffer `s` after each complete row of `width` pixels has been mirrored left to right.
pub open spec fn hmirrored(s: Seq<u8>, width: int) -> Seq<u8> {
    Seq::new(s.len(), |i: int| s[hmirror_index(width, s.len() as int, i)])
}

/// Mirrors every complete row of `width` RGBA pixels left to right, in place.
/// Bytes after the last complete row are left as they are.
pub fn horizontal_mirror(rgba: &mut [u8], width: usize)
    requires
        width > 0,
        width * 4 <= usize::MAX,
    ensures
        final(rgba)@ == hmirrored(old(rgba)@, width as int),
{
    let ghost before = rgba@;
    let row_len = width * 4;
    let n = rgba.len();
    let rows = n / row_len;
    proof {
        lemma_fundamental_div_mod(n as int, row_len as int);
        assert(rows * row_len == n - n % row_len) by (nonlinear_arith)
            requires
                n == row_len * (n / row_len) + n % row_len,
                rows == n / row_len,
        ;
    }
    let mut r: usize = 0;
    while r < rows
        invariant
            width > 0,
            row_len == width * 4,
            n == before.len(),
            rows * row_len == n - n % row_len,
            0 <= n % row_len,
            r <= rows,
            rgba@.len() == n,
            forall|i: int|
                0 <= i < r * row_len ==> #[trigger] rgba@[i] == before[hmirror_index(
                    width as int,
                    n as int,
                    i,
                )],
            forall|i: int| r * row_len <= i < n ==> #[trigger] rgba@[i] == before[i],
        decreases rows - r,
    {
        proof {
            assert((r + 1) * row_len <= rows * row_len) by (nonlinear_arith)
                requires
                    r < rows,
                    row_len > 0,
            ;
            assert((r + 1) * row_len == r * row_len + row_len) by (nonlinear_arith);
        }
        let start = r * row_len;
        let ghost mid = rgba@;
        mirror_row(rgba, start, width);
        assert forall|i: int| start <= i < start + row_len implies #[trigger] rgba@[i]
            == before[hmirror_index(width as int, n as int, i)] by {
            let k = i - start;
            lemma_fundamental_div_mod_converse(i, row_len as int, r as int, k);
            lemma_fundamental_div_mod(k, 4);
            let p = k / 4;
            let c = k % 4;
            assert(0 <= p < width);
            assert(i == start + p * 4 + c);
            assert(rgba@[start + p * 4 + c] == mid[start + (width - 1 - p) * 4 + c]);
        }
        r = r + 1;
    }
    assert(rgba@ =~= hmirrored(before, width as int));
}

} // verus!

verus! {

/// Exchanges the `count` bytes starting at `a` with the `count` bytes starting at `b`.
fn swap_ranges(rgba: &mut [u8], a: usize, b: usize, count: usize)
    requires
        a + count <= b,
        b + count <= old(rgba)@.len(),
    ensures
        final(rgba)@.len() == old(rgba)@.len(),
        forall|k: int| 0 <= k < count ==> #[trigger] final(rgba)@[a + k] == old(rgba)@[b + k],
        forall|k: int| 0 <= k < count ==> #[trigger] final(rgba)@[b + k] == old(rgba)@[a + k],
        forall|j: int|
            0 <= j < old(rgba)@.len() && !(a <= j < a + count) && !(b <= j < b + count)
                ==> #[trigger] final(rgba)@[j] == old(rgba)@[j],
{
    let ghost before = rgba@;
    let mut k: usize = 0;
    while k < count
        invariant
            a + count <= b,
            b + count <= before.len(),
            k <= count,
            rgba@.len() == before.len(),
            forall|m: int| 0 <= m < k ==> #[trigger] rgba@[a + m] == before[b + m],
            forall|m: int| 0 <= m < k ==> #[trigger] rgba@[b + m] == before[a + m],
            forall|j: int|
                0 <= j < before.len() && !(a <= j < a + k) && !(b <= j < b + k) ==> #[trigger] rgba@[j]
                    == before[j],
        decreases count - k,
    {
        let t = rgba[a + k];
        let u = rgba[b + k];
        rgba[a + k] = u;
        rgba[b + k] = t;
        k = k + 1;
    }
}

/// Byte `i` of an image of `height` rows of `width` pixels receives byte
/// `vmirror_index(width, height, i)` when the rows are put in reverse order.
/// Bytes past the last of the `height` rows keep their place.
pub open spec fn vmirror_index(width: int, height: int, i: int) -> int {
    let row_len = width * 4;
    if row_len > 0 && 0 <= i < height * row_len {
        (height - 1 - i / row_len) * row_len + i % row_len
    } else {
        i
    }
}

/// The buffer `s` after its first `height` rows of `width` pixels have been put in reverse order.
pub open spec fn vmirrored(s: Seq<u8>, width: int, height: int) -> Seq<u8> {
    Seq::new(s.len(), |i: int| s[vmirror_index(width, height, i)])
}

/// Reverses the order of the first `height` rows of `width` RGBA pixels, in place:
/// row `y` and row `height - 1 - y` change places for every `y < height / 2`.
pub fn vertical_mirror(rgba: &mut [u8], width: usize, height: usize)
    requires
        width * 4 <= usize::MAX,
        height < 2 || height * (width * 4) <= old(rgba)@.len(),
    ensures
        final(rgba)@ == vmirrored(old(rgba)@, width as int, height as int),
{
    let ghost before = rgba@;
    let n = rgba.len();
    let row_len = width * 4;
    let half = height / 2;
    let mut y: usize = 0;
    while y < half
        invariant
            row_len == width * 4,
            n == before.len(),
            half == height / 2,
            height < 2 || height * row_len <= n,
            y <= half,
            rgba@.len() == n,
            forall|i: int|
                0 <= i < y * row_len ==> #[trigger] rgba@[i] == before[vmirror_index(
                    width as int,
                    height as int,
                    i,
                )],
            forall|i: int|
                (height - y) * row_len <= i < height * row_len ==> #[trigger] rgba@[i]
                    == before[vmirror_index(width as int, height as int, i)],
            forall|i: int|
                0 <= i < n && !(0 <= i < y * row_len) && !((height - y) * row_len <= i < height
                    * row_len) ==> #[trigger] rgba@[i] == before[i],
        decreases half - y,
    {
        proof {
            assert((y + 1) * row_len == y * row_len + row_len) by (nonlinear_arith);
            assert((height - 1 - y) * row_len + row_len == (height - y) * row_len)
                by (nonlinear_arith);
            assert(y * row_len + row_len <= (height - 1 - y) * row_len) by (nonlinear_arith)
                requires
                    y < height / 2,
            ;
            assert((height - y) * row_len <= height * row_len) by (nonlinear_arith);
            assert(0 <= y * row_len) by (nonlinear_arith);
        }
        let top = y * row_len;
        let bottom = (height - 1 - y) * row_len;
        let ghost mid = rgba@;
        swap_ranges(rgba, top, bottom, row_len);
        assert forall|i: int| top <= i < top + row_len implies #[trigger] rgba@[i]
            == before[vmirror_index(width as int, height as int, i)] by {
            lemma_fundamental_div_mod_converse(i, row_len as int, y as int, i - top);
            assert(rgba@[top + (i - top)] == mid[bottom + (i - top)]);
        }
        assert forall|i: int| bottom <= i < bottom + row_len implies #[trigger] rgba@[i]
            == before[vmirror_index(width as int, height as int, i)] by {
            lemma_fundamental_div_mod_converse(i, row_len as int, height - 1 - y, i - bottom);
            assert(rgba@[bottom + (i - bottom)] == mid[top + (i - bottom)]);
        }
        assert((height - (y + 1)) * row_len == bottom);
        y = y + 1;
    }
    assert forall|i: int| y * row_len <= i < (height - y) * row_len implies before[i]
        == before[vmirror_index(width as int, height as int, i)] by {
        assert(row_len > 0) by (nonlinear_arith)
            requires y * row_len < (height - y) * row_len, row_len == width * 4;
        assert((height - y) * row_len <= height * row_len) by (nonlinear_arith)
            requires y >= 0, row_len > 0;
        assert(i < (y + 1) * row_len) by (nonlinear_arith)
            requires
                i < (height - y) * row_len,
                y == height / 2,
                row_len > 0,
        ;
        assert((y + 1) * row_len == y * row_len + row_len) by (nonlinear_arith);
        lemma_fundamental_div_mod_converse(i, row_len as int, y as int, i - y * row_len);
        assert(height - 1 - y == y) by (nonlinear_arith)
            requires
                y * row_len < (height - y) * row_len,
                y == height / 2,
                row_len > 0,
        ;
    }
    assert(rgba@ =~= vmirrored(before, width as int, height as int));
}

} // verus!

verus! {

/// Mirroring a row offset stays inside the row and undoes itself.
proof fn lemma_row_mirror_offset(width: int, k: int)
    requires
        width > 0,
        0 <= k < width * 4,
    ensures
        0 <= row_mirror_offset(width, k) < width * 4,
        row_mirror_offset(width, k) / 4 == width - 1 - k / 4,
        row_mirror_offset(width, k) % 4 == k % 4,
        row_mirror_offset(width, row_mirror_offset(width, k)) == k,
{
    lemma_fundamental_div_mod(k, 4);
    let p = k / 4;
    let c = k % 4;
    assert(0 <= p < width);
    let m = row_mirror_offset(width, k);
    assert(m == (width - 1 - p) * 4 + c);
    lemma_fundamental_div_mod_converse(m, 4, width - 1 - p, c);
}

/// Splits an index into its row and its offset inside the row.
proof fn lemma_split_index(i: int, row_len: int)
    requires
        row_len > 0,
        0 <= i,
    ensures
        0 <= i % row_len < row_len,
        0 <= i / row_len,
        i == (i / row_len) * row_len + i % row_len,
{
    lemma_fundamental_div_mod(i, row_len);
    assert((i / row_len) * row_len == row_len * (i / row_len)) by (nonlinear_arith);
    assert(0 <= i / row_len) by (nonlinear_arith)
        requires
            row_len > 0,
            0 <= i,
            i == row_len * (i / row_len) + i % row_len,
            i % row_len < row_len,
    ;
}

/// Facts on the horizontal index map: it keeps a byte in its row, inside the buffer,
/// and applying it twice gives the byte back.
proof fn lemma_hmirror_index(width: int, len: int, i: int)
    requires
        width > 0,
        0 <= i < len,
    ensures
        0 <= hmirror_index(width, len, i) < len,
        hmirror_index(width, len, hmirror_index(width, len, i)) == i,
        0 <= i < len - len % (width * 4) ==> hmirror_index(width, len, i) / (width * 4) == i / (
        width * 4),
        0 <= i < len - len % (width * 4) ==> hmirror_index(width, len, i) % (width * 4)
            == row_mirror_offset(width, i % (width * 4)),
        0 <= i < len - len % (width * 4) <==> 0 <= hmirror_index(width, len, i) < len - len % (
        width * 4),
{
    let row_len = width * 4;
    lemma_split_index(len, row_len);
    if i < len - len % row_len {
        lemma_split_index(i, row_len);
        let r = i / row_len;
        let k = i % row_len;
        lemma_row_mirror_offset(width, k);
        let m = row_mirror_offset(width, k);
        let j = hmirror_index(width, len, i);
        assert(j == r * row_len + m);
        lemma_fundamental_div_mod_converse(j, row_len, r, m);
        assert(r < len / row_len) by (nonlinear_arith)
            requires
                i == r * row_len + k,
                0 <= k,
                i < len - len % row_len,
                len - len % row_len == (len / row_len) * row_len,
                row_len > 0,
        ;
        assert(j < len - len % row_len) by (nonlinear_arith)
            requires
                j == r * row_len + m,
                m < row_len,
                r < len / row_len,
                len - len % row_len == (len / row_len) * row_len,
                row_len > 0,
        ;
    }
}

/// Facts on the vertical index map: applying it twice gives the byte back.
proof fn lemma_vmirror_index(width: int, height: int, i: int)
    requires
        width > 0,
        height >= 0,
        0 <= i,
    ensures
        vmirror_index(width, height, vmirror_index(width, height, i)) == i,
        0 <= vmirror_index(width, height, i),
        i < height * (width * 4) <==> vmirror_index(width, height, i) < height * (width * 4),
        i < height * (width * 4) ==> vmirror_index(width, height, i) % (width * 4) == i % (width
            * 4),
        i < height * (width * 4) ==> vmirror_index(width, height, i) / (width * 4) == height - 1
            - i / (width * 4),
{
    let row_len = width * 4;
    if i < height * row_len {
        lemma_split_index(i, row_len);
        let r = i / row_len;
        let c = i % row_len;
        assert(r < height) by (nonlinear_arith)
            requires
                i == r * row_len + c,
                0 <= c,
                i < height * row_len,
                row_len > 0,
        ;
        let j = vmirror_index(width, height, i);
        assert(j == (height - 1 - r) * row_len + c);
        lemma_fundamental_div_mod_converse(j, row_len, height - 1 - r, c);
        assert(0 <= j < height * row_len) by (nonlinear_arith)
            requires
                j == (height - 1 - r) * row_len + c,
                0 <= c < row_len,
                0 <= r < height,
        ;
    }
}

/// With fewer than two rows there is nothing to put in reverse order.
proof fn lemma_vmirror_index_short(width: int, height: int, i: int)
    requires
        width > 0,
        0 <= height < 2,
        0 <= i,
    ensures
        vmirror_index(width, height, i) == i,
{
    let row_len = width * 4;
    if i < height * row_len {
        assert(height == 1 && i < row_len) by (nonlinear_arith)
            requires
                i < height * row_len,
                0 <= i,
                0 <= height < 2,
        ;
        lemma_fundamental_div_mod_converse(i, row_len, 0, i);
    }
}

/// Mirroring left to right twice gives back the buffer it started from.
pub proof fn lemma_horizontal_mirror_involution(s: Seq<u8>, width: int)
    requires
        width > 0,
    ensures
        hmirrored(hmirrored(s, width), width) == s,
{
    let once = hmirrored(s, width);
    assert forall|i: int| 0 <= i < s.len() implies #[trigger] hmirrored(once, width)[i] == s[i] by {
        lemma_hmirror_index(width, s.len() as int, i);
    }
    assert(hmirrored(once, width) =~= s);
}

/// Putting the rows in reverse order twice gives back the buffer it started from.
pub proof fn lemma_vertical_mirror_involution(s: Seq<u8>, width: int, height: int)
    requires
        width >= 0,
        height >= 0,
        height < 2 || height * (width * 4) <= s.len(),
    ensures
        vmirrored(vmirrored(s, width, height), width, height) == s,
{
    let once = vmirrored(s, width, height);
    assert forall|i: int| 0 <= i < s.len() implies #[trigger] vmirrored(once, width, height)[i]
        == s[i] by {
        if width > 0 {
            lemma_vmirror_index(width, height, i);
            let j = vmirror_index(width, height, i);
            if height < 2 {
                lemma_vmirror_index_short(width, height, i);
            }
            assert(0 <= j < s.len());
        }
    }
    assert(vmirrored(once, width, height) =~= s);
}

/// Mirroring left to right and putting the rows in reverse order give the same
/// result in either order: both turn the image by half a turn.
pub proof fn lemma_mirrors_commute(s: Seq<u8>, width: int, height: int)
    requires
        width > 0,
        height >= 0,
        height < 2 || height * (width * 4) <= s.len(),
    ensures
        hmirrored(vmirrored(s, width, height), width) == vmirrored(
            hmirrored(s, width),
            width,
            height,
        ),
{
    let len = s.len() as int;
    let row_len = width * 4;
    assert forall|i: int| 0 <= i < len implies #[trigger] hmirrored(
        vmirrored(s, width, height),
        width,
    )[i] == vmirrored(hmirrored(s, width), width, height)[i] by {
        lemma_hmirror_index(width, len, i);
        lemma_vmirror_index(width, height, i);
        let h = hmirror_index(width, len, i);
        let v = vmirror_index(width, height, i);
        lemma_hmirror_index(width, len, h);
        lemma_vmirror_index(width, height, h);
        lemma_split_index(len, row_len);
        lemma_split_index(i, row_len);
        if height < 2 {
            lemma_vmirror_index_short(width, height, i);
            lemma_vmirror_index_short(width, height, h);
        } else if i < height * row_len {
            // i lies in one of the first `height` rows, all of them complete.
            assert(height * row_len <= len - len % row_len) by {
                assert(height <= len / row_len) by (nonlinear_arith)
                    requires
                        height * row_len <= len,
                        len == (len / row_len) * row_len + len % row_len,
                        len % row_len < row_len,
                        row_len > 0,
                ;
                assert(height * row_len <= (len / row_len) * row_len) by (nonlinear_arith)
                    requires
                        height <= len / row_len,
                        row_len > 0,
                ;
            }
            let r = i / row_len;
            let c = i % row_len;
            assert(i < len - len % row_len);
            assert(v / row_len == height - 1 - r && v % row_len == c);
            assert(v < height * row_len);
            lemma_hmirror_index(width, len, v);
            let a = hmirror_index(width, len, v);
            assert(a == v - c + row_mirror_offset(width, c));
            assert(h == i - c + row_mirror_offset(width, c));
            lemma_row_mirror_offset(width, c);
            assert(h / row_len == r && h % row_len == row_mirror_offset(width, c));
            assert(h < height * row_len) by (nonlinear_arith)
                requires
                    h == r * row_len + row_mirror_offset(width, c),
                    row_mirror_offset(width, c) < row_len,
                    i == r * row_len + c,
                    0 <= c,
                    i < height * row_len,
                    row_len > 0,
            ;
            let b = vmirror_index(width, height, h);
            assert(b == (height - 1 - r) * row_len + row_mirror_offset(width, c));
            assert(v == (height - 1 - r) * row_len + c);
            assert(a == b);
        } else {
            assert(v == i);
            if i < len - len % row_len {
                lemma_split_index(h, row_len);
                assert(h >= height * row_len) by (nonlinear_arith)
                    requires
                        h == (h / row_len) * row_len + h % row_len,
                        h / row_len == i / row_len,
                        i == (i / row_len) * row_len + i % row_len,
                        i >= height * row_len,
                        0 <= i % row_len < row_len,
                        0 <= h % row_len,
                        row_len > 0,
                ;
            }
        }
    }
    assert(hmirrored(vmirrored(s, width, height), width) =~= vmirrored(
        hmirrored(s, width),
        width,
        height,
    ));
}

} // verus!

verus! {

/// Which mirrors the mirror plugin applies.
#[derive(Debug, Clone, Copy, PartialEq, Eq)]
pub struct MirrorParams {
    pub horizontal: bool,
    pub vertical: bool,
}

/// The image `s` of `height` rows of `width` pixels after the mirrors that `params`
/// asks for: first left to right, then top to bottom.
pub open spec fn mirror_result(s: Seq<u8>, width: int, height: int, params: MirrorParams) -> Seq<
    u8,
> {
    let once = if params.horizontal {
        hmirrored(s, width)
    } else {
        s
    };
    if params.vertical {
        vmirrored(once, width, height)
    } else {
        once
    }
}

/// Applies the requested mirrors to a validated image of `width` x `height` pixels.
pub fn apply_mirror(rgba: &mut [u8], width: usize, height: usize, params: MirrorParams)
    requires
        width > 0,
        width * 4 <= usize::MAX,
        old(rgba)@.len() == height * (width * 4),
    ensures
        final(rgba)@ == mirror_result(old(rgba)@, width as int, height as int, params),
{
    if params.horizontal {
        horizontal_mirror(rgba, width);
    }
    if params.vertical {
        vertical_mirror(rgba, width, height);
    }
}

/// What the mirror plugin does once its arguments have passed [`validate_input`]
/// and its parameter text has been read: `None` stands for text that is not valid
/// JSON for [`MirrorParams`], which leaves the image alone.
pub fn process_parsed(rgba: &mut [u8], width: u32, height: u32, params: Option<MirrorParams>) -> (code: i32)
    requires
        width > 0,
        height > 0,
        old(rgba)@.len() == rgba_len_spec(width as int, height as int),
    ensures
        match params {
            None => code == STATUS_INVALID_PARAMS && final(rgba)@ == old(rgba)@,
            Some(p) => code == STATUS_OK && final(rgba)@ == mirror_result(
                old(rgba)@,
                width as int,
                height as int,
                p,
            ),
        },
{
    match params {
        None => STATUS_INVALID_PARAMS,
        Some(p) => {
            let n = rgba.len();
            proof {
                assert((height as int) * ((width as int) * 4) == (width as int) * (height as int) * 4)
                    by (nonlinear_arith);
                assert((width as int) * 4 <= (width as int) * (height as int) * 4) by (nonlinear_arith)
                    requires height > 0, width > 0;
            }
            apply_mirror(rgba, width as usize, height as usize, p);
            STATUS_OK
        },
    }
}

} // verus!

verus! {

/// After mirroring left to right, channel `c` of pixel `x` in a complete row holds
/// channel `c` of pixel `width - 1 - x` of the same row.
pub proof fn lemma_horizontal_mirror_pixel(s: Seq<u8>, width: int, row: int, x: int, c: int)
    requires
        width > 0,
        0 <= row,
        (row + 1) * (width * 4) <= s.len(),
        0 <= x < width,
        0 <= c < 4,
    ensures
        hmirrored(s, width)[row * (width * 4) + x * 4 + c] == s[row * (width * 4) + (width - 1 - x)
            * 4 + c],
{
    let row_len = width * 4;
    let len = s.len() as int;
    let i = row * row_len + x * 4 + c;
    let k = x * 4 + c;
    assert(0 <= k < row_len);
    assert((row + 1) * row_len == row * row_len + row_len) by (nonlinear_arith);
    assert(0 <= row * row_len) by (nonlinear_arith)
        requires
            row >= 0,
            row_len > 0,
    ;
    lemma_fundamental_div_mod_converse(i, row_len, row, k);
    lemma_fundamental_div_mod_converse(k, 4, x, c);
    lemma_split_index(len, row_len);
    assert(row + 1 <= len / row_len) by (nonlinear_arith)
        requires
            (row + 1) * row_len <= len,
            len == (len / row_len) * row_len + len % row_len,
            len % row_len < row_len,
            row_len > 0,
    ;
    assert((row + 1) * row_len <= (len / row_len) * row_len) by (nonlinear_arith)
        requires
            row + 1 <= len / row_len,
            row_len > 0,
    ;
    assert(hmirror_index(width, len, i) == row * row_len + (width - 1 - x) * 4 + c);
}

/// After putting the rows in reverse order, channel `c` of pixel `x` in row `row`
/// holds channel `c` of pixel `x` in row `height - 1 - row`.
pub proof fn lemma_vertical_mirror_pixel(
    s: Seq<u8>,
    width: int,
    height: int,
    row: int,
    x: int,
    c: int,
)
    requires
        width > 0,
        height * (width * 4) <= s.len(),
        0 <= row < height,
        0 <= x < width,
        0 <= c < 4,
    ensures
        vmirrored(s, width, height)[row * (width * 4) + x * 4 + c] == s[(height - 1 - row) * (width
            * 4) + x * 4 + c],
{
    let row_len = width * 4;
    let i = row * row_len + x * 4 + c;
    let k = x * 4 + c;
    assert(0 <= k < row_len);
    assert(0 <= i < height * row_len) by (nonlinear_arith)
        requires
            i == row * row_len + k,
            0 <= k < row_len,
            0 <= row < height,
    ;
    lemma_fundamental_div_mod_converse(i, row_len, row, k);
}

/// With both mirrors, channel `c` of pixel `(x, row)` holds channel `c` of pixel
/// `(width - 1 - x, height - 1 - row)`: the image has turned by half a turn.
pub proof fn lemma_both_mirrors_pixel(s: Seq<u8>, width: int, height: int, row: int, x: int, c: int)
    requires
        width > 0,
        s.len() == height * (width * 4),
        0 <= row < height,
        0 <= x < width,
        0 <= c < 4,
    ensures
        mirror_result(s, width, height, MirrorParams { horizontal: true, vertical: true })[row * (
        width * 4) + x * 4 + c] == s[(height - 1 - row) * (width * 4) + (width - 1 - x) * 4 + c],
{
    let h = hmirrored(s, width);
    lemma_vertical_mirror_pixel(h, width, height, row, x, c);
    assert(height - 1 - row + 1 <= height);
    assert((height - 1 - row + 1) * (width * 4) <= height * (width * 4)) by (nonlinear_arith)
        requires
            height - 1 - row + 1 <= height,
            width > 0,
    ;
    lemma_horizontal_mirror_pixel(s, width, height - 1 - row, x, c);
}

} // verus!

verus! {

/// What the mirror plugin does to each pixel of a `width` x `height` image: the
/// buffer keeps its length, and channel `c` of pixel `(x, row)` afterwards holds
/// channel `c` of the pixel at column `width - 1 - x` when left-to-right mirroring is
/// asked for (else column `x`), in row `height - 1 - row` when top-to-bottom mirroring
/// is asked for (else row `row`). Each flag acts on its own.
pub proof fn lemma_mirror_result_pixel(
    s: Seq<u8>,
    width: int,
    height: int,
    params: MirrorParams,
    row: int,
    x: int,
    c: int,
)
    requires
        width > 0,
        s.len() == height * (width * 4),
        0 <= row < height,
        0 <= x < width,
        0 <= c < 4,
    ensures
        mirror_result(s, width, height, params).len() == s.len(),
        mirror_result(s, width, height, params)[row * (width * 4) + x * 4 + c] == s[(if params.vertical {
            height - 1 - row
        } else {
            row
        }) * (width * 4) + (if params.horizontal {
            width - 1 - x
        } else {
            x
        }) * 4 + c],
{
    assert((row + 1) * (width * 4) <= height * (width * 4)) by (nonlinear_arith)
        requires
            row + 1 <= height,
            width > 0,
    ;
    if params.horizontal && params.vertical {
        lemma_both_mirrors_pixel(s, width, height, row, x, c);
    } else if params.horizontal {
        lemma_horizontal_mirror_pixel(s, width, row, x, c);
    } else if params.vertical {
        lemma_vertical_mirror_pixel(s, width, height, row, x, c);
    }
}

} // verus!
