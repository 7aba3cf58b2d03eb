//! `#RRGGBBAA` colors and their byte orders.
use vstd::prelude::*;

use crate::text::chars_of;

verus! {

/// Why a color string was refused.
#[derive(Debug, Clone, Copy, PartialEq, Eq, Structural)]
pub enum ParseHexRgbaError {
    /// Not `#` followed by exactly eight hexadecimal digits.
    InvalidFormat,
}

/// The value of one hexadecimal digit (either case), if `c` is one.
pub open spec fn hex_digit(c: char) -> Option<u8> {
    if '0' <= c && c <= '9' {
        Some(((c as u32) - ('0' as u32)) as u8)
    } else if 'a' <= c && c <= 'f' {
        Some(((c as u32) - ('a' as u32) + 10) as u8)
    } else if 'A' <= c && c <= 'F' {
        Some(((c as u32) - ('A' as u32) + 10) as u8)
    } else {
        None
    }
}

/// `s` is `#` followed by exactly eight hexadecimal digits.
pub open spec fn is_hex_rgba(s: Seq<char>) -> bool {
    &&& s.len() == 9
    &&& s[0] == '#'
    &&& forall|i: int| 1 <= i < 9 ==> (#[trigger] hex_digit(s[i])) is Some
}

/// The byte written by the two hex digits at `s[i]` and `s[i + 1]`.
pub open spec fn hex_byte(s: Seq<char>, i: int) -> u8 {
    (hex_digit(s[i])->0 * 16 + hex_digit(s[i + 1])->0) as u8
}

/// The `[r, g, b, a]` bytes that a valid `#RRGGBBAA` string denotes.
pub open spec fn rgba_of(s: Seq<char>) -> Seq<u8> {
    seq![hex_byte(s, 1), hex_byte(s, 3), hex_byte(s, 5), hex_byte(s, 7)]
}

/// `[r, g, b, a]` reordered as `[b, g, r, a]`.
pub open spec fn bgra_of(c: Seq<u8>) -> Seq<u8> {
    seq![c[2], c[1], c[0], c[3]]
}

fn hex_digit_value(c: char) -> (r: Option<u8>)
    ensures
        r == hex_digit(c),
{
    if '0' <= c && c <= '9' {
        Some((c as u32 - '0' as u32) as u8)
    } else if 'a' <= c && c <= 'f' {
        Some((c as u32 - 'a' as u32 + 10) as u8)
    } else if 'A' <= c && c <= 'F' {
        Some((c as u32 - 'A' as u32 + 10) as u8)
    } else {
        None
    }
}

/// Parse `#RRGGBBAA` (hex digits of either case) into `[r, g, b, a]`.
pub fn parse_hex_rgba(s: &str) -> (r: Result<[u8; 4], ParseHexRgbaError>)
    ensures
        match r {
            Ok(px) => is_hex_rgba(s@) && px@ == rgba_of(s@),
            Err(e) => !is_hex_rgba(s@) && e == ParseHexRgbaError::InvalidFormat,
        },
{
    let v = chars_of(s);
    if v.len() != 9 || v[0] != '#' {
        return Err(ParseHexRgbaError::InvalidFormat);
    }
    let mut digits: Vec<u8> = Vec::new();
    for i in 1..9usize
        invariant
            v@ == s@,
            v.len() == 9,
            digits.len() == i - 1,
            forall|j: int| 1 <= j < i ==> (#[trigger] hex_digit(v@[j])) is Some,
            forall|j: int| 1 <= j < i ==> digits@[j - 1] == hex_digit(v@[j])->0,
    {
        match hex_digit_value(v[i]) {
            Some(d) => digits.push(d),
            None => {
                assert(hex_digit(v@[i as int]) is None);
                return Err(ParseHexRgbaError::InvalidFormat);
            },
        }
    }
    assert forall|j: int| 0 <= j < 8 implies digits@[j] < 16 by {
        assert(hex_digit(v@[j + 1]) is Some);
    }
    let px = [
        digits[0] * 16 + digits[1],
        digits[2] * 16 + digits[3],
        digits[4] * 16 + digits[5],
        digits[6] * 16 + digits[7],
    ];
    assert(px@ =~= rgba_of(s@));
    Ok(px)
}

/// Reorder `[r, g, b, a]` into `[b, g, r, a]`.
pub fn rgba_to_bgra(c: [u8; 4]) -> (r: [u8; 4])
    ensures
        r@ == bgra_of(c@),
{
    let r = [c[2], c[1], c[0], c[3]];
    assert(r@ =~= bgra_of(c@));
    r
}

/// Parse `#RRGGBBAA` into the `[b, g, r, a]` order of ARGB8888 buffers.
pub fn parse_hex_rgba_to_bgra(s: &str) -> (r: Result<[u8; 4], ParseHexRgbaError>)
    ensures
        match r {
            Ok(px) => is_hex_rgba(s@) && px@ == bgra_of(rgba_of(s@)),
            Err(e) => !is_hex_rgba(s@) && e == ParseHexRgbaError::InvalidFormat,
        },
{
    match parse_hex_rgba(s) {
        Ok(px) => Ok(rgba_to_bgra(px)),
        Err(e) => Err(e),
    }
}

/// Swapping the red and blue bytes twice gives back the same color.
pub proof fn lemma_bgra_involution(c: Seq<u8>)
    requires
        c.len() == 4,
    ensures
        bgra_of(bgra_of(c)) == c,
{
    assert(bgra_of(bgra_of(c)) =~= c);
}


/// The byte at column `q` of row `row` of a BGRA image with `stride` bytes per row, made from
/// the `size` × `size` RGBA pixels of `rgba`: red and blue swapped, padding bytes zero.
pub open spec fn bgra_row_byte(rgba: Seq<u8>, size: nat, row: nat, q: nat) -> u8 {
    if q < 4 * size {
        let px = ((row * size + q / 4) * 4) as int;
        let k = q % 4;
        if k == 0 {
            rgba[px + 2]
        } else if k == 2 {
            rgba[px]
        } else {
            rgba[px + k]
        }
    } else {
        0
    }
}

/// Reorder the `size` × `size` RGBA pixels of `rgba` into rows of `stride` bytes of BGRA,
/// the layout of a Cairo ARGB32 image; the bytes past each row's pixels are zero.
pub fn rgba_to_bgra_rows(rgba: &[u8], size: usize, stride: usize) -> (r: Vec<u8>)
    requires
        rgba@.len() == size * size * 4,
        stride >= size * 4,
        stride * size <= usize::MAX,
    ensures
        r@.len() == stride * size,
        forall|row: int, q: int|
            0 <= row < size && 0 <= q < stride ==> #[trigger] r@[row * stride + q] == bgra_row_byte(
                rgba@,
                size as nat,
                row as nat,
                q as nat,
            ),
{
    let total = rgba.len();
    assert(total == size * size * 4);
    let mut out: Vec<u8> = Vec::new();
    assert(0 * stride == 0) by (nonlinear_arith);
    for row in 0..size
        invariant
            rgba@.len() == size * size * 4,
            size * size * 4 <= usize::MAX,
            stride >= size * 4,
            stride * size <= usize::MAX,
            out@.len() == row * stride,
            forall|r2: int, q2: int|
                0 <= r2 < row && 0 <= q2 < stride ==> #[trigger] out@[r2 * stride + q2] == bgra_row_byte(
                    rgba@,
                    size as nat,
                    r2 as nat,
                    q2 as nat,
                ),
    {
        assert((row + 1) * stride <= stride * size) by (nonlinear_arith)
            requires
                row < size,
        ;
        assert((row + 1) * stride == row * stride + stride) by (nonlinear_arith);
        let base = row * stride;
        for q in 0..stride
            invariant
                rgba@.len() == size * size * 4,
                size * size * 4 <= usize::MAX,
                stride >= size * 4,
                row < size,
                base == row * stride,
                base + stride <= stride * size,
                stride * size <= usize::MAX,
                out@.len() == base + q,
                forall|r2: int, q2: int|
                    0 <= r2 < row && 0 <= q2 < stride ==> #[trigger] out@[r2 * stride + q2] == bgra_row_byte(
                        rgba@,
                        size as nat,
                        r2 as nat,
                        q2 as nat,
                    ),
                forall|q2: int|
                    0 <= q2 < q ==> #[trigger] out@[base + q2] == bgra_row_byte(rgba@, size as nat, row as nat, q2 as nat),
        {
            let b: u8 = if q < 4 * size {
                let c = q / 4;
                assert(row * size + c < size * size) by (nonlinear_arith)
                    requires
                        row < size,
                        c < size,
                ;
                assert((row * size + c) * 4 + 3 < size * size * 4) by (nonlinear_arith)
                    requires
                        row * size + c < size * size,
                ;
                let rs = row * size;
                let px = (rs + c) * 4;
                let k = q % 4;
                if k == 0 {
                    rgba[px + 2]
                } else if k == 2 {
                    rgba[px]
                } else {
                    rgba[px + k]
                }
            } else {
                0
            };
            let ghost prev = out@;
            out.push(b);
            assert forall|r2: int, q2: int| 0 <= r2 < row && 0 <= q2 < stride implies #[trigger] out@[r2 * stride + q2]
                == bgra_row_byte(rgba@, size as nat, r2 as nat, q2 as nat) by {
                assert(r2 * stride + q2 < row * stride) by (nonlinear_arith)
                    requires
                        r2 < row,
                        q2 < stride,
                ;
                assert(out@[r2 * stride + q2] == prev[r2 * stride + q2]);
            }
        }
        assert forall|r2: int, q2: int| 0 <= r2 < row + 1 && 0 <= q2 < stride implies #[trigger] out@[r2 * stride + q2]
            == bgra_row_byte(rgba@, size as nat, r2 as nat, q2 as nat) by {
            if r2 == row {
                assert(out@[base + q2] == bgra_row_byte(rgba@, size as nat, row as nat, q2 as nat));
            }
        }
    }
    assert(size * stride == stride * size) by (nonlinear_arith);
    out
}


/// Rows of `stride` bytes packed into rows of `row_bytes` bytes: `data` unchanged when the
/// rows are already tight or `data` is shorter than `height` rows; else the first
/// `row_bytes` bytes of each of the `height` rows.
pub open spec fn packed_rows(data: Seq<u8>, stride: nat, row_bytes: nat, height: nat) -> Seq<u8> {
    if data.len() < stride * height || stride == row_bytes {
        data
    } else {
        Seq::new(row_bytes * height, |p: int| data[(p / row_bytes as int) * stride + p % row_bytes as int])
    }
}

/// Pack the rows of an image, `stride` bytes apart in `data`, into rows of `row_bytes` bytes.
pub fn pack_rows(data: Vec<u8>, stride: usize, row_bytes: usize, height: usize) -> (r: Vec<u8>)
    requires
        row_bytes <= stride,
        stride * height <= usize::MAX,
    ensures
        r@ == packed_rows(data@, stride as nat, row_bytes as nat, height as nat),
{
    if data.len() < stride * height || stride == row_bytes {
        return data;
    }
    let n = data.len();
    let mut out: Vec<u8> = Vec::new();
    assert(0 * row_bytes == 0) by (nonlinear_arith);
    for row in 0..height
        invariant
            n == data@.len(),
            row_bytes < stride,
            stride * height <= usize::MAX,
            data@.len() >= stride * height,
            out@.len() == row * row_bytes,
            forall|p: int| 0 <= p < out@.len() ==> #[trigger] out@[p] == data@[(p / row_bytes as int) * stride + p % row_bytes as int],
    {
        assert(row * stride + stride <= stride * height) by (nonlinear_arith)
            requires
                row < height,
        ;
        let base = row * stride;
        for q in 0..row_bytes
            invariant
                n == data@.len(),
                row_bytes < stride,
                row < height,
                base == row * stride,
                base + stride <= data@.len(),
                out@.len() == row * row_bytes + q,
                forall|p: int| 0 <= p < out@.len() ==> #[trigger] out@[p] == data@[(p / row_bytes as int) * stride + p % row_bytes as int],
        {
            let ghost p = out@.len() as int;
            assert(p / row_bytes as int == row && p % row_bytes as int == q) by (nonlinear_arith)
                requires
                    p == row * row_bytes + q,
                    q < row_bytes,
            ;
            out.push(data[base + q]);
        }
        assert((row + 1) * row_bytes == row * row_bytes + row_bytes) by (nonlinear_arith);
    }
    assert(height * row_bytes == row_bytes * height) by (nonlinear_arith);
    assert(out@ =~= packed_rows(data@, stride as nat, row_bytes as nat, height as nat));
    out
}

} // verus!
