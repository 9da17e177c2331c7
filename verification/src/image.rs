//! The pixel grid that a render produces, and its conversion to bytes.
use crate::scalar::{Scalar, SCALE};
use crate::vec3::Color;
use vstd::prelude::*;

verus! {

/// The byte that encodes one colour channel: the square root of the
/// radiance (a gamma of two), clamped to `[0, 1]`, scaled by 255.999 and
/// rounded down.
pub open spec fn channel_byte(c: Scalar) -> u8 {
    c.root().least(Scalar::from_int(1)).greatest(Scalar { raw: 0 }).times(
        Scalar { raw: 255_999_000 },
    ).whole() as u8
}

/// The three bytes of a colour, red first.
pub open spec fn color_bytes(c: Color) -> Seq<u8> {
    seq![channel_byte(c.red), channel_byte(c.green), channel_byte(c.blue)]
}

/// The bytes of a row of pixels, left to right.
pub open spec fn row_bytes(row: Seq<Color>) -> Seq<u8>
    decreases row.len(),
{
    if row.len() == 0 {
        Seq::empty()
    } else {
        row_bytes(row.drop_last()) + color_bytes(row.last())
    }
}

/// The bytes of a sequence of rows, first row first.
pub open spec fn grid_bytes(rows: Seq<Vec<Color>>) -> Seq<u8>
    decreases rows.len(),
{
    if rows.len() == 0 {
        Seq::empty()
    } else {
        grid_bytes(rows.drop_last()) + row_bytes(rows.last()@)
    }
}

/// The pixel of the test pattern in column `col` of row `row`: red grows
/// from left to right, green from bottom to top, blue is a quarter.
pub open spec fn test_pixel(width: u32, height: u32, row: u32, col: u32) -> Color {
    Color {
        red: Scalar::from_u32(col).over(Scalar::from_u32((width - 1) as u32)),
        green: Scalar::from_u32((height - 1 - row) as u32).over(
            Scalar::from_u32((height - 1) as u32),
        ),
        blue: Scalar { raw: 250_000 },
    }
}

fn encode_channel(c: Scalar) -> (r: u8)
    ensures
        r == channel_byte(c),
{
    let unit = c.root().least(Scalar::from_int(1)).greatest(Scalar::new(0));
    let scaled = unit.times(Scalar::new(255_999_000));
    proof {
        let u = unit.raw as int;
        assert(0 <= u <= 1_000_000);
        assert(0 <= u * 255_999_000 <= 255_999_000_000_000) by (nonlinear_arith)
            requires
                0 <= u <= 1_000_000,
        ;
        let prod = u * 255_999_000;
        assert(0 <= prod / (SCALE as int) <= 255_999_000) by (nonlinear_arith)
            requires
                0 <= prod <= 255_999_000_000_000,
                SCALE == 1_000_000,
        ;
        assert(scaled.raw == prod / (SCALE as int));
    }
    let w: i64 = scaled.whole();
    assert(0 <= w <= 255) by (nonlinear_arith)
        requires
            w * SCALE <= scaled.raw < (w + 1) * SCALE,
            0 <= scaled.raw <= 255_999_000,
            SCALE == 1_000_000,
    ;
    w as u8
}

impl Color {
    /// The colour as three bytes, gamma-encoded.
    pub fn get_bytes(&self) -> (r: Vec<u8>)
        ensures
            r@ == color_bytes(*self),
    {
        let mut out: Vec<u8> = Vec::new();
        out.push(encode_channel(self.red));
        out.push(encode_channel(self.green));
        out.push(encode_channel(self.blue));
        assert(out@ =~= color_bytes(*self));
        out
    }
}

/// A grid of pixels, stored row by row from the top of the frame.
pub struct Image {
    pub width: u32,
    pub height: u32,
    pub data: Vec<Vec<Color>>,
}

impl Image {
    /// There are `height` rows of `width` pixels each.
    pub open spec fn wf(&self) -> bool {
        &&& self.data@.len() == self.height
        &&& forall|i: int| 0 <= i < self.data@.len() ==> (#[trigger] self.data@[i])@.len() == self.width
    }

    /// The pixel in column `col` of row `row`.
    pub open spec fn pixel(&self, row: int, col: int) -> Color {
        self.data@[row]@[col]
    }

    /// A black image of the given size.
    pub fn new(width: u32, height: u32) -> (r: Image)
        ensures
            r.width == width,
            r.height == height,
            r.wf(),
            forall|i: int, j: int|
                0 <= i < height && 0 <= j < width ==> #[trigger] r.pixel(i, j) == Color::black(),
    {
        let mut data: Vec<Vec<Color>> = Vec::new();
        let mut i: u32 = 0;
        while i < height
            invariant
                i <= height,
                data@.len() == i,
                forall|k: int| 0 <= k < i ==> (#[trigger] data@[k])@.len() == width,
                forall|k: int, j: int|
                    0 <= k < i && 0 <= j < width ==> #[trigger] data@[k]@[j] == Color::black(),
            decreases height - i,
        {
            let mut row: Vec<Color> = Vec::new();
            let mut j: u32 = 0;
            while j < width
                invariant
                    j <= width,
                    row@.len() == j,
                    forall|k: int| 0 <= k < j ==> #[trigger] row@[k] == Color::black(),
                decreases width - j,
            {
                row.push(Color::default());
                j += 1;
            }
            data.push(row);
            i += 1;
        }
        Image { width, height, data }
    }

    /// The test pattern of the given size.
    pub fn new_test(width: u32, height: u32) -> (r: Image)
        ensures
            r.width == width,
            r.height == height,
            r.wf(),
            forall|i: int, j: int|
                0 <= i < height && 0 <= j < width ==> #[trigger] r.pixel(i, j) == test_pixel(
                    width,
                    height,
                    i as u32,
                    j as u32,
                ),
    {
        let mut data: Vec<Vec<Color>> = Vec::new();
        let mut i: u32 = 0;
        while i < height
            invariant
                i <= height,
                data@.len() == i,
                forall|k: int| 0 <= k < i ==> (#[trigger] data@[k])@.len() == width,
                forall|k: int, j: int|
                    0 <= k < i && 0 <= j < width ==> #[trigger] data@[k]@[j] == test_pixel(
                        width,
                        height,
                        k as u32,
                        j as u32,
                    ),
            decreases height - i,
        {
            let mut row: Vec<Color> = Vec::new();
            let mut j: u32 = 0;
            while j < width
                invariant
                    j <= width,
                    i < height,
                    row@.len() == j,
                    forall|k: int|
                        0 <= k < j ==> #[trigger] row@[k] == test_pixel(width, height, i, k as u32),
                decreases width - j,
            {
                let red = Scalar::from_u32(j).over(Scalar::from_u32(width - 1));
                let green = Scalar::from_u32(height - 1 - i).over(Scalar::from_u32(height - 1));
                row.push(Color { red, green, blue: Scalar::new(250_000) });
                j += 1;
            }
            data.push(row);
            i += 1;
        }
        Image { width, height, data }
    }

    /// The image as a flat buffer of bytes, three per pixel, row by row from
    /// the top.
    pub fn rgb_bytes(&self) -> (r: Vec<u8>)
        ensures
            r@ == grid_bytes(self.data@),
    {
        let mut out: Vec<u8> = Vec::new();
        let mut i: usize = 0;
        assert(self.data@.take(0) =~= Seq::<Vec<Color>>::empty());
        while i < self.data.len()
            invariant
                i <= self.data@.len(),
                out@ == grid_bytes(self.data@.take(i as int)),
            decreases self.data@.len() - i,
        {
            let row = &self.data[i];
            let ghost before = out@;
            let mut j: usize = 0;
            assert(row@.take(0) =~= Seq::<Color>::empty());
            while j < row.len()
                invariant
                    j <= row@.len(),
                    out@ == before + row_bytes(row@.take(j as int)),
                decreases row@.len() - j,
            {
                let c = &row[j];
                out.push(encode_channel(c.red));
                out.push(encode_channel(c.green));
                out.push(encode_channel(c.blue));
                proof {
                    let next = row@.take(j as int + 1);
                    assert(next.drop_last() =~= row@.take(j as int));
                    assert(next.last() == row@[j as int]);
                    assert(out@ =~= before + row_bytes(next));
                }
                j += 1;
            }
            proof {
                assert(row@.take(row@.len() as int) =~= row@);
                let next = self.data@.take(i as int + 1);
                assert(next.drop_last() =~= self.data@.take(i as int));
                assert(next.last() == self.data@[i as int]);
            }
            i += 1;
        }
        assert(self.data@.take(self.data@.len() as int) =~= self.data@);
        out
    }
}

} // verus!
