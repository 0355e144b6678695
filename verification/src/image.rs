use vstd::prelude::*;
use crate::color::Color;

verus! {

/// The largest channel value the pixel format carries: the header's maxval.
pub const CHANNEL_MAX: u32 = 65535;

/// The output value of one fixed-point channel: the channel itself, capped
/// at the format's maxval. A channel of `COLOR_ONE` units (intensity 1.0)
/// maps to 65536 and is capped to 65535, the brightest value the format has.
pub open spec fn channel_value(c: u32) -> int {
    if c > CHANNEL_MAX {
        CHANNEL_MAX as int
    } else {
        c as int
    }
}

/// The decimal digits of `n`, as ASCII bytes, most significant first.
pub open spec fn dec_bytes(n: nat) -> Seq<u8>
    decreases n,
{
    if n < 10 {
        seq![(48 + n) as u8]
    } else {
        dec_bytes(n / 10).push((48 + n % 10) as u8)
    }
}

/// One pixel's output line: the three capped channels, space-separated,
/// newline-terminated.
pub open spec fn pixel_bytes(c: Color) -> Seq<u8> {
    dec_bytes(channel_value(c.r) as nat) + seq![32u8] + dec_bytes(channel_value(c.g) as nat)
        + seq![32u8] + dec_bytes(channel_value(c.b) as nat) + seq![10u8]
}

/// The pixel at column `i` of a row: a row may have been left incomplete,
/// and its missing pixels are black.
pub open spec fn pixel_at(row: Seq<Color>, i: int) -> Color {
    if 0 <= i < row.len() {
        row[i]
    } else {
        Color { r: 0, g: 0, b: 0 }
    }
}

/// The output bytes of one row from column `i` on: one line per column up to
/// the image width, blanks padded black.
pub open spec fn row_bytes_from(row: Seq<Color>, width: int, i: int) -> Seq<u8>
    decreases width - i,
{
    if i >= width {
        Seq::empty()
    } else {
        pixel_bytes(pixel_at(row, i)) + row_bytes_from(row, width, i + 1)
    }
}

/// The output bytes of all rows from row `j` on, top to bottom.
pub open spec fn rows_bytes_from(rows: Seq<Seq<Color>>, width: int, j: int) -> Seq<u8>
    decreases rows.len() - j,
{
    if j >= rows.len() {
        Seq::empty()
    } else {
        row_bytes_from(rows[j], width, 0) + rows_bytes_from(rows, width, j + 1)
    }
}

/// The whole plain-text pixel file: the header names the format, the two
/// dimensions and the maxval, then one line per pixel, row-major, top to
/// bottom.
pub open spec fn ppm_bytes(width: int, height: int, rows: Seq<Seq<Color>>) -> Seq<u8> {
    seq![80u8, 51u8, 10u8] + dec_bytes(width as nat) + seq![32u8] + dec_bytes(height as nat)
        + seq![10u8] + dec_bytes(CHANNEL_MAX as nat) + seq![10u8] + rows_bytes_from(rows, width, 0)
}

/// A height-by-width grid of colors, row-major: rows are written at most
/// once each by the render loop and read only by the output writer.
pub struct Image {
    pub height: usize,
    pub width: usize,
    pub pixels: Vec<Vec<Color>>,
}

impl Image {
    /// The stored rows, as sequences of colors.
    pub open spec fn rows(&self) -> Seq<Seq<Color>> {
        self.pixels@.map_values(|v: Vec<Color>| v@)
    }

    /// The grid always holds exactly `height` rows, none longer than the
    /// image width.
    pub open spec fn well_formed(&self) -> bool {
        &&& self.rows().len() == self.height
        &&& forall|r: int| 0 <= r < self.height ==> #[trigger] self.rows()[r].len() <= self.width
    }

    /// A fresh image of the given size, every row still empty (all black
    /// when written out).
    pub fn new(w: usize, h: usize) -> (img: Image)
        ensures
            img.width == w,
            img.height == h,
            img.well_formed(),
            forall|r: int| 0 <= r < h ==> #[trigger] img.rows()[r].len() == 0,
    {
        let mut pixels: Vec<Vec<Color>> = Vec::new();
        let mut i: usize = 0;
        while i < h
            invariant
                0 <= i <= h,
                pixels@.len() == i,
                forall|r: int| 0 <= r < i ==> #[trigger] pixels@[r]@.len() == 0,
            decreases h - i,
        {
            pixels.push(Vec::new());
            i = i + 1;
        }
        Image { height: h, width: w, pixels }
    }

    /// Replaces one row of the grid.
    pub fn set_row(&mut self, row_index: usize, values: Vec<Color>)
        requires
            old(self).well_formed(),
            row_index < old(self).height,
            values@.len() <= old(self).width,
        ensures
            final(self).well_formed(),
            final(self).width == old(self).width,
            final(self).height == old(self).height,
            final(self).rows() == old(self).rows().update(row_index as int, values@),
    {
        let ghost before = self.rows();
        self.pixels.set(row_index, values);
        proof {
            assert(self.rows() =~= before.update(row_index as int, values@));
        }
    }

    /// Serializes the image to the plain-text pixel format, exactly as
    /// `ppm_bytes` lays it out; writing these bytes to a file is the
    /// caller's work.
    pub fn to_ppm(&self) -> (out: Vec<u8>)
        requires
            self.well_formed(),
        ensures
            out@ == ppm_bytes(self.width as int, self.height as int, self.rows()),
    {
        let ghost full = ppm_bytes(self.width as int, self.height as int, self.rows());
        let mut out: Vec<u8> = Vec::new();
        out.push(80);
        out.push(51);
        out.push(10);
        push_dec(&mut out, self.width as u64);
        out.push(32);
        push_dec(&mut out, self.height as u64);
        out.push(10);
        push_dec(&mut out, CHANNEL_MAX as u64);
        out.push(10);
        proof {
            assert(full =~= out@ + rows_bytes_from(self.rows(), self.width as int, 0));
        }
        let mut j: usize = 0;
        while j < self.height
            invariant
                self.well_formed(),
                0 <= j <= self.height,
                full == out@ + rows_bytes_from(self.rows(), self.width as int, j as int),
                full == ppm_bytes(self.width as int, self.height as int, self.rows()),
            decreases self.height - j,
        {
            let row = &self.pixels[j];
            proof {
                assert(row@ == self.rows()[j as int]);
                assert(rows_bytes_from(self.rows(), self.width as int, j as int)
                    == row_bytes_from(row@, self.width as int, 0) + rows_bytes_from(
                    self.rows(),
                    self.width as int,
                    j as int + 1,
                ));
            }
            let ghost rest = rows_bytes_from(self.rows(), self.width as int, j as int + 1);
            let mut i: usize = 0;
            while i < self.width
                invariant
                    0 <= i <= self.width,
                    row@.len() <= self.width,
                    full == out@ + row_bytes_from(row@, self.width as int, i as int) + rest,
                decreases self.width - i,
            {
                let px: Color = if i < row.len() {
                    row[i]
                } else {
                    Color { r: 0, g: 0, b: 0 }
                };
                proof {
                    assert(px == pixel_at(row@, i as int));
                    assert(row_bytes_from(row@, self.width as int, i as int) == pixel_bytes(px)
                        + row_bytes_from(row@, self.width as int, i as int + 1));
                }
                let ghost before = out@;
                push_dec(&mut out, channel(px.r));
                out.push(32);
                push_dec(&mut out, channel(px.g));
                out.push(32);
                push_dec(&mut out, channel(px.b));
                out.push(10);
                proof {
                    assert(out@ =~= before + pixel_bytes(px));
                    assert(before + pixel_bytes(px) + row_bytes_from(
                        row@,
                        self.width as int,
                        i as int + 1,
                    ) + rest =~= before + (pixel_bytes(px) + row_bytes_from(
                        row@,
                        self.width as int,
                        i as int + 1,
                    )) + rest);
                }
                i = i + 1;
            }
            proof {
                assert(out@ + rows_bytes_from(self.rows(), self.width as int, j as int + 1)
                    =~= out@ + Seq::<u8>::empty() + rest);
            }
            j = j + 1;
        }
        proof {
            assert(full =~= out@);
        }
        out
    }
}

/// The capped output value of one channel.
fn channel(c: u32) -> (v: u64)
    ensures
        v == channel_value(c),
{
    if c > CHANNEL_MAX {
        CHANNEL_MAX as u64
    } else {
        c as u64
    }
}

/// Appends the decimal digits of `n`.
fn push_dec(out: &mut Vec<u8>, n: u64)
    ensures
        final(out)@ == old(out)@ + dec_bytes(n as nat),
    decreases n,
{
    if n >= 10 {
        push_dec(out, n / 10);
        let d: u8 = (n % 10) as u8;
        out.push(48 + d);
        proof {
            assert(out@ =~= old(out)@ + dec_bytes((n / 10) as nat).push((48 + n % 10) as u8));
        }
    } else {
        let d: u8 = n as u8;
        out.push(48 + d);
        proof {
            assert(out@ =~= old(out)@ + dec_bytes(n as nat));
        }
    }
}

} // verus!
