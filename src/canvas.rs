//! A width x height grid of pixels and its serialisation to the plain-text PPM
//! raster format.
use vstd::arithmetic::div_mod::lemma_mod_multiples_basic;
use vstd::prelude::*;
use vstd::string::StringExecFns;

verus! {

/// Budget of characters on one line of pixel data.
pub const LINE_LIMIT: usize = 70;

/// A grid of pixels, stored row by row: pixel (x, y) sits at `y * width + x`.
#[derive(Clone, Debug)]
pub struct Canvas<P> {
    pub width: usize,
    pub height: usize,
    pub canvas: Vec<P>,
}

/// Storage slot of pixel (`x`, `y`) on a canvas `width` pixels wide.
pub open spec fn pixel_slot(width: int, x: int, y: int) -> int {
    y * width + x
}

impl<P> Canvas<P> {
    /// One pixel is stored for each cell of the grid.
    pub open spec fn wf(&self) -> bool {
        &&& self.canvas@.len() == self.width * self.height
        &&& self.width * self.height <= usize::MAX
    }
}

impl<P: Copy> Canvas<P> {
    /// A `width` x `height` canvas with every pixel set to `blank`.
    pub fn new(width: usize, height: usize, blank: P) -> (r: Self)
        requires
            width * height <= usize::MAX,
        ensures
            r.wf(),
            r.width == width,
            r.height == height,
            r.canvas@ == Seq::new((width * height) as nat, |i: int| blank),
    {
        let n: usize = width * height;
        let mut canvas: Vec<P> = Vec::new();
        while canvas.len() < n
            invariant
                canvas.len() <= n,
                forall|i: int| 0 <= i < canvas.len() ==> #[trigger] canvas@[i] == blank,
            decreases n - canvas.len(),
        {
            canvas.push(blank);
        }
        assert(canvas@ =~= Seq::new((width * height) as nat, |i: int| blank));
        Canvas { width, height, canvas }
    }

    /// The storage slot of pixel (`x`, `y`), or `None` where the coordinates
    /// fall outside the canvas.
    pub fn coords_to_index(&self, x: usize, y: usize) -> (r: Option<usize>)
        requires
            self.wf(),
        ensures
            r == (if x < self.width && y < self.height {
                Some(pixel_slot(self.width as int, x as int, y as int) as usize)
            } else {
                None::<usize>
            }),
            r matches Some(i) ==> i < self.canvas@.len(),
    {
        if x < self.width && y < self.height {
            proof {
                lemma_pixel_slot_bound(self.width as int, self.height as int, x as int, y as int);
            }
            Some(y * self.width + x)
        } else {
            None
        }
    }

    /// The pixel at (`x`, `y`).
    pub fn pixel_at(&self, x: usize, y: usize) -> (r: P)
        requires
            self.wf(),
            x < self.width,
            y < self.height,
        ensures
            r == self.canvas@[pixel_slot(self.width as int, x as int, y as int)],
    {
        proof {
            lemma_pixel_slot_bound(self.width as int, self.height as int, x as int, y as int);
        }
        self.canvas[y * self.width + x]
    }

    /// Sets the pixel at (`x`, `y`) to `color`, leaving every other pixel.
    pub fn write_pixel(&mut self, x: usize, y: usize, color: P)
        requires
            old(self).wf(),
            x < old(self).width,
            y < old(self).height,
        ensures
            final(self).wf(),
            final(self).width == old(self).width,
            final(self).height == old(self).height,
            final(self).canvas@ == old(self).canvas@.update(
                pixel_slot(old(self).width as int, x as int, y as int),
                color,
            ),
    {
        proof {
            lemma_pixel_slot_bound(self.width as int, self.height as int, x as int, y as int);
        }
        let i: usize = y * self.width + x;
        self.canvas.set(i, color);
    }
}

/// The decimal digit `d` as a character.
pub open spec fn digit_char(d: int) -> char {
    if d == 0 {
        '0'
    } else if d == 1 {
        '1'
    } else if d == 2 {
        '2'
    } else if d == 3 {
        '3'
    } else if d == 4 {
        '4'
    } else if d == 5 {
        '5'
    } else if d == 6 {
        '6'
    } else if d == 7 {
        '7'
    } else if d == 8 {
        '8'
    } else {
        '9'
    }
}

/// The decimal notation of `n`, without leading zeros.
pub open spec fn decimal(n: nat) -> Seq<char>
    decreases n,
{
    if n < 10 {
        seq![digit_char(n as int)]
    } else {
        decimal(n / 10) + seq![digit_char((n % 10) as int)]
    }
}

/// Channel `k` of the pixels taken channel by channel (red, green, blue of
/// the first pixel, then of the second, and so on).
pub open spec fn channel(pixels: Seq<[u8; 3]>, k: int) -> u8 {
    pixels[k / 3][k % 3]
}

/// The pixel data written for the first `k` channels, together with the
/// running line length used to wrap lines.
///
/// A channel is preceded by a line break where its digits would take the line
/// past `LINE_LIMIT` characters, by nothing at the start of a line, and by a
/// space otherwise; each channel counts its digits and one separator towards
/// the line length. A line ends after the last pixel of each canvas row.
pub open spec fn pixel_data(pixels: Seq<[u8; 3]>, width: nat, k: nat) -> (Seq<char>, nat)
    decreases k,
{
    if k == 0 {
        (Seq::empty(), 0)
    } else {
        let prev = pixel_data(pixels, width, (k - 1) as nat);
        let digits = decimal(channel(pixels, k - 1) as nat);
        let placed = if prev.1 + digits.len() > LINE_LIMIT {
            (prev.0.push('\n') + digits, digits.len() + 1)
        } else if prev.1 == 0 {
            (prev.0 + digits, digits.len() + 1)
        } else {
            (prev.0.push(' ') + digits, prev.1 + digits.len() + 1)
        };
        if k % 3 == 0 && width > 0 && (k / 3) % width == 0 {
            (placed.0.push('\n'), 0)
        } else {
            placed
        }
    }
}

/// The plain-text PPM image of a `width` x `height` canvas holding `pixels`: the header
/// magic number, the dimensions and the maximum channel value 255 on lines of their
/// own, then the pixel data.
pub open spec fn ppm(width: nat, height: nat, pixels: Seq<[u8; 3]>) -> Seq<char> {
    seq!['P', '3', '\n'] + decimal(width) + seq![' '] + decimal(height) + seq![
        '\n',
        '2',
        '5',
        '5',
        '\n',
    ] + pixel_data(pixels, width, 3 * pixels.len()).0
}

/// One, two or three digits for a channel value.
proof fn lemma_decimal_u8(n: nat)
    requires
        n < 256,
    ensures
        decimal(n).len() == (if n < 10 {
            1int
        } else if n < 100 {
            2int
        } else {
            3int
        }),
{
    reveal_with_fuel(decimal, 3);
}

/// The one-character string of the digit `d`.
fn digit_str(d: usize) -> (r: &'static str)
    requires
        d < 10,
    ensures
        r@ == seq![digit_char(d as int)],
{
    proof {
        reveal_strlit("0");
        reveal_strlit("1");
        reveal_strlit("2");
        reveal_strlit("3");
        reveal_strlit("4");
        reveal_strlit("5");
        reveal_strlit("6");
        reveal_strlit("7");
        reveal_strlit("8");
        reveal_strlit("9");
    }
    if d == 0 {
        "0"
    } else if d == 1 {
        "1"
    } else if d == 2 {
        "2"
    } else if d == 3 {
        "3"
    } else if d == 4 {
        "4"
    } else if d == 5 {
        "5"
    } else if d == 6 {
        "6"
    } else if d == 7 {
        "7"
    } else if d == 8 {
        "8"
    } else {
        "9"
    }
}

/// Appends the decimal notation of `n` to `out`.
pub fn push_decimal(out: &mut String, n: usize)
    ensures
        final(out)@ == old(out)@ + decimal(n as nat),
    decreases n,
{
    if n >= 10 {
        push_decimal(out, n / 10);
    }
    out.append(digit_str(n % 10));
    assert(final(out)@ =~= old(out)@ + decimal(n as nat));
}

/// Number of decimal digits of a channel value.
fn digit_count(n: u8) -> (r: usize)
    ensures
        r == decimal(n as nat).len(),
        1 <= r <= 3,
{
    proof {
        lemma_decimal_u8(n as nat);
    }
    if n < 10 {
        1
    } else if n < 100 {
        2
    } else {
        3
    }
}

impl Canvas<[u8; 3]> {
    /// The canvas as plain-text PPM: header, then each pixel's three channels in
    /// decimal, row by row, lines wrapped to stay within `LINE_LIMIT`
    /// characters, each canvas row ending its line, the text ending in a
    /// line break.
    pub fn canvas_to_ppm(&self) -> (r: String)
        requires
            self.wf(),
        ensures
            r@ == ppm(self.width as nat, self.height as nat, self.canvas@),
    {
        proof {
            reveal_strlit("P3\n");
            reveal_strlit(" ");
            reveal_strlit("\n255\n");
        }
        let mut out = String::new();
        out.append("P3\n");
        push_decimal(&mut out, self.width);
        out.append(" ");
        push_decimal(&mut out, self.height);
        out.append("\n255\n");
        let ghost header = out@;
        let mut chars_on_line: usize = 0;
        let len: usize = self.canvas.len();
        let mut i: usize = 0;
        while i < len
            invariant
                self.wf(),
                len == self.canvas@.len(),
                i <= self.canvas@.len(),
                chars_on_line <= LINE_LIMIT + 1,
                out@ == header + pixel_data(self.canvas@, self.width as nat, 3 * i as nat).0,
                chars_on_line == pixel_data(self.canvas@, self.width as nat, 3 * i as nat).1,
            decreases len - i,
        {
            let pixel: [u8; 3] = self.canvas[i];
            assert(self.width > 0) by (nonlinear_arith)
                requires
                    i < self.width * self.height,
            ;
            let mut c: usize = 0;
            while c < 3
                invariant
                    self.wf(),
                    self.width > 0,
                    i < len == self.canvas@.len(),
                    c <= 3,
                    pixel == self.canvas@[i as int],
                    chars_on_line <= LINE_LIMIT + 1,
                    out@ == header + pixel_data(self.canvas@, self.width as nat, (3 * i + c) as nat).0,
                    chars_on_line == pixel_data(self.canvas@, self.width as nat, (3 * i + c) as nat).1,
                decreases 3 - c,
            {
                let value: u8 = pixel[c];
                let length: usize = digit_count(value);
                let ghost k: int = 3 * i + c;
                assert(channel(self.canvas@, k) == value) by {
                    assert(k / 3 == i && k % 3 == c);
                }
                proof {
                    reveal_strlit(" ");
                    reveal_strlit("\n");
                }
                let ghost prev = pixel_data(self.canvas@, self.width as nat, k as nat);
                let ghost digits = decimal(value as nat);
                let ghost placed = if prev.1 + digits.len() > LINE_LIMIT {
                    (prev.0.push('\n') + digits, digits.len() + 1)
                } else if prev.1 == 0 {
                    (prev.0 + digits, digits.len() + 1)
                } else {
                    (prev.0.push(' ') + digits, prev.1 + digits.len() + 1)
                };
                if chars_on_line + length > LINE_LIMIT {
                    out.append("\n");
                    chars_on_line = 0;
                } else if chars_on_line != 0 {
                    out.append(" ");
                }
                push_decimal(&mut out, value as usize);
                chars_on_line = chars_on_line + length + 1;
                assert(out@ =~= header + placed.0);
                assert(chars_on_line == placed.1);
                if c == 2 && (i + 1) % self.width == 0 {
                    out.append("\n");
                    chars_on_line = 0;
                }
                proof {
                    assert((k + 1) % 3 == 0 <==> c == 2);
                    if c == 2 {
                        assert((k + 1) / 3 == i + 1);
                    }
                }
                c += 1;
                assert(out@ =~= header + pixel_data(self.canvas@, self.width as nat, (k + 1) as nat).0);
            }
            i += 1;
        }
        out
    }
}

/// Length of the last line of `s`: the characters after its last line break.
pub open spec fn last_line_len(s: Seq<char>) -> nat
    decreases s.len(),
{
    if s.len() == 0 {
        0
    } else if s.last() == '\n' {
        0
    } else {
        last_line_len(s.drop_last()) + 1
    }
}

/// No line of `s` holds more than `limit` characters (line breaks excluded):
/// the last line of every prefix of `s` is within the limit.
pub open spec fn lines_within(s: Seq<char>, limit: nat) -> bool
    decreases s.len(),
{
    s.len() == 0 || (lines_within(s.drop_last(), limit) && last_line_len(s) <= limit)
}

/// Appending characters that hold no line break lengthens the last line.
proof fn lemma_append_unbroken(s: Seq<char>, d: Seq<char>, limit: nat)
    requires
        forall|i: int| 0 <= i < d.len() ==> d[i] != '\n',
    ensures
        last_line_len(s + d) == last_line_len(s) + d.len(),
        lines_within(s + d, limit) <==> (lines_within(s, limit) && (d.len() == 0
            || last_line_len(s) + d.len() <= limit)),
    decreases d.len(),
{
    if d.len() > 0 {
        let e = d.drop_last();
        lemma_append_unbroken(s, e, limit);
        assert((s + d).drop_last() =~= s + e);
    } else {
        assert(s + d =~= s);
    }
}

/// A decimal notation holds digits only.
proof fn lemma_decimal_unbroken(n: nat)
    ensures
        forall|i: int| 0 <= i < decimal(n).len() ==> decimal(n)[i] != '\n' && decimal(n)[i] != ' ',
        decimal(n).len() > 0,
    decreases n,
{
    if n >= 10 {
        lemma_decimal_unbroken(n / 10);
    }
}

/// After any number of channels, the pixel data keeps every line within
/// `LINE_LIMIT`, and the running line length is one more than the length of
/// the last line, or zero at the start of a line.
proof fn lemma_pixel_data_lines(pixels: Seq<[u8; 3]>, width: nat, k: nat)
    ensures
        lines_within(pixel_data(pixels, width, k).0, LINE_LIMIT as nat),
        last_line_len(pixel_data(pixels, width, k).0) == (if pixel_data(pixels, width, k).1 == 0 {
            0
        } else {
            pixel_data(pixels, width, k).1 - 1
        }),
        pixel_data(pixels, width, k).1 <= LINE_LIMIT + 1,
    decreases k,
{
    if k > 0 {
        lemma_pixel_data_lines(pixels, width, (k - 1) as nat);
        let prev = pixel_data(pixels, width, (k - 1) as nat);
        let n = channel(pixels, k - 1) as nat;
        let digits = decimal(n);
        lemma_decimal_unbroken(n);
        lemma_decimal_u8(n);
        let nl = prev.0.push('\n');
        let sp = prev.0.push(' ');
        assert(nl.drop_last() =~= prev.0);
        assert(sp.drop_last() =~= prev.0);
        lemma_append_unbroken(nl, digits, LINE_LIMIT as nat);
        lemma_append_unbroken(prev.0, digits, LINE_LIMIT as nat);
        lemma_append_unbroken(sp, digits, LINE_LIMIT as nat);
        let placed = if prev.1 + digits.len() > LINE_LIMIT {
            (nl + digits, digits.len() + 1)
        } else if prev.1 == 0 {
            (prev.0 + digits, digits.len() + 1)
        } else {
            (sp + digits, prev.1 + digits.len() + 1)
        };
        let done = placed.0.push('\n');
        assert(done.drop_last() =~= placed.0);
    }
}

/// The pixel data of a canvas never holds a line longer than `LINE_LIMIT`
/// characters.
pub proof fn lemma_ppm_lines_within_limit(pixels: Seq<[u8; 3]>, width: nat)
    ensures
        lines_within(pixel_data(pixels, width, 3 * pixels.len()).0, LINE_LIMIT as nat),
{
    lemma_pixel_data_lines(pixels, width, 3 * pixels.len());
}

/// The PPM text of a canvas with at least one pixel ends in a line break.
pub proof fn lemma_ppm_ends_in_line_break(width: nat, height: nat, pixels: Seq<[u8; 3]>)
    requires
        pixels.len() == width * height,
        pixels.len() > 0,
    ensures
        ppm(width, height, pixels).last() == '\n',
{
    let k = 3 * pixels.len();
    assert(k % 3 == 0 && k / 3 == pixels.len());
    assert(width > 0) by (nonlinear_arith)
        requires
            pixels.len() == width * height,
            pixels.len() > 0,
    ;
    lemma_mod_multiples_basic(height as int, width as int);
    assert((width * height) as int == (height as int) * (width as int)) by (nonlinear_arith);
    assert((pixels.len() as int) % (width as int) == 0);
}

/// Pixel (`x`, `y`) of a `width` x `height` grid has a slot inside the grid.
pub proof fn lemma_pixel_slot_bound(width: int, height: int, x: int, y: int)
    requires
        0 <= x < width,
        0 <= y < height,
    ensures
        0 <= y * width <= pixel_slot(width, x, y) < width * height,
{
    assert(0 <= y * width <= y * width + x < width * height) by (nonlinear_arith)
        requires
            0 <= x < width,
            0 <= y < height,
    ;
}

} // verus!
