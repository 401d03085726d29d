//! The pixel canvas: a fixed-size, row-major grid of colors.
use vstd::prelude::*;

verus! {

#[derive(Clone, Copy, PartialEq, Eq, Structural, Debug)]
pub struct Color {
    pub r: u8,
    pub g: u8,
    pub b: u8,
}

impl Color {
    pub fn new(r: u8, g: u8, b: u8) -> (c: Self)
        ensures
            c == (Color { r, g, b }),
    {
        Color { r, g, b }
    }
}


pub open spec fn white() -> Color {
    Color { r: 255, g: 255, b: 255 }
}

/// The color at column `x`, row `y` of a row-major grid `w` wide.
pub open spec fn pix(c: Seq<Color>, w: int, x: int, y: int) -> Color {
    c[y * w + x]
}

pub proof fn lemma_index_unique(w: int, x1: int, y1: int, x2: int, y2: int)
    requires
        0 <= x1 < w,
        0 <= x2 < w,
        0 <= y1,
        0 <= y2,
        y1 * w + x1 == y2 * w + x2,
    ensures
        y1 == y2,
        x1 == x2,
{
    if y1 < y2 {
        assert(y1 * w + w <= y2 * w) by (nonlinear_arith)
            requires
                y1 < y2,
                w > 0,
        ;
    } else if y2 < y1 {
        assert(y2 * w + w <= y1 * w) by (nonlinear_arith)
            requires
                y2 < y1,
                w > 0,
        ;
    }
}

pub proof fn lemma_index_bound(w: int, h: int, x: int, y: int)
    requires
        0 <= x < w,
        0 <= y < h,
    ensures
        0 <= y * w + x < w * h,
{
    assert(0 <= y * w) by (nonlinear_arith)
        requires
            0 <= y,
            0 <= w,
    ;
    assert(y * w + w <= h * w) by (nonlinear_arith)
        requires
            y < h,
            0 <= w,
    ;
    assert(h * w == w * h) by (nonlinear_arith);
}

/// A grid of `width` by `height` pixels, stored row by row: `wf` holds
/// from construction on, and no method changes the size.
pub struct Canvas {
    pub width: usize,
    pub height: usize,
    pub pixels: Vec<Color>,
}

impl Canvas {
    /// The pixels, row by row.
    pub open spec fn view(&self) -> Seq<Color> {
        self.pixels@
    }

    /// The pixel count matches the size.
    pub open spec fn wf(&self) -> bool {
        self.pixels@.len() == self.width * self.height
    }

    /// The color of a pixel inside the canvas.
    pub open spec fn at(&self, x: int, y: int) -> Color {
        pix(self.pixels@, self.width as int, x, y)
    }

    /// A pixel inside the canvas is the entry of its row-major index.
    pub proof fn lemma_pixel_index(&self, x: int, y: int)
        requires
            self.wf(),
            0 <= x < self.width,
            0 <= y < self.height,
        ensures
            0 <= y * self.width + x < self@.len(),
            self.at(x, y) == self@[y * self.width + x],
    {
        lemma_index_bound(self.width as int, self.height as int, x, y);
    }

    pub fn width(&self) -> (r: usize)
        ensures
            r == self.width,
    {
        self.width
    }

    pub fn height(&self) -> (r: usize)
        ensures
            r == self.height,
    {
        self.height
    }

    /// A white canvas.
    pub fn new(width: usize, height: usize) -> (r: Self)
        requires
            width * height <= usize::MAX,
        ensures
            r.wf(),
            r.width == width,
            r.height == height,
            r@.len() == width * height,
            forall|k: int| 0 <= k < r@.len() ==> #[trigger] r@[k] == white(),
            forall|x: int, y: int|
                0 <= x < width && 0 <= y < height ==> #[trigger] r.at(x, y) == white(),
    {
        let n = width * height;
        let mut pixels: Vec<Color> = Vec::new();
        let mut i: usize = 0;
        while i < n
            invariant
                i <= n,
                pixels@.len() == i,
                forall|k: int| 0 <= k < i ==> #[trigger] pixels@[k] == white(),
            decreases n - i,
        {
            pixels.push(Color::new(255, 255, 255));
            i = i + 1;
        }
        let r = Canvas { width, height, pixels };
        assert forall|x: int, y: int| 0 <= x < width && 0 <= y < height implies #[trigger] r.at(
            x,
            y,
        ) == white() by {
            lemma_index_bound(width as int, height as int, x, y);
        }
        r
    }

    /// Sets a pixel; a pixel outside the canvas is dropped.
    pub fn set_pixel(&mut self, x: usize, y: usize, color: Color)
        requires
            old(self).wf(),
        ensures
            final(self).wf(),
            final(self).width == old(self).width,
            final(self).height == old(self).height,
            final(self)@ == if x < old(self).width && y < old(self).height {
                old(self)@.update(y * old(self).width + x, color)
            } else {
                old(self)@
            },
            forall|px: int, py: int|
                0 <= px < old(self).width && 0 <= py < old(self).height ==> #[trigger] final(self).at(px, py) == if px == x && py == y {
                    color
                } else {
                    old(self).at(px, py)
                },
    {
        if x < self.width && y < self.height {
            let n = self.pixels.len();
            proof {
                lemma_index_bound(self.width as int, self.height as int, x as int, y as int);
                assert(y * self.width + x < n);
            }
            let ghost before = *self;
            self.pixels.set(y * self.width + x, color);
            assert forall|px: int, py: int|
                0 <= px < self.width && 0 <= py < self.height implies #[trigger] self.at(px, py)
                == if px == x && py == y {
                color
            } else {
                before.at(px, py)
            } by {
                lemma_index_bound(self.width as int, self.height as int, px, py);
                if py * self.width + px == y * self.width + x {
                    lemma_index_unique(self.width as int, px, py, x as int, y as int);
                }
            }
        }
    }

    /// The color of a pixel inside the canvas.
    pub fn pixel(&self, x: usize, y: usize) -> (r: Color)
        requires
            self.wf(),
            x < self.width,
            y < self.height,
        ensures
            r == self.at(x as int, y as int),
    {
        let n = self.pixels.len();
        proof {
            lemma_index_bound(self.width as int, self.height as int, x as int, y as int);
            assert(y * self.width + x < n);
        }
        self.pixels[y * self.width + x]
    }

    /// Paints every pixel with one color.
    pub fn fill(&mut self, color: Color)
        requires
            old(self).wf(),
        ensures
            final(self).wf(),
            final(self).width == old(self).width,
            final(self).height == old(self).height,
            final(self)@.len() == old(self)@.len(),
            forall|k: int| 0 <= k < final(self)@.len() ==> #[trigger] final(self)@[k] == color,
            forall|x: int, y: int|
                0 <= x < final(self).width && 0 <= y < final(self).height ==> #[trigger] final(self).at(x, y) == color,
    {
        let n = self.pixels.len();
        let mut i: usize = 0;
        while i < n
            invariant
                i <= n,
                n == self.pixels@.len() == self.width * self.height,
                self.width == old(self).width,
                self.height == old(self).height,
                forall|k: int| 0 <= k < i ==> #[trigger] self.pixels@[k] == color,
            decreases n - i,
        {
            self.pixels.set(i, color);
            i = i + 1;
        }
        assert forall|x: int, y: int|
            0 <= x < self.width && 0 <= y < self.height implies #[trigger] self.at(x, y) == color by {
            lemma_index_bound(self.width as int, self.height as int, x, y);
        }
    }
}


pub open spec fn digit_char(d: int) -> char {
    if d == 0 {
        '0'
    } else if d == 1 {
        '1'
    } else if d == 2 {
        '2'
    } else if d == 3 {
        '3'
    } else if d == 4 {
        '4'
    } else if d == 5 {
        '5'
    } else if d == 6 {
        '6'
    } else if d == 7 {
        '7'
    } else if d == 8 {
        '8'
    } else {
        '9'
    }
}

/// The decimal digits of a number, without leading zeros.
pub open spec fn decimal(n: nat) -> Seq<char>
    decreases n,
{
    if n < 10 {
        seq![digit_char(n as int)]
    } else {
        decimal(n / 10).push(digit_char((n % 10) as int))
    }
}

/// One pixel as a line of text: red, green and blue in decimal.
pub open spec fn pixel_line(c: Color) -> Seq<char> {
    decimal(c.r as nat) + seq![' '] + decimal(c.g as nat) + seq![' '] + decimal(c.b as nat) + seq![
        '\n',
    ]
}

pub open spec fn pixel_lines(ps: Seq<Color>) -> Seq<char>
    decreases ps.len(),
{
    if ps.len() == 0 {
        Seq::empty()
    } else {
        pixel_lines(ps.drop_last()) + pixel_line(ps.last())
    }
}

/// The plain-text portable pixmap format: its magic line, the size, the
/// maximum channel value 255,
/// then one line per pixel in row-major order.
pub open spec fn ppm_text(width: nat, height: nat, ps: Seq<Color>) -> Seq<char> {
    seq!['P', '3', '\n'] + decimal(width) + seq![' '] + decimal(height) + seq!['\n', '2', '5', '5', '\n']
        + pixel_lines(ps)
}

fn digit(d: u64) -> (c: char)
    requires
        d < 10,
    ensures
        c == digit_char(d as int),
{
    if d == 0 {
        '0'
    } else if d == 1 {
        '1'
    } else if d == 2 {
        '2'
    } else if d == 3 {
        '3'
    } else if d == 4 {
        '4'
    } else if d == 5 {
        '5'
    } else if d == 6 {
        '6'
    } else if d == 7 {
        '7'
    } else if d == 8 {
        '8'
    } else {
        '9'
    }
}

/// Appends the decimal digits of `n`.
pub fn push_decimal(s: &mut String, n: u64)
    ensures
        final(s)@ == old(s)@ + decimal(n as nat),
    decreases n,
{
    if n >= 10 {
        push_decimal(s, n / 10);
        s.push(digit(n % 10));
        assert(final(s)@ =~= old(s)@ + decimal(n as nat));
    } else {
        s.push(digit(n));
        assert(final(s)@ =~= old(s)@ + decimal(n as nat));
    }
}

fn push_pixel(s: &mut String, c: Color)
    ensures
        final(s)@ == old(s)@ + pixel_line(c),
{
    push_decimal(s, c.r as u64);
    s.push(' ');
    push_decimal(s, c.g as u64);
    s.push(' ');
    push_decimal(s, c.b as u64);
    s.push('\n');
    assert(s@ =~= old(s)@ + pixel_line(c));
}

impl Canvas {
    /// The canvas in the text image format of `ppm_text`.
    pub fn to_ppm(&self) -> (r: String)
        ensures
            r@ == ppm_text(self.width as nat, self.height as nat, self@),
    {
        let mut s = String::new();
        s.push('P');
        s.push('3');
        s.push('\n');
        push_decimal(&mut s, self.width as u64);
        s.push(' ');
        push_decimal(&mut s, self.height as u64);
        s.push('\n');
        s.push('2');
        s.push('5');
        s.push('5');
        s.push('\n');
        let ghost header = s@;
        assert(header =~= seq!['P', '3', '\n'] + decimal(self.width as nat) + seq![' '] + decimal(
            self.height as nat,
        ) + seq!['\n', '2', '5', '5', '\n']);
        let n = self.pixels.len();
        let mut i: usize = 0;
        while i < n
            invariant
                n == self.pixels@.len(),
                i <= n,
                s@ == header + pixel_lines(self.pixels@.take(i as int)),
            decreases n - i,
        {
            push_pixel(&mut s, self.pixels[i]);
            assert(self.pixels@.take(i + 1).drop_last() =~= self.pixels@.take(i as int));
            assert(s@ =~= header + pixel_lines(self.pixels@.take(i + 1)));
            i = i + 1;
        }
        assert(self.pixels@.take(n as int) =~= self.pixels@);
        s
    }
}

} // verus!
