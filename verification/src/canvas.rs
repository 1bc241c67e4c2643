use crate::color::{decimal, push_decimal, rgb_text, Color, ToRGB};
use vstd::prelude::*;
use vstd::string::*;

verus! {

/// The place of pixel `(x, y)` in a row-major grid of the given width.
pub open spec fn cell(width: nat, x: nat, y: nat) -> int {
    (y * width + x) as int
}

/// Something with a width and a height, counted in pixels.
pub trait Sized {
    spec fn spec_width(&self) -> nat;

    spec fn spec_height(&self) -> nat;

    fn width(&self) -> (w: usize)
        ensures
            w == self.spec_width(),
    ;

    fn height(&self) -> (h: usize)
        ensures
            h == self.spec_height(),
    ;
}

/// The first lines of a plain-text image of the given size: the format's
/// name, the width and height, and the greatest channel level.
pub open spec fn header_text(width: nat, height: nat) -> Seq<char> {
    seq!['P', '3', '\n'] + decimal(width).push(' ') + decimal(height).push('\n') + seq![
        '2',
        '5',
        '5',
        '\n',
    ]
}

/// The pixel lines of a plain-text image: for each pixel in order, its three
/// clamped levels and a line feed.
pub open spec fn pixel_lines(pixels: Seq<Color>) -> Seq<char>
    decreases pixels.len(),
{
    if pixels.len() == 0 {
        Seq::empty()
    } else {
        pixel_lines(pixels.drop_last()) + rgb_text(pixels.last().levels()).push('\n')
    }
}

/// Something that can be written as a plain-text image.
pub trait ToPPM: Sized {
    /// The pixels in the order in which they are written.
    spec fn scan(&self) -> Seq<Color>;

    fn header(&self) -> (text: String)
        ensures
            text@ == header_text(self.spec_width(), self.spec_height()),
    ;

    fn to_ppm(&self) -> (text: String)
        ensures
            text@ == pixel_lines(self.scan()),
    ;
}

/// A grid of colours, `width` pixels wide and `height` pixels high, kept row
/// by row from the top.
pub struct Canvas {
    width: usize,
    height: usize,
    frame: Vec<Color>,
}

impl Canvas {
    /// The pixels row by row, top row first, each row from the left.
    pub closed spec fn pixels(&self) -> Seq<Color> {
        self.frame@
    }

    pub closed spec fn cols(&self) -> nat {
        self.width as nat
    }

    pub closed spec fn rows(&self) -> nat {
        self.height as nat
    }

    /// The grid holds exactly one colour for each pixel.
    pub open spec fn wf(&self) -> bool {
        self.pixels().len() == self.rows() * self.cols()
    }

    /// The colour of pixel `(x, y)`.
    pub open spec fn pixel(&self, x: nat, y: nat) -> Color {
        self.pixels()[cell(self.cols(), x, y)]
    }

    /// A canvas of the given size with every pixel black.
    pub fn new(width: usize, height: usize) -> (canvas: Self)
        requires
            height * width <= usize::MAX,
        ensures
            canvas.wf(),
            canvas.cols() == width,
            canvas.rows() == height,
            forall|i: int|
                0 <= i < canvas.pixels().len() ==> canvas.pixels()[i] == (Color {
                    red: 0,
                    green: 0,
                    blue: 0,
                }),
    {
        let count: usize = height * width;
        let mut frame: Vec<Color> = Vec::new();
        let mut i: usize = 0;
        while i < count
            invariant
                i <= count,
                frame@.len() == i,
                forall|k: int| 0 <= k < i ==> frame@[k] == (Color { red: 0, green: 0, blue: 0 }),
            decreases count - i,
        {
            frame.push(Color::black());
            i += 1;
        }
        Self { width, height, frame }
    }

    /// A canvas made of whole rows, top row first: pixel `(x, y)` gets the
    /// colour at place `x` of row `y`. There is a canvas exactly when every
    /// row holds `width` colours.
    pub fn from_rows(width: usize, rows: Vec<Vec<Color>>) -> (made: Option<Self>)
        ensures
            made is Some <==> forall|y: int| 0 <= y < rows@.len() ==> rows@[y]@.len() == width,
            match made {
                Some(canvas) => {
                    &&& canvas.wf()
                    &&& canvas.cols() == width
                    &&& canvas.rows() == rows@.len()
                    &&& forall|x: nat, y: nat|
                        x < width && y < rows@.len() ==> #[trigger] canvas.pixel(x, y)
                            == rows@[y as int]@[x as int]
                },
                None => true,
            },
    {
        let mut frame: Vec<Color> = Vec::new();
        let mut y: usize = 0;
        while y < rows.len()
            invariant
                y <= rows@.len(),
                frame@.len() == y * width,
                forall|y2: int| 0 <= y2 < y ==> rows@[y2]@.len() == width,
                forall|x2: nat, y2: nat|
                    x2 < width && y2 < y ==> frame@[#[trigger] cell(width as nat, x2, y2)]
                        == rows@[y2 as int]@[x2 as int],
            decreases rows@.len() - y,
        {
            if rows[y].len() != width {
                return None;
            }
            let mut x: usize = 0;
            while x < width
                invariant
                    y < rows@.len(),
                    x <= width,
                    rows@[y as int]@.len() == width,
                    frame@.len() == y * width + x,
                    forall|x2: nat, y2: nat|
                        x2 < width && y2 < y ==> frame@[#[trigger] cell(width as nat, x2, y2)]
                            == rows@[y2 as int]@[x2 as int],
                    forall|x2: nat|
                        x2 < x ==> frame@[#[trigger] cell(width as nat, x2, y as nat)]
                            == rows@[y as int]@[x2 as int],
                decreases width - x,
            {
                proof {
                    assert forall|x2: nat, y2: nat| x2 < width && y2 < y implies cell(
                        width as nat,
                        x2,
                        y2,
                    ) < y * width by {
                        lemma_cell_in_grid(width as nat, y as nat, x2, y2);
                    }
                }
                frame.push(rows[y][x]);
                x += 1;
            }
            assert(frame@.len() == (y + 1) * width) by (nonlinear_arith)
                requires
                    frame@.len() == y * width + width,
            ;
            proof {
                assert forall|x2: nat, y2: nat| x2 < width && y2 < y + 1 implies frame@[cell(
                    width as nat,
                    x2,
                    y2,
                )] == rows@[y2 as int]@[x2 as int] by {
                    if y2 < y {
                    } else {
                        assert(y2 == y);
                    }
                }
            }
            y += 1;
        }
        assert(frame@.len() == rows@.len() * width);
        Some(Self { width, height: rows.len(), frame })
    }

    /// The rows of the canvas, top row first: place `x` of row `y` holds
    /// the colour of pixel `(x, y)`.
    pub fn to_rows(&self) -> (rows: Vec<Vec<Color>>)
        requires
            self.wf(),
        ensures
            rows@.len() == self.rows(),
            forall|y: int| 0 <= y < rows@.len() ==> (#[trigger] rows@[y])@.len() == self.cols(),
            forall|x: nat, y: nat|
                x < self.cols() && y < self.rows() ==> rows@[y as int]@[x as int]
                    == #[trigger] self.pixel(x, y),
    {
        let mut rows: Vec<Vec<Color>> = Vec::new();
        let mut y: usize = 0;
        while y < self.height
            invariant
                self.wf(),
                y <= self.height,
                rows@.len() == y,
                forall|y2: int| 0 <= y2 < y ==> (#[trigger] rows@[y2])@.len() == self.cols(),
                forall|x2: nat, y2: nat|
                    x2 < self.cols() && y2 < y ==> rows@[y2 as int]@[x2 as int]
                        == #[trigger] self.pixel(x2, y2),
            decreases self.height - y,
        {
            let mut row: Vec<Color> = Vec::new();
            let mut x: usize = 0;
            while x < self.width
                invariant
                    self.wf(),
                    y < self.height,
                    x <= self.width,
                    row@.len() == x,
                    forall|x2: nat| x2 < x ==> row@[x2 as int] == #[trigger] self.pixel(x2, y as nat),
                decreases self.width - x,
            {
                row.push(self.color_at_pixel(x, y));
                x += 1;
            }
            rows.push(row);
            y += 1;
        }
        rows
    }

    /// Gives pixel `(x, y)` the colour `color` and leaves every other pixel
    /// as it was.
    pub fn set_color_at_pixel(&mut self, x: usize, y: usize, color: Color)
        requires
            old(self).wf(),
            x < old(self).cols(),
            y < old(self).rows(),
        ensures
            final(self).wf(),
            final(self).cols() == old(self).cols(),
            final(self).rows() == old(self).rows(),
            final(self).pixels() == old(self).pixels().update(
                cell(old(self).cols(), x as nat, y as nat),
                color,
            ),
    {
        let count: usize = self.frame.len();
        proof {
            lemma_cell_in_grid(self.cols(), self.rows(), x as nat, y as nat);
            assert(0 <= y * self.width <= y * self.width + x) by (nonlinear_arith);
            assert(y * self.width + x < count);
        }
        let at: usize = y * self.width + x;
        self.frame.set(at, color);
    }

    /// The colour of pixel `(x, y)`.
    pub fn color_at_pixel(&self, x: usize, y: usize) -> (color: Color)
        requires
            self.wf(),
            x < self.cols(),
            y < self.rows(),
        ensures
            color == self.pixel(x as nat, y as nat),
    {
        let count: usize = self.frame.len();
        proof {
            lemma_cell_in_grid(self.cols(), self.rows(), x as nat, y as nat);
            assert(0 <= y * self.width <= y * self.width + x) by (nonlinear_arith);
            assert(y * self.width + x < count);
        }
        let at: usize = y * self.width + x;
        self.frame[at]
    }
}

impl Sized for Canvas {
    open spec fn spec_width(&self) -> nat {
        self.cols()
    }

    open spec fn spec_height(&self) -> nat {
        self.rows()
    }

    fn width(&self) -> (w: usize) {
        self.width
    }

    fn height(&self) -> (h: usize) {
        self.height
    }
}

impl ToPPM for Canvas {
    open spec fn scan(&self) -> Seq<Color> {
        self.pixels()
    }

    fn header(&self) -> (text: String) {
        proof {
            reveal_strlit("P3\n");
            reveal_strlit(" ");
            reveal_strlit("\n255\n");
        }
        let mut text = String::new();
        text.append("P3\n");
        push_decimal(&mut text, self.width);
        text.append(" ");
        push_decimal(&mut text, self.height);
        text.append("\n255\n");
        assert(text@ =~= header_text(self.spec_width(), self.spec_height()));
        text
    }

    fn to_ppm(&self) -> (text: String) {
        let mut text = String::new();
        let mut i: usize = 0;
        while i < self.frame.len()
            invariant
                i <= self.frame@.len(),
                text@ == pixel_lines(self.frame@.take(i as int)),
            decreases self.frame@.len() - i,
        {
            let line = self.frame[i].to_rgb_string();
            text.append(line.as_str());
            text.append("\n");
            proof {
                reveal_strlit("\n");
                let before = self.frame@.take(i as int);
                let now = self.frame@.take(i + 1);
                assert(now.drop_last() =~= before);
                assert(now.last() == self.frame@[i as int]);
                assert(text@ =~= pixel_lines(before) + rgb_text(self.frame@[i as int].levels()).push(
                    '\n',
                ));
            }
            i += 1;
        }
        assert(self.frame@.take(i as int) =~= self.frame@);
        text
    }
}

/// The text of a whole image file: the header, then the pixel lines.
pub fn ppm_file<T: ToPPM>(image: &T) -> (text: String)
    ensures
        text@ == header_text(image.spec_width(), image.spec_height()) + pixel_lines(image.scan()),
{
    let mut text = image.header();
    let lines = image.to_ppm();
    text.append(lines.as_str());
    text
}

/// Inside a grid, every pixel has a place of its own below the number of
/// pixels: two pixels share a place only if they are the same pixel.
pub proof fn lemma_cell_in_grid(width: nat, height: nat, x: nat, y: nat)
    requires
        x < width,
        y < height,
    ensures
        0 <= cell(width, x, y) < height * width,
        forall|x2: nat, y2: nat|
            x2 < width && #[trigger] cell(width, x2, y2) == cell(width, x, y) ==> x2 == x && y2
                == y,
{
    assert(y * width + x < height * width) by (nonlinear_arith)
        requires
            x < width,
            y < height,
    ;
    assert forall|x2: nat, y2: nat|
        x2 < width && #[trigger] cell(width, x2, y2) == cell(width, x, y) implies x2 == x && y2
        == y by {
        assert(y2 * width + x2 == y * width + x ==> y2 == y) by (nonlinear_arith)
            requires
                x < width,
                x2 < width,
        ;
    }
}

/// Taking a canvas apart into rows and putting the rows together again
/// gives the pixels of the canvas.
pub proof fn lemma_rows_round_trip(pixels: Seq<Color>, again: Seq<Color>, width: nat, height: nat)
    requires
        pixels.len() == height * width,
        again.len() == height * width,
        forall|x: nat, y: nat|
            x < width && y < height ==> again[cell(width, x, y)] == pixels[cell(width, x, y)],
    ensures
        again == pixels,
{
    assert forall|i: int| 0 <= i < pixels.len() implies again[i] == pixels[i] by {
        assert(width > 0) by (nonlinear_arith)
            requires
                0 <= i < height * width,
        ;
        let x = (i % (width as int)) as nat;
        let y = (i / (width as int)) as nat;
        assert(x < width && y < height && y * width + x == i) by (nonlinear_arith)
            requires
                0 <= i < height * width,
                width > 0,
                x == i % (width as int),
                y == i / (width as int),
        ;
        assert(cell(width, x, y) == i);
    }
    assert(again =~= pixels);
}

/// Two pictures of one size agree where each holds, at every column and
/// row, a colour that `shade` gives for that place and `shade` gives one
/// colour only for each place: then the order and the threads in which the
/// pixels were computed leave no trace.
pub proof fn lemma_renders_agree<F: Fn(usize, usize) -> Color>(shade: F, a: Canvas, b: Canvas)
    requires
        a.wf(),
        b.wf(),
        a.cols() == b.cols(),
        a.rows() == b.rows(),
        forall|x: usize, y: usize|
            x < a.cols() && y < a.rows() ==> call_ensures(
                shade,
                (x, y),
                #[trigger] a.pixel(x as nat, y as nat),
            ),
        forall|x: usize, y: usize|
            x < b.cols() && y < b.rows() ==> call_ensures(
                shade,
                (x, y),
                #[trigger] b.pixel(x as nat, y as nat),
            ),
        forall|x: usize, y: usize, c1: Color, c2: Color|
            #[trigger] call_ensures(shade, (x, y), c1) && #[trigger] call_ensures(shade, (x, y), c2)
                ==> c1 == c2,
    ensures
        a.pixels() == b.pixels(),
{
    let width = a.cols();
    let height = a.rows();
    assert forall|x: nat, y: nat| x < width && y < height implies b.pixels()[cell(width, x, y)]
        == a.pixels()[cell(width, x, y)] by {
        let ux = x as usize;
        let uy = y as usize;
        assert(call_ensures(shade, (ux, uy), a.pixel(ux as nat, uy as nat)));
        assert(call_ensures(shade, (ux, uy), b.pixel(ux as nat, uy as nat)));
    }
    lemma_rows_round_trip(a.pixels(), b.pixels(), width, height);
}

/// Writes to two different pixels can be made in either order: the canvas
/// that results is the same. A picture therefore does not depend on the
/// order in which its pixels were computed.
pub proof fn lemma_writes_commute(
    pixels: Seq<Color>,
    width: nat,
    height: nat,
    x1: nat,
    y1: nat,
    c1: Color,
    x2: nat,
    y2: nat,
    c2: Color,
)
    requires
        pixels.len() == height * width,
        x1 < width,
        y1 < height,
        x2 < width,
        y2 < height,
        x1 != x2 || y1 != y2,
    ensures
        pixels.update(cell(width, x1, y1), c1).update(cell(width, x2, y2), c2) == pixels.update(
            cell(width, x2, y2),
            c2,
        ).update(cell(width, x1, y1), c1),
{
    lemma_cell_in_grid(width, height, x1, y1);
    lemma_cell_in_grid(width, height, x2, y2);
    assert(pixels.update(cell(width, x1, y1), c1).update(cell(width, x2, y2), c2) =~= pixels.update(
        cell(width, x2, y2),
        c2,
    ).update(cell(width, x1, y1), c1));
}

} // verus!
