use crate::canvas::{cell, lemma_cell_in_grid, lemma_rows_round_trip, Canvas};
use crate::color::Color;
use rayon::iter::{IntoParallelIterator, ParallelIterator};
use vstd::prelude::*;

verus! {

/// Runs `job` on every number below `count`, on worker threads, and gives
/// the results in the order of the numbers.
///
/// This is rayon's `into_par_iter` on a range, `map` and `collect` into a
/// `Vec`. Believed of them, not proved: that the vector holds one result for
/// each number below `count`, that the result at place `y` is one that `job`
/// returned for `y`, and that `job` is called on those numbers only.
#[verifier::external_body]
fn par_map<F: Fn(usize) -> Vec<Color> + Sync + Send>(count: usize, job: F) -> (rows: Vec<
    Vec<Color>,
>)
    requires
        forall|y: usize| y < count ==> call_requires(job, (y,)),
    ensures
        rows@.len() == count,
        forall|y: usize| y < count ==> call_ensures(job, (y,), #[trigger] rows@[y as int]),
{
    (0..count).into_par_iter().map(job).collect()
}

/// One row of a picture `hsize` pixels wide: place `x` gets the colour that
/// `shade` gives for column `x` and row `y`.
pub fn render_row<F: Fn(usize, usize) -> Color>(hsize: usize, y: usize, shade: &F) -> (row: Vec<
    Color,
>)
    requires
        forall|x: usize| x < hsize ==> call_requires(*shade, (x, y)),
    ensures
        row@.len() == hsize,
        forall|x: usize| x < hsize ==> call_ensures(*shade, (x, y), #[trigger] row@[x as int]),
{
    let mut row: Vec<Color> = Vec::new();
    let mut x: usize = 0;
    while x < hsize
        invariant
            x <= hsize,
            row@.len() == x,
            forall|x2: usize| x2 < hsize ==> call_requires(*shade, (x2, y)),
            forall|x2: usize| x2 < x ==> call_ensures(*shade, (x2, y), #[trigger] row@[x2 as int]),
        decreases hsize - x,
    {
        let color = shade(x, y);
        row.push(color);
        x += 1;
    }
    row
}

/// The raster of a camera: how many pixels it has across and down.
#[derive(Clone, Copy, Debug, PartialEq, Eq, Structural)]
pub struct Camera {
    pub hsize: usize,
    pub vsize: usize,
}

impl Camera {
    pub fn new(hsize: usize, vsize: usize) -> (camera: Self)
        ensures
            camera == (Camera { hsize, vsize }),
    {
        Self { hsize, vsize }
    }

    /// Renders a picture: every pixel gets the colour that `shade` gives for
    /// its column and row. Rows are taken from the top, each from the left.
    pub fn render<F: Fn(usize, usize) -> Color>(&self, shade: F) -> (image: Canvas)
        requires
            self.vsize * self.hsize <= usize::MAX,
            forall|x: usize, y: usize|
                x < self.hsize && y < self.vsize ==> call_requires(shade, (x, y)),
        ensures
            image.wf(),
            image.cols() == self.hsize,
            image.rows() == self.vsize,
            forall|x: usize, y: usize|
                x < self.hsize && y < self.vsize ==> call_ensures(
                    shade,
                    (x, y),
                    #[trigger] image.pixel(x as nat, y as nat),
                ),
    {
        let mut canvas = Canvas::new(self.hsize, self.vsize);
        let mut y: usize = 0;
        while y < self.vsize
            invariant
                y <= self.vsize,
                canvas.wf(),
                canvas.cols() == self.hsize,
                canvas.rows() == self.vsize,
                forall|x: usize, y: usize|
                    x < self.hsize && y < self.vsize ==> call_requires(shade, (x, y)),
                forall|x2: usize, y2: usize|
                    x2 < self.hsize && y2 < y ==> call_ensures(
                        shade,
                        (x2, y2),
                        #[trigger] canvas.pixel(x2 as nat, y2 as nat),
                    ),
            decreases self.vsize - y,
        {
            let mut x: usize = 0;
            while x < self.hsize
                invariant
                    y < self.vsize,
                    x <= self.hsize,
                    canvas.wf(),
                    canvas.cols() == self.hsize,
                    canvas.rows() == self.vsize,
                    forall|x: usize, y: usize|
                        x < self.hsize && y < self.vsize ==> call_requires(shade, (x, y)),
                    forall|x2: usize, y2: usize|
                        x2 < self.hsize && (y2 < y || (y2 == y && x2 < x)) ==> call_ensures(
                            shade,
                            (x2, y2),
                            #[trigger] canvas.pixel(x2 as nat, y2 as nat),
                        ),
                decreases self.hsize - x,
            {
                let color = shade(x, y);
                let ghost before = canvas;
                canvas.set_color_at_pixel(x, y, color);
                proof {
                    lemma_cell_in_grid(self.hsize as nat, self.vsize as nat, x as nat, y as nat);
                    assert forall|x2: usize, y2: usize|
                        x2 < self.hsize && (y2 < y || (y2 == y && x2 < x + 1)) implies call_ensures(
                        shade,
                        (x2, y2),
                        #[trigger] canvas.pixel(x2 as nat, y2 as nat),
                    ) by {
                        lemma_cell_in_grid(
                            self.hsize as nat,
                            self.vsize as nat,
                            x2 as nat,
                            y2 as nat,
                        );
                        if x2 == x && y2 == y {
                        } else {
                            assert(cell(self.hsize as nat, x2 as nat, y2 as nat) != cell(
                                self.hsize as nat,
                                x as nat,
                                y as nat,
                            ));
                            assert(canvas.pixel(x2 as nat, y2 as nat) == before.pixel(
                                x2 as nat,
                                y2 as nat,
                            ));
                        }
                    }
                }
                x += 1;
            }
            y += 1;
        }
        canvas
    }

    /// Renders a picture as `render` does, with the rows handed out to
    /// worker threads: every pixel gets the colour that `shade` gives for
    /// its column and row.
    pub fn render_par<F: Fn(usize, usize) -> Color + Sync + Send>(&self, shade: F) -> (image:
        Canvas)
        requires
            forall|x: usize, y: usize|
                x < self.hsize && y < self.vsize ==> call_requires(shade, (x, y)),
        ensures
            image.wf(),
            image.cols() == self.hsize,
            image.rows() == self.vsize,
            forall|x: usize, y: usize|
                x < self.hsize && y < self.vsize ==> call_ensures(
                    shade,
                    (x, y),
                    #[trigger] image.pixel(x as nat, y as nat),
                ),
    {
        let hsize = self.hsize;
        let vsize = self.vsize;
        let shade_ref = &shade;
        let row_of = |y: usize| -> (row: Vec<Color>)
            requires
                y < vsize,
            ensures
                row@.len() == hsize,
                forall|x: usize|
                    x < hsize ==> call_ensures(*shade_ref, (x, y), #[trigger] row@[x as int]),
            { render_row(hsize, y, shade_ref) };
        let rows = par_map(vsize, row_of);
        let made = Canvas::from_rows(hsize, rows);
        assert(made is Some);
        let image = made.unwrap();
        assert forall|x: usize, y: usize| x < self.hsize && y < self.vsize implies call_ensures(
            shade,
            (x, y),
            #[trigger] image.pixel(x as nat, y as nat),
        ) by {
            assert(call_ensures(row_of, (y,), rows@[y as int]));
            assert(call_ensures(shade, (x, y), rows@[y as int]@[x as int]));
        }
        image
    }
}

/// A picture is determined by its pixels' colours: two grids of one size
/// that hold, at every column and row, the colour that `shade` names for
/// that place are the same grid, in whatever order they were filled.
pub proof fn lemma_picture_determined(
    a: Seq<Color>,
    b: Seq<Color>,
    width: nat,
    height: nat,
    shade: spec_fn(nat, nat) -> Color,
)
    requires
        a.len() == height * width,
        b.len() == height * width,
        forall|x: nat, y: nat| x < width && y < height ==> a[cell(width, x, y)] == shade(x, y),
        forall|x: nat, y: nat| x < width && y < height ==> b[cell(width, x, y)] == shade(x, y),
    ensures
        a == b,
{
    lemma_rows_round_trip(a, b, width, height);
}

} // verus!
