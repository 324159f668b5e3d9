//! Fixed-size character canvases and the widgets that are laid out on them.
use vstd::prelude::*;

verus! {

/// One cell of a canvas: a character, or nothing (shown as a space).
pub type Pixel = Option<char>;

/// A grid of `HEIGHT` rows of `WIDTH` pixels.
pub struct Canvas<const WIDTH: usize, const HEIGHT: usize>(pub [[Pixel; WIDTH]; HEIGHT]);

/// The character that shows a pixel.
pub open spec fn shown(p: Pixel) -> char {
    match p {
        Some(c) => c,
        None => ' ',
    }
}

/// The text of a grid: each row's characters followed by a newline.
pub open spec fn grid_text(rows: Seq<Seq<Pixel>>) -> Seq<char>
    decreases rows.len(),
{
    if rows.len() == 0 {
        Seq::empty()
    } else {
        grid_text(rows.drop_last()) + rows.last().map_values(|p: Pixel| shown(p)) + seq!['\n']
    }
}

/// Relies on `String::push`: appends one character.
#[verifier::external_body]
fn push_char(s: &mut String, c: char)
    ensures
        final(s)@ == old(s)@.push(c),
{
    s.push(c)
}

impl<const WIDTH: usize, const HEIGHT: usize> Canvas<WIDTH, HEIGHT> {
    pub open spec fn rows(&self) -> Seq<Seq<Pixel>> {
        self.0@.map_values(|r: [Pixel; WIDTH]| r@)
    }

    /// A canvas with every pixel set to `pixel`.
    pub fn new(pixel: Pixel) -> (r: Self)
        ensures
            forall|i: int, j: int| 0 <= i < HEIGHT && 0 <= j < WIDTH ==> r.0[i][j] == pixel,
    {
        let row: [Pixel; WIDTH] = [pixel; WIDTH];
        Canvas([row; HEIGHT])
    }

    /// The canvas as text: one line per row, an empty pixel shown as a space.
    pub fn to_text(&self) -> (r: String)
        ensures
            r@ == grid_text(self.rows()),
    {
        let mut out = String::new();
        let mut i: usize = 0;
        while i < HEIGHT
            invariant
                i <= HEIGHT,
                self.0@.len() == HEIGHT,
                out@ == grid_text(self.rows().subrange(0, i as int)),
            decreases HEIGHT - i,
        {
            let row = &self.0[i];
            let ghost before = out@;
            let mut j: usize = 0;
            while j < WIDTH
                invariant
                    j <= WIDTH,
                    row@.len() == WIDTH,
                    out@ == before + row@.subrange(0, j as int).map_values(|p: Pixel| shown(p)),
                decreases WIDTH - j,
            {
                let c = match row[j] {
                    Some(c) => c,
                    None => ' ',
                };
                push_char(&mut out, c);
                assert(row@.subrange(0, j + 1).map_values(|p: Pixel| shown(p)) =~= row@.subrange(
                    0,
                    j as int,
                ).map_values(|p: Pixel| shown(p)).push(c));
                j = j + 1;
            }
            push_char(&mut out, '\n');
            assert(row@.subrange(0, WIDTH as int) =~= row@);
            assert(self.rows().subrange(0, i + 1).drop_last() =~= self.rows().subrange(0, i as int));
            i = i + 1;
        }
        assert(self.rows().subrange(0, HEIGHT as int) =~= self.rows());
        out
    }
}

impl<const WIDTH: usize, const HEIGHT: usize> Default for Canvas<WIDTH, HEIGHT> {
    /// A blank canvas.
    fn default() -> (r: Self)
        ensures
            forall|i: int, j: int| 0 <= i < HEIGHT && 0 <= j < WIDTH ==> r.0[i][j] is None,
    {
        Self::new(None)
    }
}

/// A widget of `WIDTH` by `HEIGHT` cells drawn inside a border.
pub struct Box<const WIDTH: usize, const HEIGHT: usize, T> {
    pub border: Pixel,
    pub inner: T,
}

impl<const WIDTH: usize, const HEIGHT: usize, T> Box<WIDTH, HEIGHT, T> {
    /// A box around `inner`, with no border character yet.
    pub fn new(inner: T) -> (r: Self)
        ensures
            r.border is None,
            r.inner == inner,
    {
        Box { border: None, inner }
    }

    /// The same box with `border` as its border character.
    pub fn border(self, border: Pixel) -> (r: Self)
        ensures
            r.border == border,
            r.inner == self.inner,
    {
        Box { border, inner: self.inner }
    }

    /// A box of `X` by `Y` cells around an empty widget of `IX` by `IY` cells.
    pub fn empty<const X: usize, const Y: usize, const IX: usize, const IY: usize>() -> (r: Box<
        X,
        Y,
        Empty<IX, IY>,
    >)
        requires
            IX + 2 == X,
            IY + 2 == Y,
        ensures
            r.border is None,
    {
        Box::new(Empty)
    }
}

/// A widget of `WIDTH` by `HEIGHT` cells that draws nothing.
pub struct Empty<const WIDTH: usize, const HEIGHT: usize>;

impl<const WIDTH: usize, const HEIGHT: usize> Empty<WIDTH, HEIGHT> {
    /// A blank canvas of its size.
    pub fn render(&self) -> (r: Canvas<WIDTH, HEIGHT>)
        ensures
            forall|i: int, j: int| 0 <= i < HEIGHT && 0 <= j < WIDTH ==> r.0[i][j] is None,
    {
        Canvas::new(None)
    }
}

/// Widgets laid out side by side in `WIDTH` by `HEIGHT` cells.
pub struct HBox<const WIDTH: usize, const HEIGHT: usize, T> {
    pub inner: T,
}

impl<const WIDTH: usize, const HEIGHT: usize, T> HBox<WIDTH, HEIGHT, T> {
    pub fn new(inner: T) -> (r: Self)
        ensures
            r.inner == inner,
    {
        HBox { inner }
    }

    /// A blank canvas of its size.
    pub fn render(&self) -> (r: Canvas<WIDTH, HEIGHT>)
        ensures
            forall|i: int, j: int| 0 <= i < HEIGHT && 0 <= j < WIDTH ==> r.0[i][j] is None,
    {
        Canvas::new(None)
    }
}

/// Three signed bytes.
pub struct Char3(pub [i8; 3]);

} // verus!
