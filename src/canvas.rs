//! A pixel canvas and its plain-text PPM encoding.
use crate::color::{decimal_to_8bit, quantize, Color};
use crate::text::{
    digit, int_text, lemma_int_text, lemma_int_text_digits, push_int_text, string_from_chars,
};
use crate::decimal::{lemma_unit_positive, unit};
use vstd::prelude::*;

verus! {

/// The longest line the PPM encoder writes.
pub const MAX_LINE: usize = 70;

/// What one token adds to the current line at column `col`: the token alone
/// at the start of a line, after a space where it fits, else on a new line.
pub open spec fn wrap_emit(col: nat, tok: Seq<char>) -> Seq<char> {
    if col == 0 {
        tok
    } else if col + 1 + tok.len() <= MAX_LINE {
        seq![' '] + tok
    } else {
        seq!['\n'] + tok
    }
}

/// The column after one token is written at column `col`.
pub open spec fn wrap_next_col(col: nat, tok: Seq<char>) -> nat {
    if col == 0 {
        tok.len()
    } else if col + 1 + tok.len() <= MAX_LINE {
        col + 1 + tok.len()
    } else {
        tok.len()
    }
}

/// The column after the first `n` tokens of a row.
pub open spec fn wrap_col(ts: Seq<Seq<char>>, n: nat) -> nat
    decreases n,
{
    if n == 0 {
        0
    } else {
        wrap_next_col(wrap_col(ts, (n - 1) as nat), ts[n - 1])
    }
}

/// The text of the first `n` tokens of a row, wrapped at `MAX_LINE`.
pub open spec fn wrap_text(ts: Seq<Seq<char>>, n: nat) -> Seq<char>
    decreases n,
{
    if n == 0 {
        Seq::empty()
    } else {
        wrap_text(ts, (n - 1) as nat) + wrap_emit(wrap_col(ts, (n - 1) as nat), ts[n - 1])
    }
}

/// A whole row of tokens, wrapped, ending with a newline.
pub open spec fn wrap_row(ts: Seq<Seq<char>>) -> Seq<char> {
    wrap_text(ts, ts.len()) + seq!['\n']
}

/// The text of channel `k` (0 red, 1 green, 2 blue) of a color.
pub open spec fn channel_text(c: Color, k: int) -> Seq<char> {
    let d = if k == 0 {
        c.red
    } else if k == 1 {
        c.green
    } else {
        c.blue
    };
    int_text(quantize(d.val()) as nat)
}

/// The tokens of a row of pixels: three channel values per pixel, left to
/// right.
pub open spec fn row_tokens(row: Seq<Color>) -> Seq<Seq<char>> {
    Seq::new(3 * row.len(), |i: int| channel_text(row[i / 3], i % 3))
}

/// The PPM header: the plain-text magic number, the dimensions, and the
/// maximum channel value.
pub open spec fn ppm_header(width: nat, height: nat) -> Seq<char> {
    seq!['P', '3', '\n'] + int_text(width) + seq![' '] + int_text(height) + seq![
        '\n',
        '2',
        '5',
        '5',
        '\n',
    ]
}

/// The encoded text of the first `n` rows of a grid of width `width`.
pub open spec fn ppm_rows(pixels: Seq<Color>, width: nat, n: nat) -> Seq<char>
    decreases n,
{
    if n == 0 {
        Seq::empty()
    } else {
        ppm_rows(pixels, width, (n - 1) as nat) + wrap_row(
            row_tokens(pixels.subrange((n - 1) * width, (n * width) as int)),
        )
    }
}

/// A value as the encoder writes it: non-empty, at most `MAX_LINE` long,
/// without a space or a newline.
pub open spec fn is_token(t: Seq<char>) -> bool {
    &&& 0 < t.len() <= MAX_LINE
    &&& forall|k: int| 0 <= k < t.len() ==> #[trigger] t[k] != ' ' && t[k] != '\n'
}

/// The first `n` tokens separated by single spaces.
pub open spec fn join_tokens(ts: Seq<Seq<char>>, n: nat) -> Seq<char>
    decreases n,
{
    if n == 0 {
        Seq::empty()
    } else if n == 1 {
        ts[0]
    } else {
        join_tokens(ts, (n - 1) as nat) + seq![' '] + ts[n - 1]
    }
}

/// The text with every newline replaced by a space.
pub open spec fn newlines_to_spaces(s: Seq<char>) -> Seq<char> {
    s.map_values(|c: char| if c == '\n' { ' ' } else { c })
}

/// No newline among the characters `i..=j`.
pub open spec fn newline_free(s: Seq<char>, i: int, j: int) -> bool {
    forall|k: int| i <= k <= j ==> s[k] != '\n'
}

/// No line of the text is longer than `MAX_LINE`.
pub open spec fn lines_fit(s: Seq<char>) -> bool {
    forall|i: int, j: int|
        0 <= i <= j < s.len() && #[trigger] newline_free(s, i, j) ==> j - i < MAX_LINE
}

/// No line of the text ends with a space.
pub open spec fn no_space_before_newline(s: Seq<char>) -> bool {
    forall|i: int| 0 < i < s.len() && #[trigger] s[i] == '\n' ==> s[i - 1] != ' '
}

proof fn lemma_wrap_text(ts: Seq<Seq<char>>, n: nat)
    requires
        n <= ts.len(),
        forall|k: int| 0 <= k < ts.len() ==> is_token(#[trigger] ts[k]),
    ensures
        wrap_col(ts, n) <= MAX_LINE,
        n > 0 ==> wrap_col(ts, n) >= 1,
        n == 0 ==> wrap_text(ts, n).len() == 0 && wrap_col(ts, n) == 0,
        wrap_col(ts, n) <= wrap_text(ts, n).len(),
        newline_free(
            wrap_text(ts, n),
            wrap_text(ts, n).len() - wrap_col(ts, n),
            wrap_text(ts, n).len() - 1,
        ),
        wrap_text(ts, n).len() == wrap_col(ts, n) || wrap_text(ts, n)[wrap_text(ts, n).len()
            - wrap_col(ts, n) - 1] == '\n',
        lines_fit(wrap_text(ts, n)),
        no_space_before_newline(wrap_text(ts, n)),
        n > 0 ==> wrap_text(ts, n).last() != ' ',
        newlines_to_spaces(wrap_text(ts, n)) == join_tokens(ts, n),
    decreases n,
{
    if n > 0 {
        let m = (n - 1) as nat;
        lemma_wrap_text(ts, m);
        let t = wrap_text(ts, m);
        let c = wrap_col(ts, m);
        let tok = ts[m as int];
        assert(is_token(tok));
        let e = wrap_emit(c, tok);
        let t2 = wrap_text(ts, n);
        let c2 = wrap_col(ts, n);
        assert(t2 == t + e);
        let tl = t.len() as int;
        if c == 0 {
            assert(t.len() == 0);
            assert(t2 =~= tok);
            assert forall|i: int, j: int|
                0 <= i <= j < t2.len() && #[trigger] newline_free(t2, i, j) implies j - i
                < MAX_LINE by {}
            assert(newlines_to_spaces(t2) =~= tok);
        } else if c + 1 + tok.len() <= MAX_LINE {
            assert(e =~= seq![' '] + tok);
            assert forall|i: int, j: int|
                0 <= i <= j < t2.len() && #[trigger] newline_free(t2, i, j) implies j - i
                < MAX_LINE by {
                if j < tl {
                    assert forall|k: int| i <= k <= j implies t[k] != '\n' by {
                        assert(t2[k] == t[k]);
                    }
                    assert(newline_free(t, i, j));
                } else if i < tl - c {
                    assert(t2[tl - c - 1] == '\n');
                }
            }
            assert forall|i: int| 0 < i < t2.len() && #[trigger] t2[i] == '\n' implies t2[i - 1]
                != ' ' by {
                if i >= tl {
                    assert(i > tl);
                    assert(t2[i] == tok[i - tl - 1]);
                } else {
                    assert(t[i] == '\n');
                }
            }
            assert(newlines_to_spaces(t2) =~= newlines_to_spaces(t) + seq![' '] + tok);
        } else {
            assert(e =~= seq!['\n'] + tok);
            assert forall|i: int, j: int|
                0 <= i <= j < t2.len() && #[trigger] newline_free(t2, i, j) implies j - i
                < MAX_LINE by {
                if j < tl {
                    assert forall|k: int| i <= k <= j implies t[k] != '\n' by {
                        assert(t2[k] == t[k]);
                    }
                    assert(newline_free(t, i, j));
                } else if i <= tl {
                    assert(t2[tl] == '\n');
                }
            }
            assert forall|i: int| 0 < i < t2.len() && #[trigger] t2[i] == '\n' implies t2[i - 1]
                != ' ' by {
                if i > tl {
                    assert(t2[i] == tok[i - tl - 1]);
                } else if i == tl {
                    assert(t2[i - 1] == t.last());
                } else {
                    assert(t[i] == '\n');
                }
            }
            assert(newlines_to_spaces(t2) =~= newlines_to_spaces(t) + seq![' '] + tok);
        }
        assert(t2.last() == tok.last());
    }
}

/// Wrapping a row of tokens: no line exceeds `MAX_LINE`, no line ends with
/// a space, the row ends with a newline, and reading the lines one after
/// another (newlines taken as spaces) gives back the tokens in order,
/// separated by single spaces.
pub proof fn law_wrapped_row(ts: Seq<Seq<char>>)
    requires
        forall|k: int| 0 <= k < ts.len() ==> is_token(#[trigger] ts[k]),
    ensures
        lines_fit(wrap_row(ts)),
        no_space_before_newline(wrap_row(ts)),
        wrap_row(ts).last() == '\n',
        newlines_to_spaces(wrap_row(ts).drop_last()) == join_tokens(ts, ts.len()),
{
    lemma_wrap_text(ts, ts.len());
    let t = wrap_text(ts, ts.len());
    let r = wrap_row(ts);
    assert(r.drop_last() =~= t);
    assert forall|i: int, j: int|
        0 <= i <= j < r.len() && #[trigger] newline_free(r, i, j) implies j - i < MAX_LINE by {
        if j >= t.len() {
            assert(r[j] == '\n');
        }
        assert forall|k: int| i <= k <= j implies t[k] != '\n' by {
            assert(r[k] == t[k]);
        }
        assert(newline_free(t, i, j));
    }
    assert forall|i: int| 0 < i < r.len() && #[trigger] r[i] == '\n' implies r[i - 1] != ' ' by {
        if i < t.len() {
            assert(t[i] == '\n');
        } else {
            assert(t.len() > 0);
            assert(r[i - 1] == t.last());
        }
    }
}

/// A `width × height` grid of colors, row-major, origin at the top left.
pub struct Canvas {
    pub width: usize,
    pub height: usize,
    /// Row-major: `(x, y)` is at `y * width + x`. Every operation asks for
    /// `wf`, which holds exactly `width * height` pixels; the constructor
    /// establishes it and `write_pixel` keeps it.
    pub pixels: Vec<Color>,
}

impl View for Canvas {
    type V = Seq<Color>;

    /// The pixels, row-major: `(x, y)` is at `y * width + x`.
    open spec fn view(&self) -> Seq<Color> {
        self.pixels@
    }
}

impl Canvas {
    /// The width, in pixels.
    pub open spec fn spec_width(&self) -> nat {
        self.width as nat
    }

    /// The height, in pixels.
    pub open spec fn spec_height(&self) -> nat {
        self.height as nat
    }

    /// Exactly `width × height` pixels, each a canonical color.
    pub open spec fn wf(&self) -> bool {
        &&& self@.len() == self.width * self.height
        &&& self.width * self.height <= usize::MAX
        &&& forall|i: int| 0 <= i < self@.len() ==> (#[trigger] self@[i]).wf()
    }

    /// The color at `(x, y)`.
    pub open spec fn spec_pixel(&self, x: int, y: int) -> Color {
        self@[y * self.width + x]
    }

    /// The pixels of row `y`, left to right.
    pub open spec fn spec_row(&self, y: int) -> Seq<Color> {
        self@.subrange(y * self.width, (y + 1) * self.width)
    }

    /// The full PPM text of this canvas.
    pub open spec fn spec_ppm(&self) -> Seq<char> {
        ppm_header(self.width as nat, self.height as nat) + ppm_rows(
            self@,
            self.width as nat,
            self.height as nat,
        )
    }
}


proof fn lemma_index_in_grid(x: int, y: int, w: int, h: int)
    requires
        0 <= x < w,
        0 <= y < h,
    ensures
        0 <= y * w + x < w * h,
{
    assert(y * w + x < w * h) by (nonlinear_arith)
        requires
            0 <= x < w,
            0 <= y < h,
    ;
    assert(0 <= y * w) by (nonlinear_arith)
        requires
            0 <= y,
            0 <= w,
    ;
}

impl Canvas {
    /// A `width × height` canvas, every pixel black. Zero dimensions give an
    /// empty canvas.
    pub fn new(width: usize, height: usize) -> (r: Canvas)
        requires
            width * height <= usize::MAX,
        ensures
            r.wf(),
            r.spec_width() == width,
            r.spec_height() == height,
            forall|x: int, y: int|
                0 <= x < width && 0 <= y < height ==> #[trigger] r.spec_pixel(x, y) == Color::black_spec(),
    {
        let n = width * height;
        let mut pixels: Vec<Color> = Vec::new();
        let mut i: usize = 0;
        while i < n
            invariant
                i <= n,
                pixels@.len() == i,
                forall|j: int| 0 <= j < i ==> #[trigger] pixels@[j] == Color::black_spec(),
            decreases n - i,
        {
            pixels.push(Color::black());
            i = i + 1;
        }
        let r = Canvas { width, height, pixels };
        assert forall|x: int, y: int|
            0 <= x < width && 0 <= y < height implies #[trigger] r.spec_pixel(x, y)
                == Color::black_spec() by {
            lemma_index_in_grid(x, y, width as int, height as int);
        }
        r
    }

    /// Replaces the pixel at `(x, y)`; every other pixel is unchanged.
    pub fn write_pixel(&mut self, x: usize, y: usize, color: Color)
        requires
            old(self).wf(),
            x < old(self).spec_width(),
            y < old(self).spec_height(),
            color.wf(),
        ensures
            final(self).wf(),
            final(self).spec_width() == old(self).spec_width(),
            final(self).spec_height() == old(self).spec_height(),
            final(self).spec_pixel(x as int, y as int) == color,
            forall|i: int, j: int|
                0 <= i < old(self).spec_width() && 0 <= j < old(self).spec_height() && (i != x || j != y)
                    ==> #[trigger] final(self).spec_pixel(i, j) == old(self).spec_pixel(i, j),
    {
        proof {
            lemma_index_in_grid(x as int, y as int, self.width as int, self.height as int);
        }
        let ghost before = self.pixels@;
        let k = y * self.width + x;
        self.pixels.set(k, color);
        assert forall|i: int, j: int|
            0 <= i < self.width && 0 <= j < self.height && (i != x || j != y) implies #[trigger] self.spec_pixel(i, j)
                == before[j * self.width + i] by {
            lemma_index_in_grid(i, j, self.width as int, self.height as int);
            lemma_distinct_cells(i, j, x as int, y as int, self.width as int);
        }
    }

    /// The color at `(x, y)`.
    pub fn pixel_at(&self, x: usize, y: usize) -> (r: &Color)
        requires
            self.wf(),
            x < self.spec_width(),
            y < self.spec_height(),
        ensures
            *r == self.spec_pixel(x as int, y as int),
            r.wf(),
    {
        proof {
            lemma_index_in_grid(x as int, y as int, self.width as int, self.height as int);
        }
        &self.pixels[y * self.width + x]
    }
}

/// Appends the decimal text of `n`.
fn push_usize_text(out: &mut Vec<char>, n: usize)
    ensures
        final(out)@ == old(out)@ + int_text(n as nat),
    decreases n,
{
    if n >= 10 {
        push_usize_text(out, n / 10);
    }
    out.push(digit((n % 10) as u8));
    assert(out@ =~= old(out)@ + int_text(n as nat));
}

/// The length of the decimal text of `n`.
fn text_len(n: u8) -> (r: usize)
    ensures
        r == int_text(n as nat).len(),
        1 <= r <= 3,
{
    proof {
        reveal_with_fuel(int_text, 3);
    }
    if n >= 100 {
        3
    } else if n >= 10 {
        2
    } else {
        1
    }
}

/// Appends one channel value to a row, wrapping the line where the value
/// would not fit in `MAX_LINE` columns.
fn push_token(out: &mut Vec<char>, col: &mut usize, n: u8)
    requires
        *old(col) <= MAX_LINE,
    ensures
        final(out)@ == old(out)@ + wrap_emit(*old(col) as nat, int_text(n as nat)),
        *final(col) == wrap_next_col(*old(col) as nat, int_text(n as nat)),
        1 <= *final(col) <= MAX_LINE,
{
    let len = text_len(n);
    if *col == 0 {
        *col = len;
    } else if *col + 1 + len <= MAX_LINE {
        out.push(' ');
        *col = *col + 1 + len;
    } else {
        out.push('\n');
        *col = len;
    }
    push_int_text(out, n);
    assert(out@ =~= old(out)@ + wrap_emit(*old(col) as nat, int_text(n as nat)));
}

/// Appends the three channel values of one pixel, tokens `k..k + 3` of a
/// row.
fn push_pixel(
    out: &mut Vec<char>,
    col: &mut usize,
    c: Color,
    ts: Ghost<Seq<Seq<char>>>,
    k: Ghost<nat>,
    start: Ghost<Seq<char>>,
)
    requires
        c.wf(),
        k@ + 3 <= ts@.len(),
        ts@[k@ as int] == int_text(quantize(c.red.val()) as nat),
        ts@[k@ + 1int] == int_text(quantize(c.green.val()) as nat),
        ts@[k@ + 2int] == int_text(quantize(c.blue.val()) as nat),
        *old(col) <= MAX_LINE,
        *old(col) == wrap_col(ts@, k@),
        old(out)@ == start@ + wrap_text(ts@, k@),
    ensures
        *final(col) <= MAX_LINE,
        *final(col) == wrap_col(ts@, k@ + 3),
        final(out)@ == start@ + wrap_text(ts@, k@ + 3),
{
    let ghost ts = ts@;
    let ghost k = k@;
    let ghost start = start@;
    push_token(out, col, decimal_to_8bit(c.red));
    assert(*col == wrap_col(ts, k + 1));
    assert(out@ =~= start + wrap_text(ts, k + 1));
    push_token(out, col, decimal_to_8bit(c.green));
    assert(*col == wrap_col(ts, k + 2));
    assert(out@ =~= start + wrap_text(ts, k + 2));
    push_token(out, col, decimal_to_8bit(c.blue));
    assert(*col == wrap_col(ts, k + 3));
    assert(out@ =~= start + wrap_text(ts, k + 3));
}

impl Canvas {
    /// The plain-text PPM encoding: the header (magic number, `width height`,
    /// `255`), then one block per row, top to bottom, of the quantized
    /// channel values, separated by single spaces and wrapped so that no line
    /// exceeds `MAX_LINE` characters; every row ends with a newline.
    #[verifier::rlimit(50)]
    pub fn to_ppm(&self) -> (r: String)
        requires
            self.wf(),
        ensures
            r@ == self.spec_ppm(),
    {
        let mut out: Vec<char> = Vec::new();
        out.push('P');
        out.push('3');
        out.push('\n');
        push_usize_text(&mut out, self.width);
        out.push(' ');
        push_usize_text(&mut out, self.height);
        out.push('\n');
        out.push('2');
        out.push('5');
        out.push('5');
        out.push('\n');
        let ghost header = out@;
        assert(header =~= ppm_header(self.width as nat, self.height as nat));
        let w = self.width;
        let h = self.height;
        let mut y: usize = 0;
        while y < h
            invariant
                self.wf(),
                w == self.width,
                h == self.height,
                y <= h,
                out@ == header + ppm_rows(self@, w as nat, y as nat),
            decreases h - y,
        {
            proof {
                lemma_row_bounds(y as int, w as int, h as int);
            }
            let ghost row = self@.subrange(y * w, (y + 1) * w);
            let ghost ts = row_tokens(row);
            assert(row.len() == w);
            assert(ts.len() == 3 * w);
            let ghost start = out@;
            let mut col: usize = 0;
            let mut x: usize = 0;
            while x < w
                invariant
                    self.wf(),
                    w == self.width,
                    h == self.height,
                    y < h,
                    x <= w,
                    row == self@.subrange(y * w, (y + 1) * w),
                    ts == row_tokens(row),
                    col <= MAX_LINE,
                    col == wrap_col(ts, 3 * x as nat),
                    out@ == start + wrap_text(ts, 3 * x as nat),
                decreases w - x,
            {
                proof {
                    lemma_index_in_grid(x as int, y as int, w as int, h as int);
                    lemma_row_bounds(y as int, w as int, h as int);
                }
                let c = self.pixels[y * w + x];
                assert(row[x as int] == c);
                assert(ts[3 * x as int] == int_text(quantize(c.red.val()) as nat));
                assert(ts[3 * x + 1] == int_text(quantize(c.green.val()) as nat));
                assert(ts[3 * x + 2] == int_text(quantize(c.blue.val()) as nat));
                let ghost k = (3 * x) as nat;
                push_pixel(&mut out, &mut col, c, Ghost(ts), Ghost(k), Ghost(start));
                assert(3 * (x + 1) == k + 3);
                x = x + 1;
            }
            out.push('\n');
            proof {
                assert(ts.len() == 3 * w);
                assert(out@ =~= header + ppm_rows(self@, w as nat, (y + 1) as nat));
            }
            y = y + 1;
        }
        string_from_chars(&out)
    }
}

/// A quantized channel lies in `[0, 255]`.
proof fn lemma_quantize_range(v: int)
    ensures
        0 <= quantize(v) <= 255,
{
    lemma_unit_positive();
    let u = unit();
    if 0 < v < u {
        assert(0 <= (510 * v + u) / (2 * u) <= 255) by (nonlinear_arith)
            requires
                0 < v < u,
        ;
    }
}

/// Every row of the encoding is wrapped as the wrapping law states: each
/// row holds three values per pixel, no line exceeds `MAX_LINE`, no line
/// ends with a space, the row ends with a newline, and its lines read one
/// after another give the row's values in order.
pub proof fn law_ppm_rows_wrapped(c: &Canvas, y: int)
    requires
        c.wf(),
        0 <= y < c.spec_height(),
    ensures
        row_tokens(c.spec_row(y)).len() == 3 * c.spec_width(),
        lines_fit(wrap_row(row_tokens(c.spec_row(y)))),
        no_space_before_newline(wrap_row(row_tokens(c.spec_row(y)))),
        wrap_row(row_tokens(c.spec_row(y))).last() == '\n',
        newlines_to_spaces(wrap_row(row_tokens(c.spec_row(y))).drop_last()) == join_tokens(
            row_tokens(c.spec_row(y)),
            3 * c.spec_width(),
        ),
{
    lemma_row_bounds(y, c.width as int, c.height as int);
    let row = c.spec_row(y);
    let ts = row_tokens(row);
    assert(row.len() == c.width);
    assert forall|k: int| 0 <= k < ts.len() implies is_token(#[trigger] ts[k]) by {
        let p = row[k / 3];
        let d = if k % 3 == 0 {
            p.red
        } else if k % 3 == 1 {
            p.green
        } else {
            p.blue
        };
        lemma_quantize_range(d.val());
        lemma_int_text(quantize(d.val()) as nat);
    }
    law_wrapped_row(ts);
}

/// Joining two texts after a newline keeps lines short and free of trailing
/// spaces.
proof fn lemma_lines_concat(a: Seq<char>, b: Seq<char>)
    requires
        lines_fit(a),
        lines_fit(b),
        no_space_before_newline(a),
        no_space_before_newline(b),
        a.len() == 0 || a.last() == '\n',
    ensures
        lines_fit(a + b),
        no_space_before_newline(a + b),
{
    let t = a + b;
    let n = a.len() as int;
    assert forall|i: int, j: int|
        0 <= i <= j < t.len() && #[trigger] newline_free(t, i, j) implies j - i < MAX_LINE by {
        if j < n {
            assert forall|k: int| i <= k <= j implies a[k] != '\n' by {
                assert(t[k] == a[k]);
            }
            assert(newline_free(a, i, j));
        } else if i >= n {
            assert forall|k: int| i - n <= k <= j - n implies b[k] != '\n' by {
                assert(t[k + n] == b[k]);
            }
            assert(newline_free(b, i - n, j - n));
        } else {
            assert(t[n - 1] == '\n');
        }
    }
    assert forall|i: int| 0 < i < t.len() && #[trigger] t[i] == '\n' implies t[i - 1] != ' ' by {
        if i < n {
            assert(a[i] == '\n');
        } else if i > n {
            assert(b[i - n] == '\n');
            assert(t[i - 1] == b[i - n - 1]);
        } else {
            assert(t[i - 1] == a.last());
        }
    }
}

/// The body of the encoding, all rows together: no line exceeds
/// `MAX_LINE` and no line ends with a space.
pub proof fn law_ppm_body_wrapped(c: &Canvas)
    requires
        c.wf(),
    ensures
        lines_fit(ppm_rows(c@, c.spec_width(), c.spec_height())),
        no_space_before_newline(ppm_rows(c@, c.spec_width(), c.spec_height())),
{
    lemma_rows_wrapped(c, c.spec_height());
}

proof fn lemma_rows_wrapped(c: &Canvas, n: nat)
    requires
        c.wf(),
        n <= c.spec_height(),
    ensures
        lines_fit(ppm_rows(c@, c.spec_width(), n)),
        no_space_before_newline(ppm_rows(c@, c.spec_width(), n)),
        ppm_rows(c@, c.spec_width(), n).len() == 0 || ppm_rows(c@, c.spec_width(), n).last()
            == '\n',
    decreases n,
{
    if n > 0 {
        let y = (n - 1) as int;
        lemma_rows_wrapped(c, (n - 1) as nat);
        law_ppm_rows_wrapped(c, y);
        let before = ppm_rows(c@, c.spec_width(), (n - 1) as nat);
        let row = wrap_row(row_tokens(c.spec_row(y)));
        assert(c.spec_row(y) == c@.subrange(y * c.spec_width(), (n * c.spec_width()) as int));
        assert(ppm_rows(c@, c.spec_width(), n) == before + row);
        lemma_lines_concat(before, row);
        assert((before + row).last() == row.last());
    } else {
        assert(ppm_rows(c@, c.spec_width(), 0) =~= Seq::<char>::empty());
        assert(lines_fit(Seq::<char>::empty()));
    }
}

/// A text of at most `MAX_LINE` characters has no longer line.
proof fn lemma_short_lines_fit(s: Seq<char>)
    requires
        s.len() <= MAX_LINE,
    ensures
        lines_fit(s),
{
}

/// The header: three lines, each short, none ending with a space.
proof fn lemma_header_wrapped(width: nat, height: nat)
    requires
        width <= usize::MAX,
        height <= usize::MAX,
    ensures
        lines_fit(ppm_header(width, height)),
        no_space_before_newline(ppm_header(width, height)),
        ppm_header(width, height).last() == '\n',
{
    reveal_with_fuel(crate::decimal::pow10, 21);
    assert(crate::decimal::pow10(20) == 100000000000000000000);
    lemma_int_text_digits(width, 20);
    lemma_int_text_digits(height, 20);
    let a = seq!['P', '3', '\n'];
    let wt = int_text(width);
    let ht = int_text(height);
    let b = wt + seq![' '] + ht + seq!['\n'];
    let c = seq!['2', '5', '5', '\n'];
    assert(ppm_header(width, height) =~= a + b + c);
    lemma_short_lines_fit(a);
    lemma_short_lines_fit(b);
    lemma_short_lines_fit(c);
    assert forall|i: int| 0 < i < b.len() && #[trigger] b[i] == '\n' implies b[i - 1] != ' ' by {
        if i < wt.len() {
            assert(b[i] == wt[i]);
        } else if i == wt.len() {
        } else if i < b.len() - 1 {
            assert(b[i] == ht[i - wt.len() - 1]);
        } else {
            assert(b[i - 1] == ht[ht.len() - 1]);
        }
    }
    assert(no_space_before_newline(a));
    assert(no_space_before_newline(c));
    lemma_lines_concat(a, b);
    lemma_lines_concat(a + b, c);
}

/// The whole encoding: it starts with the header (magic number, width and
/// height, `255`), then the rows; no line exceeds `MAX_LINE`, no line ends
/// with a space, and the text ends with a newline.
pub proof fn law_ppm_text(c: &Canvas)
    requires
        c.wf(),
    ensures
        c.spec_ppm().subrange(0, ppm_header(c.spec_width(), c.spec_height()).len() as int)
            == ppm_header(c.spec_width(), c.spec_height()),
        lines_fit(c.spec_ppm()),
        no_space_before_newline(c.spec_ppm()),
        c.spec_ppm().last() == '\n',
{
    let h = ppm_header(c.spec_width(), c.spec_height());
    let body = ppm_rows(c@, c.spec_width(), c.spec_height());
    lemma_header_wrapped(c.spec_width(), c.spec_height());
    lemma_rows_wrapped(c, c.spec_height());
    lemma_lines_concat(h, body);
    assert(c.spec_ppm().subrange(0, h.len() as int) =~= h);
    if body.len() > 0 {
        assert(c.spec_ppm().last() == body.last());
    } else {
        assert(c.spec_ppm() =~= h);
    }
}

/// Encoding is a function of the canvas alone: two canvases with the same
/// dimensions and pixels (or one canvas encoded twice) give the same text.
pub proof fn law_ppm_deterministic(a: &Canvas, b: &Canvas)
    requires
        a.spec_width() == b.spec_width(),
        a.spec_height() == b.spec_height(),
        a@ == b@,
    ensures
        a.spec_ppm() == b.spec_ppm(),
{
}

proof fn lemma_row_bounds(y: int, w: int, h: int)
    requires
        0 <= y < h,
        0 <= w,
    ensures
        (y + 1) * w == y * w + w,
        0 <= y * w,
        y * w + w <= w * h,
{
    assert((y + 1) * w == y * w + w) by (nonlinear_arith);
    assert(0 <= y * w) by (nonlinear_arith)
        requires
            0 <= y,
            0 <= w,
    ;
    assert(y * w + w <= w * h) by (nonlinear_arith)
        requires
            0 <= y < h,
            0 <= w,
    ;
}

proof fn lemma_distinct_cells(i: int, j: int, x: int, y: int, w: int)
    requires
        0 <= i < w,
        0 <= x < w,
        0 <= j,
        0 <= y,
        i != x || j != y,
    ensures
        j * w + i != y * w + x,
{
    if j == y {
    } else if j < y {
        assert(j * w + i < y * w + x) by (nonlinear_arith)
            requires
                j < y,
                0 <= i < w,
                0 <= x,
        ;
    } else {
        assert(j * w + i > y * w + x) by (nonlinear_arith)
            requires
                j > y,
                0 <= x < w,
                0 <= i,
        ;
    }
}

} // verus!
