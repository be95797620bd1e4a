use vstd::prelude::*;

use crate::color::{black, Color, FIXED_ONE};

verus! {

/// Longest line, in characters, of the pixel data of a PPM text.
pub const MAX_LINE_LENGTH: usize = 70;

/// The character of the decimal digit `d`.
pub open spec fn digit_char(d: int) -> char {
    seq!['0', '1', '2', '3', '4', '5', '6', '7', '8', '9'][d]
}

/// The decimal notation of `n`, without leading zeros.
pub open spec fn decimal(n: nat) -> Seq<char>
    decreases n,
{
    if n < 10 {
        seq![digit_char(n as int)]
    } else {
        decimal(n / 10).push(digit_char((n % 10) as int))
    }
}

/// The byte (0 to 255) that encodes channel value `v`: `v` times 255 rounded half up,
/// then clamped to the byte range.
pub open spec fn channel_byte(v: int) -> int {
    if v <= 0 {
        0
    } else {
        let scaled = (510 * v + FIXED_ONE) / (2 * FIXED_ONE);
        if scaled > 255 {
            255
        } else {
            scaled
        }
    }
}

/// The word that stands for channel value `v` in a PPM text.
pub open spec fn channel_word(v: int) -> Seq<char> {
    decimal(channel_byte(v) as nat)
}

/// Lays out one more word after `text`, whose last line holds `n` characters
/// (its trailing space included). A word that would take the line past
/// `MAX_LINE_LENGTH` starts a new line, in place of the trailing space;
/// every word is followed by a space.
pub open spec fn put_word(text: Seq<char>, n: int, w: Seq<char>) -> (Seq<char>, int) {
    if n + w.len() > MAX_LINE_LENGTH {
        (text.drop_last().push('\n') + w.push(' '), w.len() as int + 1)
    } else {
        (text + w.push(' '), n + w.len() + 1)
    }
}

/// Lays out the three channel words of pixel `c`.
pub open spec fn put_pixel(st: (Seq<char>, int), c: Color) -> (Seq<char>, int) {
    let s1 = put_word(st.0, st.1, channel_word(c.r as int));
    let s2 = put_word(s1.0, s1.1, channel_word(c.g as int));
    put_word(s2.0, s2.1, channel_word(c.b as int))
}

/// Lays out the words of the pixels `px`, starting on an empty line.
pub open spec fn put_pixels(px: Seq<Color>) -> (Seq<char>, int)
    decreases px.len(),
{
    if px.len() == 0 {
        (Seq::empty(), 0)
    } else {
        put_pixel(put_pixels(px.drop_last()), px.last())
    }
}

/// The text of one row of pixels: its words laid out, with the last trailing space
/// replaced by a newline.
pub open spec fn row_text(px: Seq<Color>) -> Seq<char> {
    if px.len() == 0 {
        Seq::empty()
    } else {
        put_pixels(px).0.drop_last().push('\n')
    }
}

/// The text of the first `rows` rows of `px`, each row `width` pixels long.
pub open spec fn rows_text(px: Seq<Color>, width: int, rows: nat) -> Seq<char>
    decreases rows,
{
    if rows == 0 {
        Seq::empty()
    } else {
        rows_text(px, width, (rows - 1) as nat) + row_text(
            px.subrange((rows - 1) * width, rows * width),
        )
    }
}

/// The header of a PPM text: the magic number `P3`, the dimensions, and the largest
/// channel value, 255, each on a line of its own.
pub open spec fn ppm_header(width: nat, height: nat) -> Seq<char> {
    seq!['P', '3', '\n'] + decimal(width) + seq![' '] + decimal(height) + seq![
        '\n',
        '2',
        '5',
        '5',
        '\n',
    ]
}

proof fn lemma_decimal_len(n: nat)
    ensures
        n < 10 ==> decimal(n).len() == 1,
        n < 100 ==> decimal(n).len() <= 2,
        n < 1000 ==> decimal(n).len() <= 3,
    decreases n,
{
    if n >= 10 {
        lemma_decimal_len(n / 10);
    }
}

fn digit_exec(d: u32) -> (c: char)
    requires
        d < 10,
    ensures
        c == digit_char(d as int),
{
    match d {
        0 => '0',
        1 => '1',
        2 => '2',
        3 => '3',
        4 => '4',
        5 => '5',
        6 => '6',
        7 => '7',
        8 => '8',
        _ => '9',
    }
}

/// Appends the decimal notation of `n` to `out`.
fn push_decimal(out: &mut Vec<char>, n: u32)
    ensures
        final(out)@ == old(out)@ + decimal(n as nat),
    decreases n,
{
    if n >= 10 {
        push_decimal(out, n / 10);
    }
    out.push(digit_exec(n % 10));
    assert(out@ =~= old(out)@ + decimal(n as nat));
}

/// The length of the line that ends just before position `i` of `s`: the number of
/// characters between the last newline before `i` (or the start) and `i`.
pub open spec fn line_end_length(s: Seq<char>, i: int) -> int
    decreases i,
{
    if i <= 0 {
        0
    } else if s[i - 1] == '\n' {
        0
    } else {
        line_end_length(s, i - 1) + 1
    }
}

/// Whether no line of `s` is longer than `k` characters.
pub open spec fn lines_at_most(s: Seq<char>, k: int) -> bool {
    forall|i: int| 0 <= i <= s.len() ==> #[trigger] line_end_length(s, i) <= k
}

/// Whether `s` holds no newline.
pub open spec fn single_line(s: Seq<char>) -> bool {
    forall|i: int| 0 <= i < s.len() ==> s[i] != '\n'
}

proof fn lemma_line_prefix(a: Seq<char>, b: Seq<char>, i: int)
    requires
        0 <= i <= a.len(),
    ensures
        line_end_length(a + b, i) == line_end_length(a, i),
    decreases i,
{
    if i > 0 {
        assert((a + b)[i - 1] == a[i - 1]);
        lemma_line_prefix(a, b, i - 1);
    }
}

proof fn lemma_line_extends(a: Seq<char>, b: Seq<char>, i: int)
    requires
        0 <= i <= b.len(),
        single_line(b.subrange(0, i)),
    ensures
        line_end_length(a + b, a.len() + i) == line_end_length(a, a.len() as int) + i,
    decreases i,
{
    if i == 0 {
        lemma_line_prefix(a, b, a.len() as int);
    } else {
        assert(b.subrange(0, i)[i - 1] == b[i - 1]);
        assert(b.subrange(0, i - 1) =~= b.subrange(0, i).subrange(0, i - 1));
        assert((a + b)[a.len() + i - 1] == b[i - 1]);
        lemma_line_extends(a, b, i - 1);
    }
}

proof fn lemma_digit_not_newline(d: int)
    requires
        0 <= d < 10,
    ensures
        digit_char(d) != '\n',
{
    let digits = seq!['0', '1', '2', '3', '4', '5', '6', '7', '8', '9'];
    assert(digit_char(d) == digits[d]);
    if d == 0 {
    } else if d == 1 {
    } else if d == 2 {
    } else if d == 3 {
    } else if d == 4 {
    } else if d == 5 {
    } else if d == 6 {
    } else if d == 7 {
    } else if d == 8 {
    } else {
        assert(d == 9);
    }
}

proof fn lemma_decimal_single_line(n: nat)
    ensures
        single_line(decimal(n)),
        decimal(n).len() >= 1,
    decreases n,
{
    if n < 10 {
        lemma_digit_not_newline(n as int);
    } else {
        lemma_decimal_single_line(n / 10);
        lemma_digit_not_newline((n % 10) as int);
    }
}

/// What holds of a row's text and line length while its words are laid out: the last
/// line holds `n` characters (its trailing space included), no more than one over the
/// limit, and every earlier position ends a line within the limit.
spec fn layout_ok(text: Seq<char>, n: int) -> bool {
    &&& line_end_length(text, text.len() as int) == n
    &&& 0 <= n <= MAX_LINE_LENGTH + 1
    &&& forall|i: int| 0 <= i < text.len() ==> #[trigger] line_end_length(text, i) <= MAX_LINE_LENGTH
}

proof fn lemma_put_word_keeps_layout(text: Seq<char>, n: int, w: Seq<char>)
    requires
        layout_ok(text, n),
        single_line(w),
        1 <= w.len() <= MAX_LINE_LENGTH,
    ensures
        layout_ok(put_word(text, n, w).0, put_word(text, n, w).1),
        put_word(text, n, w).1 >= 1,
{
    let ws = w.push(' ');
    assert(single_line(ws)) by {
        assert forall|i: int| 0 <= i < ws.len() implies ws[i] != '\n' by {
            if i < w.len() {
                assert(ws[i] == w[i]);
            }
        }
    }
    if n + w.len() > MAX_LINE_LENGTH {
        let base = text.drop_last().push('\n');
        assert(text.len() >= 1);
        assert forall|i: int| 0 <= i <= base.len() implies #[trigger] line_end_length(base, i)
            <= MAX_LINE_LENGTH by {
            if i < base.len() {
                assert(base =~= text.drop_last() + seq!['\n']);
                lemma_line_prefix(text.drop_last(), seq!['\n'], i);
                assert(text =~= text.drop_last() + seq![text.last()]);
                lemma_line_prefix(text.drop_last(), seq![text.last()], i);
                assert(line_end_length(text, i) <= MAX_LINE_LENGTH);
            } else {
                assert(base[i - 1] == '\n');
            }
        }
        let out = base + ws;
        assert forall|i: int| 0 <= i <= out.len() implies #[trigger] line_end_length(out, i)
            <= MAX_LINE_LENGTH + 1 && (i < out.len() ==> line_end_length(out, i) <= MAX_LINE_LENGTH) by {
            if i <= base.len() {
                lemma_line_prefix(base, ws, i);
            } else {
                let k = i - base.len();
                assert(ws.subrange(0, k) =~= ws.subrange(0, k));
                lemma_line_extends(base, ws, k);
                assert(base[base.len() - 1] == '\n');
                assert(line_end_length(base, base.len() as int) == 0);
            }
        }
        lemma_line_extends(base, ws, ws.len() as int);
        assert(ws.subrange(0, ws.len() as int) =~= ws);
    } else {
        let out = text + ws;
        assert forall|i: int| 0 <= i <= out.len() implies #[trigger] line_end_length(out, i)
            <= MAX_LINE_LENGTH + 1 && (i < out.len() ==> line_end_length(out, i) <= MAX_LINE_LENGTH) by {
            if i < text.len() {
                lemma_line_prefix(text, ws, i);
            } else {
                let k = i - text.len();
                lemma_line_extends(text, ws, k);
            }
        }
        lemma_line_extends(text, ws, ws.len() as int);
        assert(ws.subrange(0, ws.len() as int) =~= ws);
    }
}

proof fn lemma_line_after_newline(a: Seq<char>, b: Seq<char>, i: int)
    requires
        a.len() == 0 || a.last() == '\n',
        0 <= i <= b.len(),
    ensures
        line_end_length(a + b, a.len() + i) == line_end_length(b, i),
    decreases i,
{
    if i > 0 {
        assert((a + b)[a.len() + i - 1] == b[i - 1]);
        lemma_line_after_newline(a, b, i - 1);
    } else if a.len() > 0 {
        assert((a + b)[a.len() - 1] == a.last());
    }
}

proof fn lemma_channel_word(v: int)
    ensures
        single_line(channel_word(v)),
        1 <= channel_word(v).len() <= 3,
{
    lemma_decimal_single_line(channel_byte(v) as nat);
    lemma_decimal_len(channel_byte(v) as nat);
}

proof fn lemma_put_pixels_layout(px: Seq<Color>)
    ensures
        layout_ok(put_pixels(px).0, put_pixels(px).1),
        px.len() > 0 ==> put_pixels(px).1 >= 1,
    decreases px.len(),
{
    if px.len() > 0 {
        lemma_put_pixels_layout(px.drop_last());
        let c = px.last();
        let st = put_pixels(px.drop_last());
        lemma_channel_word(c.r as int);
        lemma_channel_word(c.g as int);
        lemma_channel_word(c.b as int);
        lemma_put_word_keeps_layout(st.0, st.1, channel_word(c.r as int));
        let s1 = put_word(st.0, st.1, channel_word(c.r as int));
        lemma_put_word_keeps_layout(s1.0, s1.1, channel_word(c.g as int));
        let s2 = put_word(s1.0, s1.1, channel_word(c.g as int));
        lemma_put_word_keeps_layout(s2.0, s2.1, channel_word(c.b as int));
    } else {
        assert(line_end_length(Seq::<char>::empty(), 0) == 0);
    }
}

proof fn lemma_row_text_lines(px: Seq<Color>)
    ensures
        lines_at_most(row_text(px), MAX_LINE_LENGTH as int),
        row_text(px).len() == 0 || row_text(px).last() == '\n',
{
    if px.len() > 0 {
        lemma_put_pixels_layout(px);
        let text = put_pixels(px).0;
        let row = row_text(px);
        assert(text.len() >= 1);
        assert(row =~= text.drop_last() + seq!['\n']);
        assert(text =~= text.drop_last() + seq![text.last()]);
        assert forall|i: int| 0 <= i <= row.len() implies #[trigger] line_end_length(row, i)
            <= MAX_LINE_LENGTH by {
            if i < row.len() {
                lemma_line_prefix(text.drop_last(), seq!['\n'], i);
                lemma_line_prefix(text.drop_last(), seq![text.last()], i);
            } else {
                assert(row[i - 1] == '\n');
            }
        }
    } else {
        assert(line_end_length(row_text(px), 0) == 0);
    }
}

proof fn lemma_rows_text_lines(px: Seq<Color>, width: int, rows: nat)
    ensures
        lines_at_most(rows_text(px, width, rows), MAX_LINE_LENGTH as int),
        rows_text(px, width, rows).len() == 0 || rows_text(px, width, rows).last() == '\n',
    decreases rows,
{
    if rows == 0 {
        assert(line_end_length(rows_text(px, width, rows), 0) == 0);
    } else {
        let before = rows_text(px, width, (rows - 1) as nat);
        let row = row_text(px.subrange((rows - 1) * width, rows * width));
        lemma_rows_text_lines(px, width, (rows - 1) as nat);
        lemma_row_text_lines(px.subrange((rows - 1) * width, rows * width));
        let all = before + row;
        assert forall|i: int| 0 <= i <= all.len() implies #[trigger] line_end_length(all, i)
            <= MAX_LINE_LENGTH by {
            if i <= before.len() {
                lemma_line_prefix(before, row, i);
            } else {
                lemma_line_after_newline(before, row, i - before.len());
            }
        }
        if row.len() > 0 {
            assert(all.last() == row.last());
        } else {
            assert(all =~= before);
        }
    }
}

/// No line of the pixel data of a canvas's PPM text is longer than `MAX_LINE_LENGTH`
/// characters, and the pixel data ends with a newline unless it is empty.
pub proof fn lemma_ppm_lines_within_limit(c: Canvas)
    ensures
        lines_at_most(
            rows_text(c@, c.width as int, c.height as nat),
            MAX_LINE_LENGTH as int,
        ),
        rows_text(c@, c.width as int, c.height as nat).len() == 0 || rows_text(
            c@,
            c.width as int,
            c.height as nat,
        ).last() == '\n',
{
    lemma_rows_text_lines(c@, c.width as int, c.height as nat);
}

/// A grid of pixels addressed by coordinates centered on the grid: `x` runs from
/// `-(width / 2)` to the right, `y` from `-(height / 2)` upwards. Pixels are stored
/// row by row, the top row first.
pub struct Canvas {
    pub width: i32,
    pub height: i32,
    pub pixels: Vec<Color>,
}

impl View for Canvas {
    type V = Seq<Color>;

    open spec fn view(&self) -> Seq<Color> {
        self.pixels@
    }
}

/// Whether `(x, y)` addresses a pixel of a `width` by `height` grid.
pub open spec fn in_bounds(width: int, height: int, x: int, y: int) -> bool {
    &&& -(width / 2) <= x < width - width / 2
    &&& -(height / 2) <= y < height - height / 2
}

/// Where the pixel at `(x, y)` of a `width` by `height` grid is stored.
pub open spec fn pixel_index(width: int, height: int, x: int, y: int) -> int {
    (height - height / 2 - 1 - y) * width + (x + width / 2)
}

proof fn lemma_index_in_range(width: int, height: int, x: int, y: int)
    requires
        width >= 0,
        height >= 0,
        in_bounds(width, height, x, y),
    ensures
        0 <= pixel_index(width, height, x, y) < width * height,
{
    let row = height - height / 2 - 1 - y;
    let col = x + width / 2;
    assert(0 <= row < height);
    assert(0 <= col < width);
    assert(0 <= row * width + col < width * height) by (nonlinear_arith)
        requires
            0 <= row < height,
            0 <= col < width,
    ;
}

impl Canvas {
    /// Whether the pixels fill the grid exactly.
    pub open spec fn wf(&self) -> bool {
        &&& self.width >= 0
        &&& self.height >= 0
        &&& self@.len() == self.width * self.height
    }

    /// Whether `(x, y)` addresses a pixel of this canvas.
    pub open spec fn has_pixel(&self, x: int, y: int) -> bool {
        in_bounds(self.width as int, self.height as int, x, y)
    }

    /// The color at `(x, y)`.
    pub open spec fn color_at(&self, x: int, y: int) -> Color {
        self@[pixel_index(self.width as int, self.height as int, x, y)]
    }

    /// The text of this canvas in the plain PPM format.
    pub open spec fn ppm(&self) -> Seq<char> {
        ppm_header(self.width as nat, self.height as nat) + rows_text(
            self@,
            self.width as int,
            self.height as nat,
        )
    }

    /// A `width` by `height` canvas of black pixels.
    pub fn new(width: i32, height: i32) -> (c: Canvas)
        requires
            width >= 0,
            height >= 0,
            width * height <= usize::MAX,
        ensures
            c.wf(),
            c.width == width,
            c.height == height,
            forall|i: int| 0 <= i < c@.len() ==> c@[i] == (Color { r: 0, g: 0, b: 0 }),
            forall|x: int, y: int| c.has_pixel(x, y) ==> c.color_at(x, y) == (Color { r: 0, g: 0, b: 0 }),
    {
        Canvas::new_with_fill(width, height, &black())
    }

    /// A `width` by `height` canvas with every pixel set to `color`.
    pub fn new_with_fill(width: i32, height: i32, color: &Color) -> (c: Canvas)
        requires
            width >= 0,
            height >= 0,
            width * height <= usize::MAX,
        ensures
            c.wf(),
            c.width == width,
            c.height == height,
            forall|i: int| 0 <= i < c@.len() ==> c@[i] == *color,
            forall|x: int, y: int| c.has_pixel(x, y) ==> c.color_at(x, y) == *color,
    {
        let n = (width as usize) * (height as usize);
        let mut pixels: Vec<Color> = Vec::new();
        let mut i: usize = 0;
        while i < n
            invariant
                i <= n,
                pixels@.len() == i,
                forall|k: int| 0 <= k < i ==> pixels@[k] == *color,
            decreases n - i,
        {
            pixels.push(*color);
            i += 1;
        }
        let c = Canvas { width, height, pixels };
        assert forall|x: int, y: int| c.has_pixel(x, y) implies c.color_at(x, y) == *color by {
            lemma_index_in_range(width as int, height as int, x, y);
        }
        c
    }

    /// The color at `(x, y)`.
    pub fn pixel_at(&self, x: i32, y: i32) -> (c: &Color)
        requires
            self.wf(),
            self.has_pixel(x as int, y as int),
        ensures
            *c == self.color_at(x as int, y as int),
    {
        proof {
            lemma_index_in_range(self.width as int, self.height as int, x as int, y as int);
        }
        let i = self.index_of(x, y);
        &self.pixels[i]
    }

    /// Sets the pixel at `(x, y)` to `color`; leaves the canvas unchanged where `(x, y)`
    /// lies outside it.
    pub fn write_pixel(&mut self, x: i32, y: i32, color: Color)
        requires
            old(self).wf(),
        ensures
            final(self).wf(),
            final(self).width == old(self).width,
            final(self).height == old(self).height,
            old(self).has_pixel(x as int, y as int) ==> final(self)@ == old(self)@.update(
                pixel_index(old(self).width as int, old(self).height as int, x as int, y as int),
                color,
            ),
            !old(self).has_pixel(x as int, y as int) ==> final(self)@ == old(self)@,
    {
        let w = self.width as i64;
        let h = self.height as i64;
        let xx = x as i64;
        let yy = y as i64;
        if -(w / 2) <= xx && xx < w - w / 2 && -(h / 2) <= yy && yy < h - h / 2 {
            proof {
                lemma_index_in_range(self.width as int, self.height as int, x as int, y as int);
            }
            let i = self.index_of(x, y);
            self.pixels.set(i, color);
        }
    }

    /// Sets the pixel in column `px` and row `py` of the grid, counted from the top left
    /// corner, to `color`; leaves the canvas unchanged where there is no such pixel.
    pub fn write_grid_pixel(&mut self, px: usize, py: usize, color: Color)
        requires
            old(self).wf(),
        ensures
            final(self).wf(),
            final(self).width == old(self).width,
            final(self).height == old(self).height,
            px < old(self).width && py < old(self).height ==> final(self)@ == old(self)@.update(
                py * old(self).width + px,
                color,
            ),
            !(px < old(self).width && py < old(self).height) ==> final(self)@ == old(self)@,
    {
        let width = self.width as usize;
        let height = self.height as usize;
        if px < width && py < height {
            let len = self.pixels.len();
            assert(py * width + px < len) by (nonlinear_arith)
                requires
                    px < width,
                    py < height,
                    len == width * height,
            ;
            self.pixels.set(py * width + px, color);
        }
    }

    /// Where the pixel at `(x, y)` is stored.
    fn index_of(&self, x: i32, y: i32) -> (idx: usize)
        requires
            self.wf(),
            self.has_pixel(x as int, y as int),
        ensures
            idx == pixel_index(self.width as int, self.height as int, x as int, y as int),
            idx < self@.len(),
    {
        let width = self.width;
        let height = self.height;
        proof {
            lemma_index_in_range(width as int, height as int, x as int, y as int);
        }
        let len = self.pixels.len();
        assert(len == width * height);
        let row = (height - height / 2 - 1 - y) as usize;
        let col = (x + width / 2) as usize;
        assert(row * width + col < width * height) by (nonlinear_arith)
            requires
                0 <= row < height,
                0 <= col < width,
        ;
        row * (width as usize) + col
    }

    /// The text of this canvas in the plain PPM format: a header with the dimensions,
    /// then one block of lines per row of pixels, top row first.
    pub fn to_ppm(&self) -> (ppm: String)
        requires
            self.wf(),
        ensures
            ppm@ == self.ppm(),
    {
        let mut out: Vec<char> = Vec::new();
        out.push('P');
        out.push('3');
        out.push('\n');
        push_decimal(&mut out, self.width as u32);
        out.push(' ');
        push_decimal(&mut out, self.height as u32);
        out.push('\n');
        out.push('2');
        out.push('5');
        out.push('5');
        out.push('\n');
        assert(out@ =~= ppm_header(self.width as nat, self.height as nat));
        let height = self.height as usize;
        let mut row: usize = 0;
        while row < height
            invariant
                self.wf(),
                height == self.height,
                row <= height,
                out@ == ppm_header(self.width as nat, self.height as nat) + rows_text(
                    self@,
                    self.width as int,
                    row as nat,
                ),
            decreases height - row,
        {
            let mut line = self.row_chars(row);
            out.append(&mut line);
            row += 1;
            assert(out@ =~= ppm_header(self.width as nat, self.height as nat) + rows_text(
                self@,
                self.width as int,
                row as nat,
            ));
        }
        chars_to_string(&out)
    }

    /// The text of row `row`.
    fn row_chars(&self, row: usize) -> (line: Vec<char>)
        requires
            self.wf(),
            row < self.height,
        ensures
            line@ == row_text(
                self@.subrange(row * self.width, (row + 1) * self.width),
            ),
    {
        let width = self.width as usize;
        let len = self.pixels.len();
        assert(row * width + width <= len && (row + 1) * width == row * width + width)
            by (nonlinear_arith)
            requires
                row < self.height,
                0 <= width,
                len == width * self.height,
        ;
        let start = row * width;
        let mut line: Vec<char> = Vec::new();
        let mut n: usize = 0;
        let mut k: usize = 0;
        assert(self@.subrange(start as int, start as int) =~= Seq::<Color>::empty());
        while k < width
            invariant
                self.wf(),
                width == self.width,
                len == self@.len(),
                start + width <= len,
                k <= width,
                (line@, n as int) == put_pixels(self@.subrange(start as int, start + k)),
                n <= line@.len(),
                n <= MAX_LINE_LENGTH + 1,
                k > 0 ==> n > 0,
            decreases width - k,
        {
            let c = self.pixels[start + k];
            let word = channel_word_of(c.r);
            Canvas::add_color_maybe_newline(&word, &mut line, &mut n);
            let word = channel_word_of(c.g);
            Canvas::add_color_maybe_newline(&word, &mut line, &mut n);
            let word = channel_word_of(c.b);
            Canvas::add_color_maybe_newline(&word, &mut line, &mut n);
            assert(self@.subrange(start as int, start + k + 1).drop_last() =~= self@.subrange(
                start as int,
                start + k,
            ));
            k += 1;
        }
        if width > 0 {
            line.pop();
            line.push('\n');
        }
        line
    }

    /// Adds word `color_str` to the text `pixels`, whose last line holds
    /// `n_chars_on_line` characters.
    fn add_color_maybe_newline(
        color_str: &Vec<char>,
        pixels: &mut Vec<char>,
        n_chars_on_line: &mut usize,
    )
        requires
            color_str@.len() <= MAX_LINE_LENGTH,
            *old(n_chars_on_line) <= old(pixels)@.len(),
            *old(n_chars_on_line) <= MAX_LINE_LENGTH + 1,
        ensures
            (final(pixels)@, *final(n_chars_on_line) as int) == put_word(
                old(pixels)@,
                *old(n_chars_on_line) as int,
                color_str@,
            ),
            0 < *final(n_chars_on_line) <= final(pixels)@.len(),
            *final(n_chars_on_line) <= MAX_LINE_LENGTH + 1,
    {
        if color_str.len() + *n_chars_on_line > MAX_LINE_LENGTH {
            pixels.pop();
            pixels.push('\n');
            *n_chars_on_line = 0;
        }
        let ghost before = pixels@;
        let mut i: usize = 0;
        while i < color_str.len()
            invariant
                0 <= i <= color_str@.len(),
                pixels@ == before + color_str@.subrange(0, i as int),
            decreases color_str@.len() - i,
        {
            pixels.push(color_str[i]);
            i += 1;
            assert(pixels@ =~= before + color_str@.subrange(0, i as int));
        }
        pixels.push(' ');
        *n_chars_on_line += color_str.len() + 1;
        assert(color_str@.subrange(0, color_str@.len() as int) =~= color_str@);
        assert(pixels@ =~= before + color_str@.push(' '));
    }
}

/// The word of channel value `v`: its byte in decimal.
fn channel_word_of(v: i64) -> (w: Vec<char>)
    ensures
        w@ == channel_word(v as int),
        w@.len() <= 3,
{
    let byte: u32 = if v <= 0 {
        0
    } else {
        let scaled = (510 * (v as i128) + FIXED_ONE as i128) / (2 * FIXED_ONE as i128);
        if scaled > 255 {
            255
        } else {
            scaled as u32
        }
    };
    let mut w: Vec<char> = Vec::new();
    push_decimal(&mut w, byte);
    proof {
        lemma_decimal_len(byte as nat);
        assert(w@ =~= decimal(byte as nat));
    }
    w
}

/// Relies on `String`'s `FromIterator<char>`: the string holds the characters in order.
#[verifier::external_body]
fn chars_to_string(chars: &Vec<char>) -> (s: String)
    ensures
        s@ == chars@,
{
    chars.iter().collect()
}

} // verus!
