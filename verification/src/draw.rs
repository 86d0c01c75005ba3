use vstd::prelude::*;

verus! {

/// Foreground colors the simulator draws with.
#[derive(Clone, Copy, Debug, PartialEq, Eq, Structural)]
pub enum Color {
    DarkGrey,
    Blue,
    Red,
}

/// One terminal command of a render pass.
///
/// `Put` moves the cursor to a cell and prints one character there; the
/// color commands change the pen of the following `Put`s.
#[derive(Clone, Copy, Debug, PartialEq, Eq, Structural)]
pub enum DrawOp {
    Put { col: u16, row: u16, ch: char },
    SetForeground(Color),
    ResetColor,
}

pub const TOP_LEFT: char = '┌';

pub const TOP_RIGHT: char = '┐';

pub const BOTTOM_LEFT: char = '└';

pub const BOTTOM_RIGHT: char = '┘';

pub const HORIZONTAL: char = '─';

pub const VERTICAL: char = '│';

/// The character that fills solid bodies.
pub const BLOCK: char = '█';

/// The character that marks an object of at most one unit each way.
pub const SMALL_MARK: char = '■';

/// The character that fills the background of the map.
pub const BACKGROUND: char = ' ';

/// A `Put` at a cell given by integer coordinates.
pub open spec fn put(col: int, row: int, ch: char) -> DrawOp {
    DrawOp::Put { col: col as u16, row: row as u16, ch }
}

/// Whether `op` prints at the cell (`col`, `row`).
pub open spec fn writes_cell(op: DrawOp, col: int, row: int) -> bool {
    match op {
        DrawOp::Put { col: c, row: r, .. } => c == col && r == row,
        _ => false,
    }
}

/// The character that `op` prints, where it prints one.
pub open spec fn op_char(op: DrawOp) -> char {
    match op {
        DrawOp::Put { ch, .. } => ch,
        _ => ' ',
    }
}

/// What a screen on which nothing was drawn shows at (`col`, `row`) after
/// `ops` ran: the character of the last `Put` at that cell, if any.
pub open spec fn glyph_at(ops: Seq<DrawOp>, col: int, row: int) -> Option<char>
    decreases ops.len(),
{
    if ops.len() == 0 {
        None
    } else if writes_cell(ops.last(), col, row) {
        Some(op_char(ops.last()))
    } else {
        glyph_at(ops.drop_last(), col, row)
    }
}

/// Whether every coordinate in the range [`lo`, `hi`) fits a terminal cell.
pub open spec fn cell_range(lo: int, hi: int) -> bool {
    0 <= lo && hi <= u16::MAX + 1
}

/// Later commands draw over earlier ones: after `a` then `b`, a cell shows
/// what `b` left there, and what `a` left there where `b` drew nothing.
pub proof fn lemma_later_wins(a: Seq<DrawOp>, b: Seq<DrawOp>, col: int, row: int)
    ensures
        glyph_at(a + b, col, row) == (match glyph_at(b, col, row) {
            Some(c) => Some(c),
            None => glyph_at(a, col, row),
        }),
    decreases b.len(),
{
    if b.len() == 0 {
        assert(a + b =~= a);
    } else {
        assert((a + b).drop_last() =~= a + b.drop_last());
        assert((a + b).last() == b.last());
        lemma_later_wins(a, b.drop_last(), col, row);
    }
}

/// Appending one command: the cell it prints at shows its character.
proof fn lemma_push(s: Seq<DrawOp>, op: DrawOp, col: int, row: int)
    ensures
        glyph_at(s.push(op), col, row) == (if writes_cell(op, col, row) {
            Some(op_char(op))
        } else {
            glyph_at(s, col, row)
        }),
{
    assert(s.push(op).drop_last() =~= s);
    assert(s.push(op).last() == op);
}

/// A command sequence that prints nothing leaves every cell empty.
proof fn lemma_no_put(op: DrawOp, col: int, row: int)
    requires
        !(op is Put),
    ensures
        glyph_at(seq![op], col, row) is None,
{
    lemma_push(Seq::empty(), op, col, row);
    assert(Seq::<DrawOp>::empty().push(op) =~= seq![op]);
}

// ----------------------------------------------------------------------
// Frames
// ----------------------------------------------------------------------
/// The left and right edges of a frame, row by row from `top`, for `n`
/// rows: each row prints the left cell, then the right cell.
pub open spec fn sides(left: int, right: int, top: int, n: nat) -> Seq<DrawOp>
    decreases n,
{
    if n == 0 {
        Seq::empty()
    } else {
        sides(left, right, top, (n - 1) as nat).push(put(left, top + n - 1, VERTICAL)).push(
            put(right, top + n - 1, VERTICAL),
        )
    }
}

/// The top and bottom edges of a frame, column by column from `left`, for
/// `n` columns: each column prints the top cell, then the bottom cell.
pub open spec fn rails(top: int, bottom: int, left: int, n: nat) -> Seq<DrawOp>
    decreases n,
{
    if n == 0 {
        Seq::empty()
    } else {
        rails(top, bottom, left, (n - 1) as nat).push(put(left + n - 1, top, HORIZONTAL)).push(
            put(left + n - 1, bottom, HORIZONTAL),
        )
    }
}

/// The four corners, drawn last over the edges.
pub open spec fn corners(left: int, top: int, right: int, bottom: int) -> Seq<DrawOp> {
    seq![
        put(left, top, TOP_LEFT),
        put(right, top, TOP_RIGHT),
        put(left, bottom, BOTTOM_LEFT),
        put(right, bottom, BOTTOM_RIGHT),
    ]
}

/// The commands that draw a hollow frame around a `w` by `h` interior
/// whose top-left frame cell is (`x0`, `y0`).
pub open spec fn frame_seq(w: int, h: int, x0: int, y0: int) -> Seq<DrawOp> {
    let right = x0 + w + 1;
    let bottom = y0 + h + 1;
    sides(x0, right, y0, (h + 2) as nat) + rails(y0, bottom, x0, (w + 2) as nat) + corners(
        x0,
        y0,
        right,
        bottom,
    )
}

/// What a frame leaves at a cell: corner characters at the four corners,
/// edge characters on the rest of the border of the `(w + 2)` by `(h + 2)`
/// box, nothing elsewhere.
pub open spec fn frame_glyph(w: int, h: int, x0: int, y0: int, col: int, row: int) -> Option<
    char,
> {
    let right = x0 + w + 1;
    let bottom = y0 + h + 1;
    if col == x0 && row == y0 {
        Some(TOP_LEFT)
    } else if col == right && row == y0 {
        Some(TOP_RIGHT)
    } else if col == x0 && row == bottom {
        Some(BOTTOM_LEFT)
    } else if col == right && row == bottom {
        Some(BOTTOM_RIGHT)
    } else if (row == y0 || row == bottom) && x0 <= col <= right {
        Some(HORIZONTAL)
    } else if (col == x0 || col == right) && y0 <= row <= bottom {
        Some(VERTICAL)
    } else {
        None
    }
}

proof fn lemma_sides(left: int, right: int, top: int, n: nat, col: int, row: int)
    requires
        cell_range(left, left + 1),
        cell_range(right, right + 1),
        cell_range(top, top + n),
    ensures
        glyph_at(sides(left, right, top, n), col, row) == (if (col == left || col == right) && top
            <= row < top + n {
            Some(VERTICAL)
        } else {
            None
        }),
    decreases n,
{
    if n > 0 {
        let s = sides(left, right, top, (n - 1) as nat);
        lemma_sides(left, right, top, (n - 1) as nat, col, row);
        lemma_push(s, put(left, top + n - 1, VERTICAL), col, row);
        lemma_push(
            s.push(put(left, top + n - 1, VERTICAL)),
            put(right, top + n - 1, VERTICAL),
            col,
            row,
        );
    }
}

proof fn lemma_rails(top: int, bottom: int, left: int, n: nat, col: int, row: int)
    requires
        cell_range(top, top + 1),
        cell_range(bottom, bottom + 1),
        cell_range(left, left + n),
    ensures
        glyph_at(rails(top, bottom, left, n), col, row) == (if (row == top || row == bottom) && left
            <= col < left + n {
            Some(HORIZONTAL)
        } else {
            None
        }),
    decreases n,
{
    if n > 0 {
        let s = rails(top, bottom, left, (n - 1) as nat);
        lemma_rails(top, bottom, left, (n - 1) as nat, col, row);
        lemma_push(s, put(left + n - 1, top, HORIZONTAL), col, row);
        lemma_push(
            s.push(put(left + n - 1, top, HORIZONTAL)),
            put(left + n - 1, bottom, HORIZONTAL),
            col,
            row,
        );
    }
}

proof fn lemma_corners(left: int, top: int, right: int, bottom: int, col: int, row: int)
    requires
        cell_range(left, left + 1),
        cell_range(right, right + 1),
        cell_range(top, top + 1),
        cell_range(bottom, bottom + 1),
        left < right,
        top < bottom,
    ensures
        glyph_at(corners(left, top, right, bottom), col, row) == (if col == left && row == top {
            Some(TOP_LEFT)
        } else if col == right && row == top {
            Some(TOP_RIGHT)
        } else if col == left && row == bottom {
            Some(BOTTOM_LEFT)
        } else if col == right && row == bottom {
            Some(BOTTOM_RIGHT)
        } else {
            None
        }),
{
    let a = put(left, top, TOP_LEFT);
    let b = put(right, top, TOP_RIGHT);
    let c = put(left, bottom, BOTTOM_LEFT);
    let d = put(right, bottom, BOTTOM_RIGHT);
    let e = Seq::<DrawOp>::empty();
    lemma_push(e, a, col, row);
    lemma_push(e.push(a), b, col, row);
    lemma_push(e.push(a).push(b), c, col, row);
    lemma_push(e.push(a).push(b).push(c), d, col, row);
    assert(e.push(a).push(b).push(c).push(d) =~= corners(left, top, right, bottom));
}

/// A frame occupies exactly the border of a `(w + 2)` by `(h + 2)` box:
/// corners show the corner characters, the other border cells the edge
/// characters, and no other cell is drawn.
pub proof fn lemma_frame_cells(w: int, h: int, x0: int, y0: int, col: int, row: int)
    requires
        0 <= w,
        0 <= h,
        cell_range(x0, x0 + w + 2),
        cell_range(y0, y0 + h + 2),
    ensures
        glyph_at(frame_seq(w, h, x0, y0), col, row) == frame_glyph(w, h, x0, y0, col, row),
{
    let right = x0 + w + 1;
    let bottom = y0 + h + 1;
    let s = sides(x0, right, y0, (h + 2) as nat);
    let r = rails(y0, bottom, x0, (w + 2) as nat);
    let c = corners(x0, y0, right, bottom);
    lemma_sides(x0, right, y0, (h + 2) as nat, col, row);
    lemma_rails(y0, bottom, x0, (w + 2) as nat, col, row);
    lemma_corners(x0, y0, right, bottom, col, row);
    lemma_later_wins(s, r, col, row);
    lemma_later_wins(s + r, c, col, row);
}

/// Draws a hollow frame around a `w` by `h` interior; the frame occupies the
/// `(w + 2)` by `(h + 2)` cells from (`x0`, `y0`): left and right edges row
/// by row, then top and bottom edges column by column, then the corners
/// over the edges.
pub fn frame_ops(w: u16, h: u16, x0: u16, y0: u16) -> (ops: Vec<DrawOp>)
    requires
        x0 + w + 1 <= u16::MAX,
        y0 + h + 1 <= u16::MAX,
    ensures
        ops@ == frame_seq(w as int, h as int, x0 as int, y0 as int),
        forall|col: int, row: int|
            #[trigger] glyph_at(ops@, col, row) == frame_glyph(
                w as int,
                h as int,
                x0 as int,
                y0 as int,
                col,
                row,
            ),
{
    let right: u16 = x0 + w + 1;
    let bottom: u16 = y0 + h + 1;
    let mut ops: Vec<DrawOp> = Vec::new();

    // left + right edges
    let rows: u32 = h as u32 + 2;
    let mut k: u32 = 0;
    while k < rows
        invariant
            k <= rows,
            rows == h + 2,
            right == x0 + w + 1,
            bottom == y0 + h + 1,
            y0 + h + 1 <= u16::MAX,
            ops@ == sides(x0 as int, right as int, y0 as int, k as nat),
        decreases rows - k,
    {
        let y: u16 = (y0 as u32 + k) as u16;
        ops.push(DrawOp::Put { col: x0, row: y, ch: VERTICAL });
        ops.push(DrawOp::Put { col: right, row: y, ch: VERTICAL });
        k = k + 1;
    }
    let ghost edges = ops@;

    // top + bottom edges
    let cols: u32 = w as u32 + 2;
    let mut k: u32 = 0;
    while k < cols
        invariant
            k <= cols,
            cols == w + 2,
            right == x0 + w + 1,
            bottom == y0 + h + 1,
            x0 + w + 1 <= u16::MAX,
            edges == sides(x0 as int, right as int, y0 as int, (h + 2) as nat),
            ops@ == edges + rails(y0 as int, bottom as int, x0 as int, k as nat),
        decreases cols - k,
    {
        let x: u16 = (x0 as u32 + k) as u16;
        ops.push(DrawOp::Put { col: x, row: y0, ch: HORIZONTAL });
        ops.push(DrawOp::Put { col: x, row: bottom, ch: HORIZONTAL });
        proof {
            let r = rails(y0 as int, bottom as int, x0 as int, k as nat);
            assert(ops@ =~= edges + r.push(put(x0 + k, y0 as int, HORIZONTAL)).push(
                put(x0 + k, bottom as int, HORIZONTAL),
            ));
        }
        k = k + 1;
    }
    let ghost with_rails = ops@;

    // corners overwrite edge chars at each junction
    ops.push(DrawOp::Put { col: x0, row: y0, ch: TOP_LEFT });
    ops.push(DrawOp::Put { col: right, row: y0, ch: TOP_RIGHT });
    ops.push(DrawOp::Put { col: x0, row: bottom, ch: BOTTOM_LEFT });
    ops.push(DrawOp::Put { col: right, row: bottom, ch: BOTTOM_RIGHT });
    proof {
        assert(ops@ =~= with_rails + corners(x0 as int, y0 as int, right as int, bottom as int));
        assert forall|col: int, row: int|
            #[trigger] glyph_at(ops@, col, row) == frame_glyph(
                w as int,
                h as int,
                x0 as int,
                y0 as int,
                col,
                row,
            ) by {
            lemma_frame_cells(w as int, h as int, x0 as int, y0 as int, col, row);
        }
    }
    ops
}

// ----------------------------------------------------------------------
// Filled rectangles
// ----------------------------------------------------------------------
/// One row of a filled rectangle: `n` cells from `x0` rightwards on row `y`.
pub open spec fn row_seq(x0: int, y: int, n: nat, ch: char) -> Seq<DrawOp>
    decreases n,
{
    if n == 0 {
        Seq::empty()
    } else {
        row_seq(x0, y, (n - 1) as nat, ch).push(put(x0 + n - 1, y, ch))
    }
}

/// The commands that fill a `w` by `h` rectangle from (`x0`, `y0`), row by
/// row from the top, each row from the left.
pub open spec fn fill_seq(w: int, h: nat, x0: int, y0: int, ch: char) -> Seq<DrawOp>
    decreases h,
{
    if h == 0 {
        Seq::empty()
    } else {
        fill_seq(w, (h - 1) as nat, x0, y0, ch) + row_seq(x0, y0 + h - 1, w as nat, ch)
    }
}

/// Whether (`col`, `row`) lies in the `w` by `h` rectangle from (`x0`, `y0`).
pub open spec fn in_rect(w: int, h: int, x0: int, y0: int, col: int, row: int) -> bool {
    x0 <= col < x0 + w && y0 <= row < y0 + h
}

proof fn lemma_row(x0: int, y: int, n: nat, ch: char, col: int, row: int)
    requires
        cell_range(x0, x0 + n),
        cell_range(y, y + 1),
    ensures
        glyph_at(row_seq(x0, y, n, ch), col, row) == (if row == y && x0 <= col < x0 + n {
            Some(ch)
        } else {
            None
        }),
    decreases n,
{
    if n > 0 {
        lemma_row(x0, y, (n - 1) as nat, ch, col, row);
        lemma_push(row_seq(x0, y, (n - 1) as nat, ch), put(x0 + n - 1, y, ch), col, row);
    }
}

/// A filled rectangle shows its character on exactly its own cells.
pub proof fn lemma_fill_cells(w: int, h: nat, x0: int, y0: int, ch: char, col: int, row: int)
    requires
        0 <= w,
        cell_range(y0, y0 + h),
        h > 0 ==> cell_range(x0, x0 + w),
    ensures
        glyph_at(fill_seq(w, h, x0, y0, ch), col, row) == (if in_rect(w, h as int, x0, y0, col, row) {
            Some(ch)
        } else {
            None
        }),
    decreases h,
{
    if h > 0 {
        lemma_fill_cells(w, (h - 1) as nat, x0, y0, ch, col, row);
        lemma_row(x0, y0 + h - 1, w as nat, ch, col, row);
        lemma_later_wins(
            fill_seq(w, (h - 1) as nat, x0, y0, ch),
            row_seq(x0, y0 + h - 1, w as nat, ch),
            col,
            row,
        );
    }
}

/// Fills the `w` by `h` rectangle from (`x0`, `y0`) with `ch`, row by row
/// from the top, each row from the left.
pub fn fill_ops(w: u16, h: u16, x0: u16, y0: u16, ch: char) -> (ops: Vec<DrawOp>)
    requires
        y0 + h <= u16::MAX,
        h > 0 ==> x0 + w <= u16::MAX,
    ensures
        ops@ == fill_seq(w as int, h as nat, x0 as int, y0 as int, ch),
        forall|col: int, row: int|
            #[trigger] glyph_at(ops@, col, row) == (if in_rect(
                w as int,
                h as int,
                x0 as int,
                y0 as int,
                col,
                row,
            ) {
                Some(ch)
            } else {
                None
            }),
{
    let mut ops: Vec<DrawOp> = Vec::new();
    let y_end: u16 = y0 + h;
    let mut y: u16 = y0;
    while y < y_end
        invariant
            y0 <= y <= y_end,
            y_end == y0 + h,
            h > 0 ==> x0 + w <= u16::MAX,
            ops@ == fill_seq(w as int, (y - y0) as nat, x0 as int, y0 as int, ch),
        decreases y_end - y,
    {
        let ghost done = ops@;
        let x_end: u16 = x0 + w;
        let mut x: u16 = x0;
        while x < x_end
            invariant
                x0 <= x <= x_end,
                x_end == x0 + w,
                y0 <= y < y_end,
                done == fill_seq(w as int, (y - y0) as nat, x0 as int, y0 as int, ch),
                ops@ == done + row_seq(x0 as int, y as int, (x - x0) as nat, ch),
            decreases x_end - x,
        {
            ops.push(DrawOp::Put { col: x, row: y, ch });
            proof {
                let r = row_seq(x0 as int, y as int, (x - x0) as nat, ch);
                assert(ops@ =~= done + r.push(put(x as int, y as int, ch)));
            }
            x = x + 1;
        }
        proof {
            assert(fill_seq(w as int, (y + 1 - y0) as nat, x0 as int, y0 as int, ch) == done
                + row_seq(x0 as int, y as int, w as nat, ch));
        }
        y = y + 1;
    }
    proof {
        assert forall|col: int, row: int|
            #[trigger] glyph_at(ops@, col, row) == (if in_rect(
                w as int,
                h as int,
                x0 as int,
                y0 as int,
                col,
                row,
            ) {
                Some(ch)
            } else {
                None
            }) by {
            lemma_fill_cells(w as int, h as nat, x0 as int, y0 as int, ch, col, row);
        }
    }
    ops
}

// ----------------------------------------------------------------------
// The map
// ----------------------------------------------------------------------
/// The commands that draw the map of an `sw` by `sh` cell screen: a dark
/// grey border around it from the top-left cell, then a blank background.
pub open spec fn map_seq(sw: int, sh: int) -> Seq<DrawOp> {
    seq![DrawOp::SetForeground(Color::DarkGrey)] + frame_seq(sw, sh, 0, 0) + seq![
        DrawOp::ResetColor,
    ] + fill_seq(sw, sh as nat, 1, 1, BACKGROUND)
}

/// What the map leaves at a cell: the background on the whole interior of
/// the frame, the frame on its border, nothing outside.
pub open spec fn map_glyph(sw: int, sh: int, col: int, row: int) -> Option<char> {
    if in_rect(sw, sh, 1, 1, col, row) {
        Some(BACKGROUND)
    } else {
        frame_glyph(sw, sh, 0, 0, col, row)
    }
}

/// The background covers exactly the inside of the border: every cell the
/// frame encloses is blank, and the frame itself stays visible.
pub proof fn lemma_map_cells(sw: int, sh: int, col: int, row: int)
    requires
        0 <= sw,
        0 <= sh,
        sw + 2 <= u16::MAX + 1,
        sh + 2 <= u16::MAX + 1,
    ensures
        glyph_at(map_seq(sw, sh), col, row) == map_glyph(sw, sh, col, row),
{
    let a = seq![DrawOp::SetForeground(Color::DarkGrey)];
    let f = frame_seq(sw, sh, 0, 0);
    let b = seq![DrawOp::ResetColor];
    let g = fill_seq(sw, sh as nat, 1, 1, BACKGROUND);
    lemma_no_put(DrawOp::SetForeground(Color::DarkGrey), col, row);
    lemma_no_put(DrawOp::ResetColor, col, row);
    lemma_frame_cells(sw, sh, 0, 0, col, row);
    lemma_fill_cells(sw, sh as nat, 1, 1, BACKGROUND, col, row);
    lemma_later_wins(a, f, col, row);
    lemma_later_wins(a + f, b, col, row);
    lemma_later_wins(a + f + b, g, col, row);
}

/// Draws the map of an `sw` by `sh` cell screen: the border in dark grey,
/// then, in the default color, the blank background inside it.
pub fn map_ops(sw: u16, sh: u16) -> (ops: Vec<DrawOp>)
    requires
        sw + 1 <= u16::MAX,
        sh + 1 <= u16::MAX,
    ensures
        ops@ == map_seq(sw as int, sh as int),
        forall|col: int, row: int|
            #[trigger] glyph_at(ops@, col, row) == map_glyph(sw as int, sh as int, col, row),
        ops@.len() > 0,
        ops@[0] == DrawOp::SetForeground(Color::DarkGrey),
        forall|col: int, row: int|
            #[trigger] cell_at(ops@, col, row) == map_cell(sw as int, sh as int, col, row),
{
    let mut ops: Vec<DrawOp> = Vec::new();
    ops.push(DrawOp::SetForeground(Color::DarkGrey));
    let mut frame = frame_ops(sw, sh, 0, 0);
    ops.append(&mut frame);
    ops.push(DrawOp::ResetColor);
    let mut background = fill_ops(sw, sh, 1, 1, BACKGROUND);
    ops.append(&mut background);
    proof {
        assert(ops@ =~= map_seq(sw as int, sh as int));
        assert forall|col: int, row: int|
            #[trigger] glyph_at(ops@, col, row) == map_glyph(sw as int, sh as int, col, row) by {
            lemma_map_cells(sw as int, sh as int, col, row);
        }
        assert forall|col: int, row: int|
            #[trigger] cell_at(ops@, col, row) == map_cell(sw as int, sh as int, col, row) by {
            lemma_map_colors(sw as int, sh as int, col, row);
        }
    }
    ops
}

// ----------------------------------------------------------------------
// The robot
// ----------------------------------------------------------------------
/// The arrow for each of the eight heading sectors, counter-clockwise from
/// east.
pub open spec fn heading_glyph(sector: int) -> char {
    if sector == 0 {
        '>'
    } else if sector == 1 {
        '↗'
    } else if sector == 2 {
        '^'
    } else if sector == 3 {
        '↖'
    } else if sector == 4 {
        '<'
    } else if sector == 5 {
        '↙'
    } else if sector == 6 {
        'v'
    } else {
        '↘'
    }
}

/// The arrow for a heading quantized to eighths of a turn; sectors wrap
/// around every eight.
pub fn heading_char(sector: usize) -> (c: char)
    ensures
        c == heading_glyph(sector as int % 8),
        sector % 8 == 0 ==> c == '>',
        sector % 8 == 1 ==> c == '↗',
        sector % 8 == 2 ==> c == '^',
        sector % 8 == 3 ==> c == '↖',
        sector % 8 == 4 ==> c == '<',
        sector % 8 == 5 ==> c == '↙',
        sector % 8 == 6 ==> c == 'v',
        sector % 8 == 7 ==> c == '↘',
{
    let i = sector % 8;
    if i == 0 {
        '>'
    } else if i == 1 {
        '↗'
    } else if i == 2 {
        '^'
    } else if i == 3 {
        '↖'
    } else if i == 4 {
        '<'
    } else if i == 5 {
        '↙'
    } else if i == 6 {
        'v'
    } else {
        '↘'
    }
}

/// Sectors one full turn apart show the same arrow, and the eight sectors
/// of a turn show eight different arrows.
pub proof fn lemma_heading_turn(a: int, b: int)
    requires
        0 <= a,
        0 <= b,
    ensures
        (a % 8 == b % 8) <==> (heading_glyph(a % 8) == heading_glyph(b % 8)),
{
}

/// The column of the center cell of a body `bw` cells wide drawn from
/// column `col`, where the heading arrow goes.
pub open spec fn arrow_col(col: int, bw: int) -> int {
    col + bw / 2
}

/// The row of the center cell of a body `bh` cells high drawn from row
/// `row`, where the heading arrow goes.
pub open spec fn arrow_row(row: int, bh: int) -> int {
    row + bh / 2
}

/// The commands that draw the robot: in blue, its body of `width * SCALE_X`
/// by `height * SCALE_Y` cells from (`col`, `row`), then the heading arrow.
pub open spec fn robot_seq(col: int, row: int, width: int, height: int, sector: int) -> Seq<
    DrawOp,
> {
    let bw = width * 2;
    let bh = height * 1;
    seq![DrawOp::SetForeground(Color::Blue)] + fill_seq(bw, bh as nat, col, row, BLOCK) + seq![
        put(arrow_col(col, bw), arrow_row(row, bh), heading_glyph(sector % 8)),
    ]
}

/// Whether the robot's cells can be computed without overflow: what
/// `robot_ops` requires.
pub open spec fn robot_fits(col: int, row: int, width: int, height: int) -> bool {
    &&& width * 2 <= u16::MAX
    &&& row + height <= u16::MAX
    &&& (height > 0 ==> col + width * 2 <= u16::MAX)
    &&& col + width <= u16::MAX
}

/// Whether `robot_ops` can draw the robot: the robot's cells fit the screen
/// coordinates.
pub fn robot_cells_fit(col: u16, row: u16, width: u16, height: u16) -> (b: bool)
    ensures
        b == robot_fits(col as int, row as int, width as int, height as int),
{
    width <= u16::MAX / 2 && row <= u16::MAX - height && (height == 0 || col <= u16::MAX - width
        * 2) && col <= u16::MAX - width
}

/// Draws the robot whose body starts at screen cell (`col`, `row`) and
/// measures `width` by `height` world units: the body in blue blocks, then
/// the heading arrow of `sector` over its center cell.
pub fn robot_ops(col: u16, row: u16, width: u16, height: u16, sector: usize) -> (ops: Vec<DrawOp>)
    requires
        robot_fits(col as int, row as int, width as int, height as int),
    ensures
        ops@ == robot_seq(col as int, row as int, width as int, height as int, sector as int),
        glyph_at(
            ops@,
            arrow_col(col as int, width * 2),
            arrow_row(row as int, height as int),
        ) == Some(heading_glyph(sector as int % 8)),
        forall|c: int, r: int|
            !(c == arrow_col(col as int, width * 2) && r == arrow_row(row as int, height as int))
                ==> #[trigger] glyph_at(ops@, c, r) == (if in_rect(
                width * 2,
                height as int,
                col as int,
                row as int,
                c,
                r,
            ) {
                Some(BLOCK)
            } else {
                None
            }),
        ops@.len() > 0,
        ops@[0] == DrawOp::SetForeground(Color::Blue),
        forall|c: int, r: int|
            #[trigger] cell_at(ops@, c, r) == robot_cell(
                col as int,
                row as int,
                width as int,
                height as int,
                sector as int,
                c,
                r,
            ),
{
    let w: u16 = width * crate::config::SCALE_X;
    let h: u16 = height * crate::config::SCALE_Y;
    let mut ops: Vec<DrawOp> = Vec::new();
    ops.push(DrawOp::SetForeground(Color::Blue));
    let mut body = fill_ops(w, h, col, row, BLOCK);
    ops.append(&mut body);
    let cx: u16 = col + w / 2;
    let cy: u16 = row + h / 2;
    let arrow = heading_char(sector);
    ops.push(DrawOp::Put { col: cx, row: cy, ch: arrow });
    proof {
        let bw = width * 2;
        let bh = height as int;
        let a = seq![DrawOp::SetForeground(Color::Blue)];
        let f = fill_seq(bw, bh as nat, col as int, row as int, BLOCK);
        let m = seq![put(arrow_col(col as int, bw), arrow_row(row as int, bh), arrow)];
        assert(ops@ =~= a + f + m);
        assert forall|c: int, r: int| #[trigger] glyph_at(ops@, c, r) == (if c == arrow_col(col as int, bw) && r == arrow_row(row as int, bh) {
            Some(arrow)
        } else if in_rect(bw, bh, col as int, row as int, c, r) {
            Some(BLOCK)
        } else {
            None
        }) by {
            lemma_no_put(DrawOp::SetForeground(Color::Blue), c, r);
            lemma_fill_cells(bw, bh as nat, col as int, row as int, BLOCK, c, r);
            lemma_push(Seq::empty(), m[0], c, r);
            assert(Seq::<DrawOp>::empty().push(m[0]) =~= m);
            lemma_later_wins(a, f, c, r);
            lemma_later_wins(a + f, m, c, r);
        }
        assert(glyph_at(ops@, arrow_col(col as int, bw), arrow_row(row as int, bh)) == Some(arrow));
        assert forall|c: int, r: int|
            #[trigger] cell_at(ops@, c, r) == robot_cell(
                col as int,
                row as int,
                width as int,
                height as int,
                sector as int,
                c,
                r,
            ) by {
            lemma_robot_colors(col as int, row as int, width as int, height as int, sector as int, c, r);
        }
    }
    ops
}

// ----------------------------------------------------------------------
// Objects
// ----------------------------------------------------------------------
/// Where an object lands on screen: its top-left cell, its size in whole
/// world units, and whether it is small (at most one unit each way).
#[derive(Clone, Copy, Debug, PartialEq, Eq, Structural)]
pub struct Footprint {
    pub col: u16,
    pub row: u16,
    pub width: u16,
    pub height: u16,
    pub small: bool,
}

/// The commands of one object: a single mark for a small object, else its
/// body of `width * SCALE_X` by `height * SCALE_Y` blocks.
pub open spec fn footprint_seq(fp: Footprint) -> Seq<DrawOp> {
    if fp.small {
        seq![put(fp.col as int, fp.row as int, SMALL_MARK)]
    } else {
        fill_seq(fp.width * 2, (fp.height * 1) as nat, fp.col as int, fp.row as int, BLOCK)
    }
}

/// The commands of the objects in order.
pub open spec fn footprints_seq(fps: Seq<Footprint>) -> Seq<DrawOp>
    decreases fps.len(),
{
    if fps.len() == 0 {
        Seq::empty()
    } else {
        footprints_seq(fps.drop_last()) + footprint_seq(fps.last())
    }
}

/// The commands that draw the objects: red, then each object in order.
pub open spec fn objects_seq(fps: Seq<Footprint>) -> Seq<DrawOp> {
    seq![DrawOp::SetForeground(Color::Red)] + footprints_seq(fps)
}

/// Whether an object's cells can be computed without overflow.
pub open spec fn footprint_fits(fp: Footprint) -> bool {
    fp.small || {
        &&& fp.width * 2 <= u16::MAX
        &&& fp.row + fp.height <= u16::MAX
        &&& (fp.height > 0 ==> fp.col + fp.width * 2 <= u16::MAX)
    }
}

/// Whether `objects_ops` can draw the object: its cells fit the screen
/// coordinates.
pub fn footprint_cells_fit(fp: &Footprint) -> (b: bool)
    ensures
        b == footprint_fits(*fp),
{
    fp.small || (fp.width <= u16::MAX / 2 && fp.row <= u16::MAX - fp.height && (fp.height == 0
        || fp.col <= u16::MAX - fp.width * 2))
}

/// Draws one object.
fn footprint_ops(fp: &Footprint) -> (ops: Vec<DrawOp>)
    requires
        footprint_fits(*fp),
    ensures
        ops@ == footprint_seq(*fp),
        forall|c: int, r: int| #[trigger] glyph_at(ops@, c, r) == object_glyph(*fp, c, r),
{
    proof {
        assert forall|c: int, r: int| #[trigger]
            glyph_at(footprint_seq(*fp), c, r) == object_glyph(*fp, c, r) by {
            lemma_footprint_glyph(*fp, c, r);
        }
    }
    if fp.small {
        let mut ops: Vec<DrawOp> = Vec::new();
        ops.push(DrawOp::Put { col: fp.col, row: fp.row, ch: SMALL_MARK });
        proof {
            assert(ops@ =~= footprint_seq(*fp));
        }
        ops
    } else {
        fill_ops(
            fp.width * crate::config::SCALE_X,
            fp.height * crate::config::SCALE_Y,
            fp.col,
            fp.row,
            BLOCK,
        )
    }
}

/// Draws the objects in red, each in turn: a small object as a single mark
/// at its cell, a larger one as a block of its size.
pub fn objects_ops(objects: &Vec<Footprint>) -> (ops: Vec<DrawOp>)
    requires
        forall|i: int| 0 <= i < objects.len() ==> footprint_fits(#[trigger] objects[i]),
    ensures
        ops@ == objects_seq(objects@),
        ops@.len() > 0,
        ops@[0] == DrawOp::SetForeground(Color::Red),
        forall|i: int| 1 <= i < ops@.len() ==> #[trigger] ops@[i] is Put,
        forall|c: int, r: int|
            #[trigger] glyph_at(ops@, c, r) == objects_glyph(objects@, c, r),
        forall|c: int, r: int|
            #[trigger] cell_at(ops@, c, r) == objects_cell(objects@, c, r),
{
    let mut ops: Vec<DrawOp> = Vec::new();
    ops.push(DrawOp::SetForeground(Color::Red));
    let mut i: usize = 0;
    while i < objects.len()
        invariant
            i <= objects.len(),
            forall|j: int| 0 <= j < objects.len() ==> footprint_fits(#[trigger] objects[j]),
            ops@ == seq![DrawOp::SetForeground(Color::Red)] + footprints_seq(objects@.take(i as int)),
        decreases objects.len() - i,
    {
        let mut part = footprint_ops(&objects[i]);
        ops.append(&mut part);
        proof {
            let t = objects@.take(i as int + 1);
            assert(t.drop_last() =~= objects@.take(i as int));
            assert(t.last() == objects@[i as int]);
            assert(ops@ =~= seq![DrawOp::SetForeground(Color::Red)] + footprints_seq(t));
        }
        i = i + 1;
    }
    proof {
        assert(objects@.take(objects.len() as int) =~= objects@);
        let red = seq![DrawOp::SetForeground(Color::Red)];
        assert forall|c: int, r: int|
            #[trigger] cell_at(ops@, c, r) == objects_cell(objects@, c, r) by {
            lemma_objects_colors(objects@, c, r);
        }
        assert forall|c: int, r: int|
            #[trigger] glyph_at(ops@, c, r) == objects_glyph(objects@, c, r) by {
            lemma_objects_glyph(objects@, c, r);
            lemma_no_put(DrawOp::SetForeground(Color::Red), c, r);
            lemma_later_wins(red, footprints_seq(objects@), c, r);
        }
        lemma_objects_glyph(objects@, 0, 0);
        assert forall|i: int| 1 <= i < ops@.len() implies #[trigger] ops@[i] is Put by {
            assert(ops@[i] == footprints_seq(objects@)[i - 1]);
        }
    }
    ops
}

// ----------------------------------------------------------------------
// A render pass
// ----------------------------------------------------------------------
/// The commands of one render pass: the map of an `sw` by `sh` cell screen,
/// then the robot, then the objects.
pub open spec fn scene_seq(
    sw: int,
    sh: int,
    col: int,
    row: int,
    width: int,
    height: int,
    sector: int,
    fps: Seq<Footprint>,
) -> Seq<DrawOp> {
    map_seq(sw, sh) + robot_seq(col, row, width, height, sector) + objects_seq(fps)
}

/// Objects show over the robot and the robot over the map: a cell shows
/// what the objects drew there, else what the robot drew, else the map.
pub proof fn lemma_scene_layers(
    sw: int,
    sh: int,
    col: int,
    row: int,
    width: int,
    height: int,
    sector: int,
    fps: Seq<Footprint>,
    c: int,
    r: int,
)
    requires
        0 <= sw,
        0 <= sh,
        sw + 2 <= u16::MAX + 1,
        sh + 2 <= u16::MAX + 1,
    ensures
        glyph_at(scene_seq(sw, sh, col, row, width, height, sector, fps), c, r) == (match glyph_at(
            objects_seq(fps),
            c,
            r,
        ) {
            Some(x) => Some(x),
            None => match glyph_at(robot_seq(col, row, width, height, sector), c, r) {
                Some(x) => Some(x),
                None => map_glyph(sw, sh, c, r),
            },
        }),
{
    let m = map_seq(sw, sh);
    let b = robot_seq(col, row, width, height, sector);
    let o = objects_seq(fps);
    lemma_map_cells(sw, sh, c, r);
    lemma_later_wins(m, b, c, r);
    lemma_later_wins(m + b, o, c, r);
}

/// Draws one frame of the simulation on an `sw` by `sh` cell screen: the
/// map, then the robot (body from (`col`, `row`), `width` by `height` world
/// units, heading `sector`), then the objects.
pub fn render_ops(
    sw: u16,
    sh: u16,
    col: u16,
    row: u16,
    width: u16,
    height: u16,
    sector: usize,
    objects: &Vec<Footprint>,
) -> (ops: Vec<DrawOp>)
    requires
        sw + 1 <= u16::MAX,
        sh + 1 <= u16::MAX,
        robot_fits(col as int, row as int, width as int, height as int),
        forall|i: int| 0 <= i < objects.len() ==> footprint_fits(#[trigger] objects[i]),
    ensures
        ops@ == scene_seq(
            sw as int,
            sh as int,
            col as int,
            row as int,
            width as int,
            height as int,
            sector as int,
            objects@,
        ),
        forall|c: int, r: int|
            #[trigger] glyph_at(ops@, c, r) == (match glyph_at(objects_seq(objects@), c, r) {
                Some(x) => Some(x),
                None => match glyph_at(
                    robot_seq(col as int, row as int, width as int, height as int, sector as int),
                    c,
                    r,
                ) {
                    Some(x) => Some(x),
                    None => map_glyph(sw as int, sh as int, c, r),
                },
            }),
        forall|c: int, r: int|
            #[trigger] cell_at(ops@, c, r) == scene_cell(
                sw as int,
                sh as int,
                col as int,
                row as int,
                width as int,
                height as int,
                sector as int,
                objects@,
                c,
                r,
            ),
{
    let mut ops = map_ops(sw, sh);
    let mut robot = robot_ops(col, row, width, height, sector);
    ops.append(&mut robot);
    let mut objs = objects_ops(objects);
    ops.append(&mut objs);
    proof {
        assert forall|c: int, r: int|
            #[trigger] glyph_at(ops@, c, r) == (match glyph_at(objects_seq(objects@), c, r) {
                Some(x) => Some(x),
                None => match glyph_at(
                    robot_seq(col as int, row as int, width as int, height as int, sector as int),
                    c,
                    r,
                ) {
                    Some(x) => Some(x),
                    None => map_glyph(sw as int, sh as int, c, r),
                },
            }) by {
            lemma_scene_layers(
                sw as int,
                sh as int,
                col as int,
                row as int,
                width as int,
                height as int,
                sector as int,
                objects@,
                c,
                r,
            );
        }
        assert forall|c: int, r: int|
            #[trigger] cell_at(ops@, c, r) == scene_cell(
                sw as int,
                sh as int,
                col as int,
                row as int,
                width as int,
                height as int,
                sector as int,
                objects@,
                c,
                r,
            ) by {
            lemma_scene_colors(
                sw as int,
                sh as int,
                col as int,
                row as int,
                width as int,
                height as int,
                sector as int,
                objects@,
                c,
                r,
            );
        }
    }
    ops
}

// ----------------------------------------------------------------------
// What a render pass shows, with colors
// ----------------------------------------------------------------------
/// The foreground color in effect after `ops`: the one the last color
/// command set, or the terminal's default (`None`) after a reset or before
/// any color command.
pub open spec fn pen_after(ops: Seq<DrawOp>) -> Option<Color>
    decreases ops.len(),
{
    if ops.len() == 0 {
        None
    } else {
        match ops.last() {
            DrawOp::SetForeground(c) => Some(c),
            DrawOp::ResetColor => None,
            DrawOp::Put { .. } => pen_after(ops.drop_last()),
        }
    }
}

/// What a screen on which nothing was drawn shows at (`col`, `row`) after
/// `ops` ran: the character of the last `Put` there and the foreground
/// color it was printed in.
pub open spec fn cell_at(ops: Seq<DrawOp>, col: int, row: int) -> Option<(char, Option<Color>)>
    decreases ops.len(),
{
    if ops.len() == 0 {
        None
    } else if writes_cell(ops.last(), col, row) {
        Some((op_char(ops.last()), pen_after(ops.drop_last())))
    } else {
        cell_at(ops.drop_last(), col, row)
    }
}

/// Whether every command of `s` prints a character.
pub open spec fn all_puts(s: Seq<DrawOp>) -> bool {
    forall|i: int| 0 <= i < s.len() ==> #[trigger] s[i] is Put
}

/// What the map shows: the blank background, in the default color, inside
/// the border; the border in dark grey; nothing outside.
pub open spec fn map_cell(sw: int, sh: int, col: int, row: int) -> Option<(char, Option<Color>)> {
    if 1 <= col <= sw && 1 <= row <= sh {
        Some((BACKGROUND, None))
    } else {
        match frame_glyph(sw, sh, 0, 0, col, row) {
            Some(g) => Some((g, Some(Color::DarkGrey))),
            None => None,
        }
    }
}

/// What the robot shows, all in blue: its heading arrow on the center cell
/// of its body, blocks on the rest of its `width * 2` by `height` cells,
/// nothing elsewhere.
pub open spec fn robot_cell(
    col: int,
    row: int,
    width: int,
    height: int,
    sector: int,
    c: int,
    r: int,
) -> Option<(char, Option<Color>)> {
    if c == col + width && r == row + height / 2 {
        Some((heading_glyph(sector % 8), Some(Color::Blue)))
    } else if col <= c < col + 2 * width && row <= r < row + height {
        Some((BLOCK, Some(Color::Blue)))
    } else {
        None
    }
}

/// What one object shows: a small object its mark on its own cell, a
/// larger one blocks on its `width * 2` by `height` cells.
pub open spec fn object_glyph(fp: Footprint, c: int, r: int) -> Option<char> {
    if fp.small {
        if c == fp.col && r == fp.row {
            Some(SMALL_MARK)
        } else {
            None
        }
    } else if fp.col <= c < fp.col + 2 * fp.width && fp.row <= r < fp.row + fp.height {
        Some(BLOCK)
    } else {
        None
    }
}

/// What the objects show at a cell: what the last object covering it shows.
pub open spec fn objects_glyph(fps: Seq<Footprint>, c: int, r: int) -> Option<char>
    decreases fps.len(),
{
    if fps.len() == 0 {
        None
    } else {
        match object_glyph(fps.last(), c, r) {
            Some(g) => Some(g),
            None => objects_glyph(fps.drop_last(), c, r),
        }
    }
}

/// What the objects show, all in red.
pub open spec fn objects_cell(fps: Seq<Footprint>, c: int, r: int) -> Option<(char, Option<Color>)> {
    match objects_glyph(fps, c, r) {
        Some(g) => Some((g, Some(Color::Red))),
        None => None,
    }
}

/// What a whole render pass shows: the objects over the robot over the map.
pub open spec fn scene_cell(
    sw: int,
    sh: int,
    col: int,
    row: int,
    width: int,
    height: int,
    sector: int,
    fps: Seq<Footprint>,
    c: int,
    r: int,
) -> Option<(char, Option<Color>)> {
    match objects_cell(fps, c, r) {
        Some(x) => Some(x),
        None => match robot_cell(col, row, width, height, sector, c, r) {
            Some(x) => Some(x),
            None => map_cell(sw, sh, c, r),
        },
    }
}

proof fn lemma_single(op: DrawOp, col: int, row: int)
    ensures
        seq![op].drop_last() == Seq::<DrawOp>::empty(),
        seq![op].last() == op,
        pen_after(seq![op]) == (match op {
            DrawOp::SetForeground(c) => Some(c),
            _ => None,
        }),
        !(op is Put) ==> cell_at(seq![op], col, row) is None,
{
    assert(seq![op].drop_last() =~= Seq::<DrawOp>::empty());
    assert(cell_at(Seq::<DrawOp>::empty(), col, row) is None);
    assert(pen_after(Seq::<DrawOp>::empty()) is None);
}

/// A run of `Put`s prints in the color in effect before it.
proof fn lemma_puts_in_pen(p: Seq<DrawOp>, s: Seq<DrawOp>, col: int, row: int)
    requires
        all_puts(s),
    ensures
        pen_after(p + s) == pen_after(p),
        cell_at(p + s, col, row) == (match glyph_at(s, col, row) {
            Some(ch) => Some((ch, pen_after(p))),
            None => cell_at(p, col, row),
        }),
    decreases s.len(),
{
    if s.len() == 0 {
        assert(p + s =~= p);
    } else {
        assert((p + s).drop_last() =~= p + s.drop_last());
        assert((p + s).last() == s.last());
        assert(s.last() is Put);
        assert(all_puts(s.drop_last()));
        lemma_puts_in_pen(p, s.drop_last(), col, row);
    }
}

/// After a sequence that starts with a color command, the color in effect
/// does not depend on what ran before it.
proof fn lemma_pen_led(a: Seq<DrawOp>, b: Seq<DrawOp>)
    requires
        b.len() > 0,
        !(b[0] is Put),
    ensures
        pen_after(a + b) == pen_after(b),
    decreases b.len(),
{
    assert((a + b).drop_last() =~= a + b.drop_last());
    assert((a + b).last() == b.last());
    if b.len() > 1 {
        lemma_pen_led(a, b.drop_last());
    }
}

/// Later commands draw over earlier ones, colors included, when the later
/// commands set their own color first.
pub proof fn lemma_later_wins_colored(a: Seq<DrawOp>, b: Seq<DrawOp>, col: int, row: int)
    requires
        b.len() == 0 || !(b[0] is Put),
    ensures
        cell_at(a + b, col, row) == (match cell_at(b, col, row) {
            Some(x) => Some(x),
            None => cell_at(a, col, row),
        }),
    decreases b.len(),
{
    if b.len() == 0 {
        assert(a + b =~= a);
    } else {
        assert((a + b).drop_last() =~= a + b.drop_last());
        assert((a + b).last() == b.last());
        if b.len() == 1 {
            assert(b.drop_last() =~= Seq::<DrawOp>::empty());
            assert(a + b.drop_last() =~= a);
            assert(cell_at(Seq::<DrawOp>::empty(), col, row) is None);
            assert(!writes_cell(b.last(), col, row));
        } else {
            assert(b.drop_last()[0] == b[0]);
            lemma_later_wins_colored(a, b.drop_last(), col, row);
            if writes_cell(b.last(), col, row) {
                lemma_pen_led(a, b.drop_last());
            }
        }
    }
}

proof fn lemma_concat_puts(a: Seq<DrawOp>, b: Seq<DrawOp>)
    requires
        all_puts(a),
        all_puts(b),
    ensures
        all_puts(a + b),
{
    assert forall|i: int| 0 <= i < (a + b).len() implies #[trigger] (a + b)[i] is Put by {
        if i < a.len() {
            assert((a + b)[i] == a[i]);
        } else {
            assert((a + b)[i] == b[i - a.len()]);
        }
    }
}

proof fn lemma_push_put(s: Seq<DrawOp>, op: DrawOp)
    requires
        all_puts(s),
        op is Put,
    ensures
        all_puts(s.push(op)),
{
    assert forall|i: int| 0 <= i < s.push(op).len() implies #[trigger] s.push(op)[i] is Put by {
        if i < s.len() {
            assert(s.push(op)[i] == s[i]);
        }
    }
}

proof fn lemma_sides_puts(left: int, right: int, top: int, n: nat)
    ensures
        all_puts(sides(left, right, top, n)),
    decreases n,
{
    if n > 0 {
        let s = sides(left, right, top, (n - 1) as nat);
        lemma_sides_puts(left, right, top, (n - 1) as nat);
        lemma_push_put(s, put(left, top + n - 1, VERTICAL));
        lemma_push_put(s.push(put(left, top + n - 1, VERTICAL)), put(right, top + n - 1, VERTICAL));
    }
}

proof fn lemma_rails_puts(top: int, bottom: int, left: int, n: nat)
    ensures
        all_puts(rails(top, bottom, left, n)),
    decreases n,
{
    if n > 0 {
        let s = rails(top, bottom, left, (n - 1) as nat);
        lemma_rails_puts(top, bottom, left, (n - 1) as nat);
        lemma_push_put(s, put(left + n - 1, top, HORIZONTAL));
        lemma_push_put(
            s.push(put(left + n - 1, top, HORIZONTAL)),
            put(left + n - 1, bottom, HORIZONTAL),
        );
    }
}

proof fn lemma_frame_puts(w: int, h: int, x0: int, y0: int)
    ensures
        all_puts(frame_seq(w, h, x0, y0)),
{
    let right = x0 + w + 1;
    let bottom = y0 + h + 1;
    lemma_sides_puts(x0, right, y0, (h + 2) as nat);
    lemma_rails_puts(y0, bottom, x0, (w + 2) as nat);
    lemma_concat_puts(sides(x0, right, y0, (h + 2) as nat), rails(y0, bottom, x0, (w + 2) as nat));
    lemma_concat_puts(
        sides(x0, right, y0, (h + 2) as nat) + rails(y0, bottom, x0, (w + 2) as nat),
        corners(x0, y0, right, bottom),
    );
}

proof fn lemma_row_puts(x0: int, y: int, n: nat, ch: char)
    ensures
        all_puts(row_seq(x0, y, n, ch)),
    decreases n,
{
    if n > 0 {
        lemma_row_puts(x0, y, (n - 1) as nat, ch);
        lemma_push_put(row_seq(x0, y, (n - 1) as nat, ch), put(x0 + n - 1, y, ch));
    }
}

proof fn lemma_fill_puts(w: int, h: nat, x0: int, y0: int, ch: char)
    ensures
        all_puts(fill_seq(w, h, x0, y0, ch)),
    decreases h,
{
    if h > 0 {
        lemma_fill_puts(w, (h - 1) as nat, x0, y0, ch);
        lemma_row_puts(x0, y0 + h - 1, w as nat, ch);
        lemma_concat_puts(
            fill_seq(w, (h - 1) as nat, x0, y0, ch),
            row_seq(x0, y0 + h - 1, w as nat, ch),
        );
    }
}

/// The map shows the blank background in the default color inside its
/// border and the border in dark grey.
pub proof fn lemma_map_colors(sw: int, sh: int, col: int, row: int)
    requires
        0 <= sw,
        0 <= sh,
        sw + 2 <= u16::MAX + 1,
        sh + 2 <= u16::MAX + 1,
    ensures
        cell_at(map_seq(sw, sh), col, row) == map_cell(sw, sh, col, row),
{
    let a = seq![DrawOp::SetForeground(Color::DarkGrey)];
    let f = frame_seq(sw, sh, 0, 0);
    let b = seq![DrawOp::ResetColor];
    let g = fill_seq(sw, sh as nat, 1, 1, BACKGROUND);
    assert(map_seq(sw, sh) =~= (a + f) + (b + g));
    lemma_single(DrawOp::SetForeground(Color::DarkGrey), col, row);
    lemma_single(DrawOp::ResetColor, col, row);
    lemma_frame_puts(sw, sh, 0, 0);
    lemma_fill_puts(sw, sh as nat, 1, 1, BACKGROUND);
    lemma_frame_cells(sw, sh, 0, 0, col, row);
    lemma_fill_cells(sw, sh as nat, 1, 1, BACKGROUND, col, row);
    lemma_puts_in_pen(a, f, col, row);
    lemma_puts_in_pen(b, g, col, row);
    assert((b + g)[0] == DrawOp::ResetColor);
    lemma_later_wins_colored(a + f, b + g, col, row);
}

/// The robot shows in blue: its heading arrow on the center cell of its
/// body and blocks on the rest of it.
pub proof fn lemma_robot_colors(col: int, row: int, width: int, height: int, sector: int, c: int, r: int)
    requires
        0 <= col,
        0 <= row,
        0 <= width,
        0 <= height,
        robot_fits(col, row, width, height),
    ensures
        cell_at(robot_seq(col, row, width, height, sector), c, r) == robot_cell(
            col,
            row,
            width,
            height,
            sector,
            c,
            r,
        ),
{
    let bw = width * 2;
    let bh = height * 1;
    let a = seq![DrawOp::SetForeground(Color::Blue)];
    let f = fill_seq(bw, bh as nat, col, row, BLOCK);
    let m = seq![put(arrow_col(col, bw), arrow_row(row, bh), heading_glyph(sector % 8))];
    assert(robot_seq(col, row, width, height, sector) =~= a + (f + m));
    lemma_single(DrawOp::SetForeground(Color::Blue), c, r);
    lemma_fill_puts(bw, bh as nat, col, row, BLOCK);
    lemma_push_put(Seq::empty(), m[0]);
    assert(Seq::<DrawOp>::empty().push(m[0]) =~= m);
    lemma_concat_puts(f, m);
    lemma_fill_cells(bw, bh as nat, col, row, BLOCK, c, r);
    lemma_push(Seq::empty(), m[0], c, r);
    lemma_later_wins(f, m, c, r);
    lemma_puts_in_pen(a, f + m, c, r);
}

proof fn lemma_footprint_glyph(fp: Footprint, c: int, r: int)
    requires
        footprint_fits(fp),
    ensures
        all_puts(footprint_seq(fp)),
        glyph_at(footprint_seq(fp), c, r) == object_glyph(fp, c, r),
{
    if fp.small {
        let op = put(fp.col as int, fp.row as int, SMALL_MARK);
        lemma_push_put(Seq::empty(), op);
        lemma_push(Seq::empty(), op, c, r);
        assert(Seq::<DrawOp>::empty().push(op) =~= footprint_seq(fp));
    } else {
        let bw = fp.width * 2;
        let bh = fp.height * 1;
        lemma_fill_puts(bw, bh as nat, fp.col as int, fp.row as int, BLOCK);
        lemma_fill_cells(bw, bh as nat, fp.col as int, fp.row as int, BLOCK, c, r);
    }
}

/// Each object shows on its own cells: a small one as its mark on its cell,
/// a larger one as blocks on its `width * 2` by `height` cells; where
/// objects overlap, the later one shows.
pub proof fn lemma_objects_glyph(fps: Seq<Footprint>, c: int, r: int)
    requires
        forall|i: int| 0 <= i < fps.len() ==> footprint_fits(#[trigger] fps[i]),
    ensures
        all_puts(footprints_seq(fps)),
        glyph_at(footprints_seq(fps), c, r) == objects_glyph(fps, c, r),
    decreases fps.len(),
{
    if fps.len() > 0 {
        assert(footprint_fits(fps[fps.len() - 1]));
        lemma_objects_glyph(fps.drop_last(), c, r);
        lemma_footprint_glyph(fps.last(), c, r);
        lemma_concat_puts(footprints_seq(fps.drop_last()), footprint_seq(fps.last()));
        lemma_later_wins(footprints_seq(fps.drop_last()), footprint_seq(fps.last()), c, r);
    }
}

/// The objects show in red, each on its own cells.
pub proof fn lemma_objects_colors(fps: Seq<Footprint>, c: int, r: int)
    requires
        forall|i: int| 0 <= i < fps.len() ==> footprint_fits(#[trigger] fps[i]),
    ensures
        cell_at(objects_seq(fps), c, r) == objects_cell(fps, c, r),
{
    lemma_objects_glyph(fps, c, r);
    lemma_single(DrawOp::SetForeground(Color::Red), c, r);
    lemma_puts_in_pen(seq![DrawOp::SetForeground(Color::Red)], footprints_seq(fps), c, r);
}

/// A render pass shows the objects in red over the robot in blue over the
/// map.
pub proof fn lemma_scene_colors(
    sw: int,
    sh: int,
    col: int,
    row: int,
    width: int,
    height: int,
    sector: int,
    fps: Seq<Footprint>,
    c: int,
    r: int,
)
    requires
        0 <= sw,
        0 <= sh,
        sw + 2 <= u16::MAX + 1,
        sh + 2 <= u16::MAX + 1,
        0 <= col,
        0 <= row,
        0 <= width,
        0 <= height,
        robot_fits(col, row, width, height),
        forall|i: int| 0 <= i < fps.len() ==> footprint_fits(#[trigger] fps[i]),
    ensures
        cell_at(scene_seq(sw, sh, col, row, width, height, sector, fps), c, r) == scene_cell(
            sw,
            sh,
            col,
            row,
            width,
            height,
            sector,
            fps,
            c,
            r,
        ),
{
    let m = map_seq(sw, sh);
    let b = robot_seq(col, row, width, height, sector);
    let o = objects_seq(fps);
    lemma_map_colors(sw, sh, c, r);
    lemma_robot_colors(col, row, width, height, sector, c, r);
    lemma_objects_colors(fps, c, r);
    assert(b[0] == DrawOp::SetForeground(Color::Blue));
    assert(o[0] == DrawOp::SetForeground(Color::Red));
    lemma_later_wins_colored(m, b, c, r);
    lemma_later_wins_colored(m + b, o, c, r);
}

} // verus!
