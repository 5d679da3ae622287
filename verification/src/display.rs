use vstd::prelude::*;

use crate::color::Color;
use crate::vga_13h_buffer::{surface_shaped, with_pixel, Writer};

verus! {

/// Width of the screen in logical pixels.
pub const WIDTH: usize = 64;

/// Height of the screen in logical pixels.
pub const HEIGHT: usize = 32;

/// Each logical pixel is shown as a square of this many physical pixels a
/// side.
pub const MULTIPLIER: usize = 5;

/// The logical screen: 32 rows of 64 pixels, each on (`true`) or off. The
/// pixel at column `x` of row `y` is `grid[y][x]`.
pub type Grid = Seq<Seq<bool>>;

/// The screen with every pixel off.
pub open spec fn blank_grid() -> Grid {
    Seq::new(32, |y: int| Seq::new(64, |x: int| false))
}

/// Whether `grid` has 32 rows of 64 pixels.
pub open spec fn grid_shaped(grid: Grid) -> bool {
    &&& grid.len() == 32
    &&& forall|y: int| 0 <= y < 32 ==> (#[trigger] grid[y]).len() == 64
}

/// `grid` with the pixel at (`x`, `y`) turned to `on`.
pub open spec fn with_dot(grid: Grid, x: int, y: int, on: bool) -> Grid {
    grid.update(y, grid[y].update(x, on))
}

/// Whether bit `column` of a sprite row is set. Column 0 is the leftmost
/// pixel of the row and the most significant bit of the byte.
pub open spec fn sprite_bit(byte: u8, column: int) -> bool {
    (byte >> ((7 - column) as u8)) & 1u8 == 1u8
}

/// Whether a sprite row `byte` whose leftmost pixel falls on column `x` sets
/// a bit on screen column `px`, where only the first `width` bits of the row
/// count. Columns past the right edge continue at the left edge.
pub open spec fn row_marks(byte: u8, x: int, width: int, px: int) -> bool {
    let column = (px - x) % 64;
    column < width && sprite_bit(byte, column)
}

/// The screen after the first `width` bits of the sprite row `byte` are
/// combined by exclusive or into screen row `y % 32`, starting at column `x`.
#[verifier::opaque]
pub open spec fn xor_row_prefix(grid: Grid, byte: u8, x: int, y: int, width: int) -> Grid {
    let row = y % 32;
    grid.update(row, Seq::new(64, |px: int| grid[row][px] != row_marks(byte, x, width, px)))
}

/// Whether combining the first `width` bits of the sprite row `byte` into
/// screen row `y % 32` turns a lit pixel off.
#[verifier::opaque]
pub open spec fn row_prefix_erases(grid: Grid, byte: u8, x: int, y: int, width: int) -> bool {
    exists|px: int| 0 <= px < 64 && #[trigger] grid[y % 32][px] && row_marks(byte, x, width, px)
}

/// The screen after one whole sprite row is combined into screen row
/// `y % 32`.
pub open spec fn xor_row(grid: Grid, byte: u8, x: int, y: int) -> Grid {
    xor_row_prefix(grid, byte, x, y, 8)
}

/// Whether combining one whole sprite row into screen row `y % 32` turns a
/// lit pixel off.
pub open spec fn row_erases(grid: Grid, byte: u8, x: int, y: int) -> bool {
    row_prefix_erases(grid, byte, x, y, 8)
}

/// Drawing a sprite: its rows are combined into the screen one after the
/// other, row `r` of the sprite into screen row `(y + r) % 32`. The result is
/// the new screen and whether any row turned a lit pixel off.
pub open spec fn draw_sprite(grid: Grid, x: int, y: int, sprite: Seq<u8>) -> (Grid, bool)
    decreases sprite.len(),
{
    if sprite.len() == 0 {
        (grid, false)
    } else {
        let (before, erased) = draw_sprite(grid, x, y, sprite.drop_last());
        let row = y + sprite.len() - 1;
        (
            xor_row(before, sprite.last(), x, row),
            erased || row_erases(before, sprite.last(), x, row),
        )
    }
}

/// The logical grid that a frame buffer shows: a logical pixel is on where
/// the top left physical pixel of its block is lit.
#[verifier::opaque]
pub open spec fn shown_grid(surface: Seq<Seq<u8>>) -> Grid {
    Seq::new(32, |y: int| Seq::new(64, |x: int| surface[5 * y][5 * x] != 0))
}

/// The frame buffer that shows `grid` in `ink`: the logical pixel (`x`, `y`)
/// fills the block of 5 by 5 physical pixels whose top left corner is at
/// (`5 * x`, `5 * y`), with `ink` where it is on and with 0 where it is off.
/// The 40 rows below the 32 rows of blocks stay dark.
pub open spec fn projection(grid: Grid, ink: u8) -> Seq<Seq<u8>> {
    Seq::new(
        200,
        |py: int|
            Seq::new(
                320,
                |px: int|
                    if py < 160 && grid[py / 5][px / 5] {
                        ink
                    } else {
                        0u8
                    },
            ),
    )
}

/// Whether the rows of `surface` below the blocks are dark.
spec fn border_dark(surface: Seq<Seq<u8>>) -> bool {
    forall|px: int, py: int| 0 <= px < 320 && 160 <= py < 200 ==> #[trigger] surface[py][px] == 0
}

/// The physical pixel at offset (`i`, `j`) inside the block that shows the
/// logical pixel (`x`, `y`).
spec fn block_pixel(surface: Seq<Seq<u8>>, x: int, y: int, i: int, j: int) -> u8 {
    surface[5 * y + j][5 * x + i]
}

/// Whether `surface` shows `grid` at five times its size: each of the 25
/// physical pixels of a block holds `ink` where the logical pixel is on, and 0
/// where it is off.
spec fn projects(grid: Grid, ink: u8, surface: Seq<Seq<u8>>) -> bool {
    forall|x: int, y: int, i: int, j: int|
        0 <= x < 64 && 0 <= y < 32 && 0 <= i < 5 && 0 <= j < 5 ==> #[trigger] block_pixel(
            surface,
            x,
            y,
            i,
            j,
        ) == (if grid[y][x] {
            ink
        } else {
            0u8
        })
}

/// Whether the physical pixel (`px`, `py`) lies in the block of the logical
/// pixel (`x`, `y`).
spec fn in_block(px: int, py: int, x: int, y: int) -> bool {
    5 * x <= px < 5 * x + 5 && 5 * y <= py < 5 * y + 5
}

/// A byte combined with itself by exclusive or is 0, and 0 combined with a
/// byte is that byte.
pub proof fn lemma_xor_toggles(ink: u8)
    ensures
        ink ^ ink == 0,
        0u8 ^ ink == ink,
{
    assert(ink ^ ink == 0) by (bit_vector);
    assert(0u8 ^ ink == ink) by (bit_vector);
}

/// Reducing one term of a sum modulo `m` does not change the sum modulo `m`.
pub proof fn lemma_wrapped_sum(a: int, b: int, m: int)
    requires
        m > 0,
    ensures
        (a % m + b) % m == (a + b) % m,
{
    vstd::arithmetic::div_mod::lemma_add_mod_noop(a, b, m);
    vstd::arithmetic::div_mod::lemma_add_mod_noop(a % m, b, m);
    vstd::arithmetic::div_mod::lemma_mod_twice(a, m);
}

/// A sprite row lands on screen row `y % 32`: two targets that agree modulo
/// 32 give the same screen and the same answer.
pub proof fn lemma_same_row(grid: Grid, byte: u8, x: int, y: int, row: int)
    requires
        row == y % 32,
    ensures
        xor_row(grid, byte, x, y) == xor_row(grid, byte, x, row),
        row_erases(grid, byte, x, y) == row_erases(grid, byte, x, row),
{
    reveal(xor_row_prefix);
    reveal(row_prefix_erases);
    assert(row % 32 == row);
}

/// Before any bit of a sprite row is combined, the screen is as it was and
/// nothing has been erased.
pub proof fn lemma_row_start(grid: Grid, byte: u8, x: int, y: int)
    requires
        grid_shaped(grid),
    ensures
        xor_row_prefix(grid, byte, x, y, 0) == grid,
        !row_prefix_erases(grid, byte, x, y, 0),
{
    reveal(xor_row_prefix);
    reveal(row_prefix_erases);
    assert(xor_row_prefix(grid, byte, x, y, 0) =~~= grid);
}

/// Bit `column` of a sprite row falls on screen column `(x + column) % 64`
/// and on no other: with that bit the row marks what it marked without it,
/// and that column too if the bit is set.
pub proof fn lemma_marks_step(byte: u8, x: int, column: int, px: int)
    requires
        0 <= column < 8,
        0 <= px < 64,
    ensures
        row_marks(byte, x, column + 1, px) == (row_marks(byte, x, column, px) || (px == (x
            + column) % 64 && sprite_bit(byte, column))),
        px == (x + column) % 64 ==> !row_marks(byte, x, column, px),
{
    let offset = (px - x) % 64;
    let target = (x + column) % 64;
    if px == target {
        assert(offset == column);
    } else if offset == column {
        assert((x + column) % 64 == px);
    }
}

/// Taking bit `column` of a sprite row into account toggles the pixel at
/// column `(x + column) % 64` if the bit is set, and changes nothing if it is
/// clear.
pub proof fn lemma_row_step(grid: Grid, byte: u8, x: int, y: int, column: int)
    requires
        grid_shaped(grid),
        0 <= column < 8,
    ensures
        ({
            let row = y % 32;
            let px = (x + column) % 64;
            let so_far = xor_row_prefix(grid, byte, x, y, column);
            let next = xor_row_prefix(grid, byte, x, y, column + 1);
            let erased = row_prefix_erases(grid, byte, x, y, column);
            let erased_next = row_prefix_erases(grid, byte, x, y, column + 1);
            &&& so_far[row][px] == grid[row][px]
            &&& sprite_bit(byte, column) ==> next == with_dot(so_far, px, row, !grid[row][px])
            &&& sprite_bit(byte, column) ==> erased_next == (erased || grid[row][px])
            &&& !sprite_bit(byte, column) ==> next == so_far && erased_next == erased
        }),
{
    lemma_row_step_screen(grid, byte, x, y, column);
    lemma_row_step_erased(grid, byte, x, y, column);
}

/// What bit `column` of a sprite row does to the screen.
#[verifier::rlimit(50)]
proof fn lemma_row_step_screen(grid: Grid, byte: u8, x: int, y: int, column: int)
    requires
        grid_shaped(grid),
        0 <= column < 8,
    ensures
        ({
            let row = y % 32;
            let px = (x + column) % 64;
            let so_far = xor_row_prefix(grid, byte, x, y, column);
            let next = xor_row_prefix(grid, byte, x, y, column + 1);
            &&& so_far[row][px] == grid[row][px]
            &&& sprite_bit(byte, column) ==> next == with_dot(so_far, px, row, !grid[row][px])
            &&& !sprite_bit(byte, column) ==> next == so_far
        }),
{
    reveal(xor_row_prefix);
    let row = y % 32;
    let px = (x + column) % 64;
    let so_far = xor_row_prefix(grid, byte, x, y, column);
    let next = xor_row_prefix(grid, byte, x, y, column + 1);
    let toggled = with_dot(so_far, px, row, !grid[row][px]);
    lemma_marks_step(byte, x, column, px);
    assert(so_far[row][px] == grid[row][px]);
    assert forall|other: int| 0 <= other < 64 implies #[trigger] next[row][other] == (
    if sprite_bit(byte, column) {
        toggled[row][other]
    } else {
        so_far[row][other]
    }) by {
        lemma_marks_step(byte, x, column, other);
    }
    if sprite_bit(byte, column) {
        assert(next[row] =~= toggled[row]);
        assert(next =~= toggled);
    } else {
        assert(next[row] =~= so_far[row]);
        assert(next =~= so_far);
    }
}

/// What bit `column` of a sprite row adds to the collisions of its row.
proof fn lemma_row_step_erased(grid: Grid, byte: u8, x: int, y: int, column: int)
    requires
        grid_shaped(grid),
        0 <= column < 8,
    ensures
        row_prefix_erases(grid, byte, x, y, column + 1) == (row_prefix_erases(
            grid,
            byte,
            x,
            y,
            column,
        ) || (sprite_bit(byte, column) && grid[y % 32][(x + column) % 64])),
{
    reveal(row_prefix_erases);
    let row = y % 32;
    let px = (x + column) % 64;
    lemma_marks_step(byte, x, column, px);
    if row_prefix_erases(grid, byte, x, y, column + 1) {
        let at = choose|at: int|
            0 <= at < 64 && #[trigger] grid[row][at] && row_marks(byte, x, column + 1, at);
        lemma_marks_step(byte, x, column, at);
        if at != px {
            assert(grid[row][at] && row_marks(byte, x, column, at));
        }
    }
    if row_prefix_erases(grid, byte, x, y, column) {
        let at = choose|at: int|
            0 <= at < 64 && #[trigger] grid[row][at] && row_marks(byte, x, column, at);
        lemma_marks_step(byte, x, column, at);
        assert(grid[row][at] && row_marks(byte, x, column + 1, at));
    }
    if sprite_bit(byte, column) && grid[row][px] {
        assert(grid[row][px] && row_marks(byte, x, column + 1, px));
    }
}

/// Whether sprite row `r`, drawn with the sprite's corner at (`x`, `y`), sets
/// a bit on the pixel (`px`, `py`).
pub open spec fn row_hits(sprite: Seq<u8>, x: int, y: int, r: int, px: int, py: int) -> bool {
    (y + r) % 32 == py && row_marks(sprite[r], x, 8, px)
}

/// Whether an odd number of the sprite's rows set a bit on the pixel
/// (`px`, `py`). Rows more than 32 apart fall on the same screen row.
pub open spec fn hits_odd(sprite: Seq<u8>, x: int, y: int, px: int, py: int) -> bool
    decreases sprite.len(),
{
    if sprite.len() == 0 {
        false
    } else {
        hits_odd(sprite.drop_last(), x, y, px, py) != row_hits(
            sprite,
            x,
            y,
            sprite.len() - 1,
            px,
            py,
        )
    }
}

/// Combining a sprite row into the screen toggles exactly the pixels of
/// screen row `y % 32` on which the row sets a bit.
pub proof fn lemma_xor_row_pixels(grid: Grid, byte: u8, x: int, y: int)
    requires
        grid_shaped(grid),
    ensures
        grid_shaped(xor_row(grid, byte, x, y)),
        forall|px: int, py: int|
            0 <= px < 64 && 0 <= py < 32 ==> #[trigger] xor_row(grid, byte, x, y)[py][px] == (
            grid[py][px] != (py == y % 32 && row_marks(byte, x, 8, px))),
{
    reveal(xor_row_prefix);
}

/// Drawing a sprite toggles exactly the pixels on which an odd number of its
/// rows set a bit.
pub proof fn lemma_draw_pixels(grid: Grid, x: int, y: int, sprite: Seq<u8>)
    requires
        grid_shaped(grid),
    ensures
        grid_shaped(draw_sprite(grid, x, y, sprite).0),
        forall|px: int, py: int|
            0 <= px < 64 && 0 <= py < 32 ==> #[trigger] draw_sprite(grid, x, y, sprite).0[py][px]
                == (grid[py][px] != hits_odd(sprite, x, y, px, py)),
    decreases sprite.len(),
{
    if sprite.len() > 0 {
        let before = draw_sprite(grid, x, y, sprite.drop_last()).0;
        lemma_draw_pixels(grid, x, y, sprite.drop_last());
        lemma_xor_row_pixels(before, sprite.last(), x, y + sprite.len() - 1);
        assert forall|px: int, py: int| 0 <= px < 64 && 0 <= py < 32 implies #[trigger] draw_sprite(
            grid,
            x,
            y,
            sprite,
        ).0[py][px] == (grid[py][px] != hits_odd(sprite, x, y, px, py)) by {
            assert(before[py][px] == (grid[py][px] != hits_odd(
                sprite.drop_last(),
                x,
                y,
                px,
                py,
            )));
        }
    }
}

/// Drawing the same sprite at the same place twice, with nothing drawn or
/// cleared in between, leaves the screen exactly as it was before the first
/// draw: exclusive or is its own inverse.
pub proof fn lemma_draw_twice_restores(grid: Grid, x: int, y: int, sprite: Seq<u8>)
    requires
        grid_shaped(grid),
    ensures
        draw_sprite(draw_sprite(grid, x, y, sprite).0, x, y, sprite).0 == grid,
{
    let once = draw_sprite(grid, x, y, sprite).0;
    let twice = draw_sprite(once, x, y, sprite).0;
    lemma_draw_pixels(grid, x, y, sprite);
    lemma_draw_pixels(once, x, y, sprite);
    assert forall|px: int, py: int| 0 <= px < 64 && 0 <= py < 32 implies twice[py][px]
        == grid[py][px] by {
        assert(once[py][px] == (grid[py][px] != hits_odd(sprite, x, y, px, py)));
    }
    assert(twice =~~= grid);
}

/// A collision while the first `rows` rows of a sprite are drawn is a
/// collision of the whole draw.
proof fn lemma_collision_stays(grid: Grid, x: int, y: int, sprite: Seq<u8>, rows: int)
    requires
        0 <= rows <= sprite.len(),
        draw_sprite(grid, x, y, sprite.take(rows)).1,
    ensures
        draw_sprite(grid, x, y, sprite).1,
    decreases sprite.len(),
{
    if rows == sprite.len() {
        assert(sprite.take(rows) =~= sprite);
    } else {
        assert(sprite.drop_last().take(rows) =~= sprite.take(rows));
        lemma_collision_stays(grid, x, y, sprite.drop_last(), rows);
    }
}

/// Among the first `rows` rows of a sprite, of which row `r` hits a pixel,
/// there is a last one that hits it.
proof fn lemma_last_hit(sprite: Seq<u8>, x: int, y: int, px: int, py: int, rows: int, r: int) -> (last:
    int)
    requires
        0 <= r < rows <= sprite.len(),
        row_hits(sprite, x, y, r, px, py),
    ensures
        r <= last < rows,
        row_hits(sprite, x, y, last, px, py),
        forall|k: int| last < k < rows ==> !row_hits(sprite, x, y, k, px, py),
    decreases rows,
{
    if row_hits(sprite, x, y, rows - 1, px, py) {
        rows - 1
    } else {
        lemma_last_hit(sprite, x, y, px, py, rows - 1, r)
    }
}

/// Rows that do not hit a pixel do not change whether an odd number of rows
/// hit it.
proof fn lemma_hits_odd_unchanged(
    sprite: Seq<u8>,
    x: int,
    y: int,
    px: int,
    py: int,
    from: int,
    rows: int,
)
    requires
        0 <= from <= rows <= sprite.len(),
        forall|k: int| from <= k < rows ==> !row_hits(sprite, x, y, k, px, py),
    ensures
        hits_odd(sprite.take(rows), x, y, px, py) == hits_odd(sprite.take(from), x, y, px, py),
    decreases rows - from,
{
    if from < rows {
        let taken = sprite.take(rows);
        assert(taken.drop_last() =~= sprite.take(rows - 1));
        assert(taken.last() == sprite[rows - 1]);
        assert(row_hits(taken, x, y, rows - 1, px, py) == row_hits(sprite, x, y, rows - 1, px, py));
        lemma_hits_odd_unchanged(sprite, x, y, px, py, from, rows - 1);
    }
}

/// Where a set bit of the sprite falls on a pixel that is off, drawing the
/// sprite a second time at the same place reports a collision: the second
/// draw turns off what the first one lit.
pub proof fn lemma_second_draw_collides(
    grid: Grid,
    x: int,
    y: int,
    sprite: Seq<u8>,
    row: int,
    column: int,
)
    requires
        grid_shaped(grid),
        0 <= row < sprite.len(),
        0 <= column < 8,
        sprite_bit(sprite[row], column),
        !grid[(y + row) % 32][(x + column) % 64],
    ensures
        draw_sprite(draw_sprite(grid, x, y, sprite).0, x, y, sprite).1,
{
    let px = (x + column) % 64;
    let py = (y + row) % 32;
    let rows = sprite.len() as int;
    let once = draw_sprite(grid, x, y, sprite).0;
    assert((px - x) % 64 == column);
    assert(row_hits(sprite, x, y, row, px, py));
    let last = lemma_last_hit(sprite, x, y, px, py, rows, row);
    // An odd number of rows up to and with the last one hit the pixel
    // exactly if an even number of rows before it do.
    lemma_hits_odd_unchanged(sprite, x, y, px, py, last + 1, rows);
    assert(sprite.take(rows) =~= sprite);
    let upto = sprite.take(last + 1);
    assert(upto.drop_last() =~= sprite.take(last));
    assert(upto.last() == sprite[last]);
    assert(row_hits(upto, x, y, last, px, py) == row_hits(sprite, x, y, last, px, py));
    assert(hits_odd(sprite, x, y, px, py) == !hits_odd(sprite.take(last), x, y, px, py));
    // So the pixel is lit when the second draw comes to that row.
    lemma_draw_pixels(grid, x, y, sprite);
    let before = draw_sprite(once, x, y, sprite.take(last)).0;
    lemma_draw_pixels(once, x, y, sprite.take(last));
    assert(once[py][px] == (grid[py][px] != hits_odd(sprite, x, y, px, py)));
    assert(before[py][px] == (once[py][px] != hits_odd(sprite.take(last), x, y, px, py)));
    assert(before[py][px]);
    assert(row_erases(before, sprite[last], x, y + last)) by {
        reveal(row_prefix_erases);
        assert(before[(y + last) % 32][px] && row_marks(sprite[last], x, 8, px));
    }
    assert(draw_sprite(once, x, y, upto).1);
    lemma_collision_stays(once, x, y, sprite, last + 1);
}

/// Whether bit `column` of the sprite row `byte` is set, counted from the
/// most significant bit.
pub fn bit_at(byte: u8, column: usize) -> (set: bool)
    requires
        column < 8,
    ensures
        set == sprite_bit(byte, column as int),
{
    let shift: u8 = 7 - column as u8;
    (byte >> shift) & 0x01 == 1
}

/// The screen: a monochrome grid of 64 by 32 pixels, kept on a frame buffer
/// on which every logical pixel is a block of 5 by 5 physical pixels.
///
/// The view of a display is its logical grid. The frame buffer holds the pixel
/// state; the grid is read off the top left corner of each block.
pub struct Display {
    color: Color,
    writer: Writer,
}

impl View for Display {
    type V = Grid;

    open spec fn view(&self) -> Grid {
        shown_grid(self.surface())
    }
}

impl Display {
    /// The physical pixels of the frame buffer, row by row.
    pub closed spec fn surface(&self) -> Seq<Seq<u8>> {
        self.writer@
    }

    /// The foreground colour.
    pub closed spec fn color(&self) -> Color {
        self.color
    }

    /// The byte that a lit physical pixel holds.
    pub open spec fn ink(&self) -> u8 {
        self.color().palette_index()
    }

    /// A display is well formed when its foreground colour differs from the
    /// black background and the frame buffer shows the logical grid and
    /// nothing else: every block is of one colour, the foreground or black,
    /// and the rows below the blocks are dark.
    #[verifier::opaque]
    pub closed spec fn wf(&self) -> bool {
        &&& self.writer.wf()
        &&& self.color != Color::Black
        &&& projects(self@, self.ink(), self.writer@)
        &&& border_dark(self.writer@)
    }

    /// What well-formedness means: the foreground can be told from the
    /// background, the grid has its size, and the frame buffer is the
    /// projection of the grid.
    pub proof fn lemma_wf(&self)
        requires
            self.wf(),
        ensures
            self.color() != Color::Black,
            self.ink() != 0,
            grid_shaped(self@),
            self.surface() == projection(self@, self.ink()),
    {
        reveal(Display::wf);
        reveal(shown_grid);
        self.writer.lemma_shaped();
        let surface = self.writer@;
        let shown = projection(self@, self.ink());
        assert forall|px: int, py: int| 0 <= px < 320 && 0 <= py < 200 implies surface[py][px]
            == shown[py][px] by {
            if py < 160 {
                assert(block_pixel(surface, px / 5, py / 5, px % 5, py % 5) == surface[py][px]);
            }
        }
        assert(surface =~~= shown);
    }

    /// Creates a new display with the given foreground color. Its frame buffer
    /// starts dark, so every logical pixel is off. The display is well formed
    /// unless the foreground is black, which could not be told from the
    /// background.
    pub fn new(color: Color) -> (display: Display)
        ensures
            display.color() == color,
            display@ == blank_grid(),
            color != Color::Black ==> display.wf(),
    {
        let display = Display { color, writer: Writer::new() };
        proof {
            reveal(Display::wf);
            reveal(shown_grid);
        }
        assert(display@ =~~= blank_grid());
        display
    }

    /// Whether the logical pixel at column `x` of row `y` is on.
    pub fn pixel(&self, x: usize, y: usize) -> (on: bool)
        requires
            self.wf(),
            x < 64,
            y < 32,
        ensures
            on == self@[y as int][x as int],
    {
        proof {
            reveal(Display::wf);
            reveal(shown_grid);
        }
        self.writer.read_byte((x * MULTIPLIER) as u16, (y * MULTIPLIER) as u16) != 0
    }

    /// The frame buffer that shows this display.
    pub fn writer(&self) -> (writer: &Writer)
        ensures
            writer@ == self.surface(),
    {
        &self.writer
    }

    /// Clears the screen
    pub fn clear(&mut self)
        requires
            old(self).wf(),
        ensures
            final(self).wf(),
            final(self).color() == old(self).color(),
            final(self)@ == blank_grid(),
    {
        proof {
            self.lemma_wf();
        }
        let mut i: usize = 0;
        while i < WIDTH
            invariant
                i <= 64,
                self.wf(),
                self.color == old(self).color,
                grid_shaped(self@),
                forall|x: int, y: int| 0 <= x < i && 0 <= y < 32 ==> !(#[trigger] self@[y][x]),
            decreases 64 - i,
        {
            let mut j: usize = 0;
            while j < HEIGHT
                invariant
                    i < 64,
                    j <= 32,
                    self.wf(),
                    self.color == old(self).color,
                    grid_shaped(self@),
                    forall|x: int, y: int|
                        0 <= x < 64 && 0 <= y < 32 && (x < i || (x == i && y < j)) ==> !(
                        #[trigger] self@[y][x]),
                decreases 32 - j,
            {
                self.set_pixel(i, j, Color::Black);
                proof {
                    self.lemma_wf();
                }
                j = j + 1;
            }
            i = i + 1;
        }
        assert(self@ =~~= blank_grid());
    }

    /// Draws a sprite to the given x,y coordinates
    ///
    /// Each byte of `sprite` is one row of eight pixels, the most significant
    /// bit leftmost. The rows are combined into the screen by exclusive or,
    /// row `r` into screen row `(y + r) % 32` from column `x % 64` on, and
    /// columns past the right edge continue at the left edge. The result is
    /// true if any pixel that was on has been turned off.
    pub fn draw(&mut self, x: usize, y: usize, sprite: &[u8]) -> (collision: bool)
        requires
            old(self).wf(),
        ensures
            final(self).wf(),
            final(self).color() == old(self).color(),
            final(self)@ == draw_sprite(old(self)@, x as int, y as int, sprite@).0,
            collision == draw_sprite(old(self)@, x as int, y as int, sprite@).1,
    {
        let mut collision = false;
        let mut row: usize = 0;
        assert(sprite@.take(0) =~= Seq::<u8>::empty());
        while row < sprite.len()
            invariant
                row <= sprite.len(),
                self.wf(),
                self.color == old(self).color,
                self@ == draw_sprite(old(self)@, x as int, y as int, sprite@.take(row as int)).0,
                collision == draw_sprite(
                    old(self)@,
                    x as int,
                    y as int,
                    sprite@.take(row as int),
                ).1,
            decreases sprite.len() - row,
        {
            let row_bytes = sprite[row];
            let real_y = (y % HEIGHT + row % HEIGHT) % HEIGHT;
            proof {
                let taken = sprite@.take(row as int + 1);
                assert(taken.drop_last() =~= sprite@.take(row as int));
                assert(taken.last() == row_bytes);
                lemma_wrapped_sum(y as int, row as int, 32);
                lemma_wrapped_sum(row as int, y as int % 32, 32);
                lemma_same_row(self@, row_bytes, x as int, y as int + row as int, real_y as int);
            }
            let hit = self.draw_row(x, real_y, row_bytes);
            collision = collision || hit;
            row = row + 1;
        }
        assert(sprite@.take(row as int) =~= sprite@);
        collision
    }

    /// Combines one sprite row into screen row `y`, bit by bit, and reports
    /// whether a lit pixel went off.
    fn draw_row(&mut self, x: usize, y: usize, row_bytes: u8) -> (collision: bool)
        requires
            old(self).wf(),
            y < 32,
        ensures
            final(self).wf(),
            final(self).color() == old(self).color(),
            final(self)@ == xor_row(old(self)@, row_bytes, x as int, y as int),
            collision == row_erases(old(self)@, row_bytes, x as int, y as int),
    {
        let mut collision = false;
        let ghost before = self@;
        proof {
            self.lemma_wf();
            lemma_row_start(before, row_bytes, x as int, y as int);
        }
        let mut column: usize = 0;
        while column < 8
            invariant
                column <= 8,
                y < 32,
                self.wf(),
                self.color == old(self).color,
                grid_shaped(before),
                self@ == xor_row_prefix(before, row_bytes, x as int, y as int, column as int),
                collision == row_prefix_erases(
                    before,
                    row_bytes,
                    x as int,
                    y as int,
                    column as int,
                ),
            decreases 8 - column,
        {
            let real_x = (x % WIDTH + column) % WIDTH;
            proof {
                lemma_wrapped_sum(x as int, column as int, 64);
                lemma_row_step(before, row_bytes, x as int, y as int, column as int);
            }
            if bit_at(row_bytes, column) {
                let hit = self.xor_pixel(real_x, y, self.color);
                collision = collision || hit;
            }
            column = column + 1;
        }
        collision
    }

    /// Paints the whole block of the logical pixel (`x`, `y`) in `color`,
    /// which is the foreground colour or black.
    #[verifier::rlimit(50)]
    fn set_pixel(&mut self, x: usize, y: usize, color: Color)
        requires
            old(self).wf(),
            x < 64,
            y < 32,
            color == Color::Black || color == old(self).color(),
        ensures
            final(self).wf(),
            final(self).color() == old(self).color(),
            final(self)@ == with_dot(old(self)@, x as int, y as int, color != Color::Black),
    {
        let byte = color.to_byte();
        let ghost before = self.writer@;
        proof {
            reveal(Display::wf);
            reveal(shown_grid);
            self.writer.lemma_shaped();
        }
        let mut i: usize = 0;
        while i < MULTIPLIER
            invariant
                i <= 5,
                x < 64,
                y < 32,
                self.writer.wf(),
                self.color == old(self).color,
                surface_shaped(before),
                forall|px: int, py: int|
                    0 <= px < 320 && 0 <= py < 200 ==> #[trigger] self.writer@[py][px] == (
                    if in_block(px, py, x as int, y as int) && px - 5 * x < i {
                        byte
                    } else {
                        before[py][px]
                    }),
            decreases 5 - i,
        {
            let mut j: usize = 0;
            while j < MULTIPLIER
                invariant
                    i < 5,
                    j <= 5,
                    x < 64,
                    y < 32,
                    self.writer.wf(),
                    self.color == old(self).color,
                    surface_shaped(before),
                    forall|px: int, py: int|
                        0 <= px < 320 && 0 <= py < 200 ==> #[trigger] self.writer@[py][px] == (
                        if in_block(px, py, x as int, y as int) && (px - 5 * x < i || (px - 5 * x
                            == i && py - 5 * y < j)) {
                            byte
                        } else {
                            before[py][px]
                        }),
                decreases 5 - j,
            {
                proof {
                    self.writer.lemma_shaped();
                }
                self.writer.write_byte(
                    (x * MULTIPLIER + i) as u16,
                    (y * MULTIPLIER + j) as u16,
                    byte,
                );
                proof {
                    self.writer.lemma_shaped();
                }
                j = j + 1;
            }
            i = i + 1;
        }
        proof {
            self.writer.lemma_shaped();
            let after = self.writer@;
            assert(border_dark(after)) by {
                assert forall|px: int, py: int| 0 <= px < 320 && 160 <= py < 200 implies #[trigger] after[py][px]
                    == 0 by {
                    assert(!in_block(px, py, x as int, y as int));
                    assert(before[py][px] == 0);
                }
            }
            let painted = with_dot(old(self)@, x as int, y as int, color != Color::Black);
            assert forall|gx: int, gy: int| 0 <= gx < 64 && 0 <= gy < 32 implies self@[gy][gx]
                == painted[gy][gx] by {
                assert(after[5 * gy][5 * gx] == self.writer@[5 * gy][5 * gx]);
                if gx == x && gy == y {
                    assert(in_block(5 * gx, 5 * gy, x as int, y as int));
                } else {
                    assert(!in_block(5 * gx, 5 * gy, x as int, y as int));
                }
            }
            assert(self@ =~~= painted);
            assert forall|gx: int, gy: int, a: int, b: int|
                0 <= gx < 64 && 0 <= gy < 32 && 0 <= a < 5 && 0 <= b < 5 implies #[trigger] block_pixel(
                after,
                gx,
                gy,
                a,
                b,
            ) == (if self@[gy][gx] {
                self.ink()
            } else {
                0u8
            }) by {
                assert(after[5 * gy + b][5 * gx + a] == self.writer@[5 * gy + b][5 * gx + a]);
                assert(block_pixel(before, gx, gy, a, b) == (if old(self)@[gy][gx] {
                    self.ink()
                } else {
                    0u8
                }));
                if gx == x && gy == y {
                    assert(in_block(5 * gx + a, 5 * gy + b, x as int, y as int));
                } else {
                    assert(!in_block(5 * gx + a, 5 * gy + b, x as int, y as int));
                }
            }
        }
    }

    /// Toggles the logical pixel (`x`, `y`) by combining `color` into each
    /// physical pixel of its block, and reports whether the pixel was on.
    #[verifier::rlimit(50)]
    fn xor_pixel(&mut self, x: usize, y: usize, color: Color) -> (collision: bool)
        requires
            old(self).wf(),
            x < 64,
            y < 32,
            color == old(self).color(),
        ensures
            final(self).wf(),
            final(self).color() == old(self).color(),
            final(self)@ == with_dot(old(self)@, x as int, y as int, !old(self)@[y as int][x as int]),
            collision == old(self)@[y as int][x as int],
    {
        let mut collision = false;
        let ink = color.to_byte();
        let ghost before = self.writer@;
        let ghost lit = self@[y as int][x as int];
        proof {
            reveal(Display::wf);
            reveal(shown_grid);
            self.writer.lemma_shaped();
            lemma_xor_toggles(ink);
        }
        let mut i: usize = 0;
        while i < MULTIPLIER
            invariant
                i <= 5,
                x < 64,
                y < 32,
                self.writer.wf(),
                self.color == old(self).color,
                surface_shaped(before),
                forall|px: int, py: int|
                    0 <= px < 320 && 0 <= py < 200 ==> #[trigger] self.writer@[py][px] == (
                    if in_block(px, py, x as int, y as int) && px - 5 * x < i {
                        before[py][px] ^ ink
                    } else {
                        before[py][px]
                    }),
                forall|a: int, b: int|
                    0 <= a < 5 && 0 <= b < 5 ==> (#[trigger] block_pixel(
                        before,
                        x as int,
                        y as int,
                        a,
                        b,
                    ) != 0) == lit,
                collision == (i > 0 && lit),
            decreases 5 - i,
        {
            let mut j: usize = 0;
            while j < MULTIPLIER
                invariant
                    i < 5,
                    j <= 5,
                    x < 64,
                    y < 32,
                    self.writer.wf(),
                    self.color == old(self).color,
                    surface_shaped(before),
                    forall|px: int, py: int|
                        0 <= px < 320 && 0 <= py < 200 ==> #[trigger] self.writer@[py][px] == (
                        if in_block(px, py, x as int, y as int) && (px - 5 * x < i || (px - 5 * x
                            == i && py - 5 * y < j)) {
                            before[py][px] ^ ink
                        } else {
                            before[py][px]
                        }),
                    forall|a: int, b: int|
                        0 <= a < 5 && 0 <= b < 5 ==> (#[trigger] block_pixel(
                            before,
                            x as int,
                            y as int,
                            a,
                            b,
                        ) != 0) == lit,
                    collision == ((i > 0 || j > 0) && lit),
                decreases 5 - j,
            {
                proof {
                    self.writer.lemma_shaped();
                    assert(block_pixel(before, x as int, y as int, i as int, j as int)
                        == before[5 * y + j][5 * x + i]);
                }
                let hit = self.writer.xor_byte(
                    (x * MULTIPLIER + i) as u16,
                    (y * MULTIPLIER + j) as u16,
                    ink,
                );
                collision = collision || hit;
                proof {
                    self.writer.lemma_shaped();
                }
                j = j + 1;
            }
            i = i + 1;
        }
        proof {
            self.writer.lemma_shaped();
            let after = self.writer@;
            assert(border_dark(after)) by {
                assert forall|px: int, py: int| 0 <= px < 320 && 160 <= py < 200 implies #[trigger] after[py][px]
                    == 0 by {
                    assert(!in_block(px, py, x as int, y as int));
                    assert(before[py][px] == 0);
                }
            }
            let toggled = with_dot(old(self)@, x as int, y as int, !lit);
            assert forall|gx: int, gy: int| 0 <= gx < 64 && 0 <= gy < 32 implies self@[gy][gx]
                == toggled[gy][gx] by {
                assert(after[5 * gy][5 * gx] == self.writer@[5 * gy][5 * gx]);
                if gx == x && gy == y {
                    assert(block_pixel(before, x as int, y as int, 0, 0) == before[5 * y][5 * x]);
                    assert(block_pixel(before, gx, gy, 0, 0) == (if old(self)@[gy][gx] {
                        ink
                    } else {
                        0u8
                    }));
                } else {
                    assert(!in_block(5 * gx, 5 * gy, x as int, y as int));
                }
            }
            assert(self@ =~~= toggled);
            assert forall|gx: int, gy: int, a: int, b: int|
                0 <= gx < 64 && 0 <= gy < 32 && 0 <= a < 5 && 0 <= b < 5 implies #[trigger] block_pixel(
                after,
                gx,
                gy,
                a,
                b,
            ) == (if self@[gy][gx] {
                ink
            } else {
                0u8
            }) by {
                assert(after[5 * gy + b][5 * gx + a] == self.writer@[5 * gy + b][5 * gx + a]);
                assert(block_pixel(before, gx, gy, a, b) == (if old(self)@[gy][gx] {
                    ink
                } else {
                    0u8
                }));
                if gx == x && gy == y {
                    assert(in_block(5 * gx + a, 5 * gy + b, x as int, y as int));
                } else {
                    assert(!in_block(5 * gx + a, 5 * gy + b, x as int, y as int));
                }
            }
        }
        collision
    }
}

/// The built-in sprites of the sixteen hexadecimal digits, five bytes each,
/// digit `d` at offset `5 * d`.
pub const FONT: [u8; 80] = [
    0xF0, 0x90, 0x90, 0x90, 0xF0, // 0
    0x20, 0x60, 0x20, 0x20, 0x70, // 1
    0xF0, 0x10, 0xF0, 0x80, 0xF0, // 2
    0xF0, 0x10, 0xF0, 0x10, 0xF0, // 3
    0x90, 0x90, 0xF0, 0x10, 0x10, // 4
    0xF0, 0x80, 0xF0, 0x10, 0xF0, // 5
    0xF0, 0x80, 0xF0, 0x90, 0xF0, // 6
    0xF0, 0x10, 0x20, 0x40, 0x40, // 7
    0xF0, 0x90, 0xF0, 0x90, 0xF0, // 8
    0xF0, 0x90, 0xF0, 0x10, 0xF0, // 9
    0xF0, 0x90, 0xF0, 0x90, 0x90, // A
    0xE0, 0x90, 0xE0, 0x90, 0xE0, // B
    0xF0, 0x80, 0x80, 0x80, 0xF0, // C
    0xE0, 0x90, 0x90, 0x90, 0xE0, // D
    0xF0, 0x80, 0xF0, 0x80, 0xF0, // E
    0xF0, 0x80, 0xF0, 0x80, 0x80, // F
];

} // verus!
