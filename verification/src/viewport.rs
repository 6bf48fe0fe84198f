//! A rectangular window over the lattice: what a host looks at, draws as
//! text, and scatters its first cells around.

use crate::grid::LifeGrid;
use vstd::prelude::*;
use vstd::string::StringExecFns;

verus! {

/// A window whose corner with the smallest coordinates is `(x, y)` and which
/// spans `width` columns and `height` rows. A width or height below one
/// spans nothing.
#[derive(Clone, Copy, Debug, PartialEq, Eq, Structural)]
pub struct Window {
    pub x: i32,
    pub y: i32,
    pub width: i32,
    pub height: i32,
}

/// The number of dashes in the line that closes a picture.
pub const SEPARATOR_WIDTH: usize = 66;

/// The character that shows the cell at `(x, y)`.
pub open spec fn glyph(alive: Set<(int, int)>, x: int, y: int) -> char {
    if alive.contains((x, y)) {
        'X'
    } else {
        ' '
    }
}

/// The first `n` glyphs of row `y`, from column `x` on.
pub open spec fn glyphs(alive: Set<(int, int)>, x: int, y: int, n: nat) -> Seq<char> {
    Seq::new(n, |i: int| glyph(alive, x + i, y))
}

/// The first `n` rows of `window`, each followed by a line break.
pub open spec fn rows(alive: Set<(int, int)>, window: Window, n: nat) -> Seq<char>
    decreases n,
{
    if n == 0 {
        Seq::empty()
    } else {
        rows(alive, window, (n - 1) as nat) + glyphs(
            alive,
            window.x as int,
            window.y + n - 1,
            window.spec_columns(),
        ).push('\n')
    }
}

/// The line that closes a picture.
pub open spec fn separator() -> Seq<char> {
    Seq::new(SEPARATOR_WIDTH as nat, |i: int| '-').push('\n')
}

/// The picture of `alive` through `window`: its rows from the smallest `y`
/// to the largest, then the separator.
pub open spec fn picture(alive: Set<(int, int)>, window: Window) -> Seq<char> {
    rows(alive, window, window.spec_rows()) + separator()
}

/// A 32-bit number read as a signed one: values from 2^31 on stand for
/// negative numbers.
pub open spec fn reinterpreted(r: u32) -> int {
    if r < 0x8000_0000 {
        r as int
    } else {
        r - 0x1_0000_0000
    }
}

/// The remainder of the division of `a` by `b` that rounds towards zero:
/// the remainder of the magnitudes, with the sign of `a`.
pub open spec fn truncated_rem(a: int, b: int) -> int {
    let m = if b < 0 {
        -b
    } else {
        b
    };
    if a >= 0 {
        a % m
    } else {
        -((-a) % m)
    }
}

/// The largest distance from the origin at which a raw number can land
/// along an axis of extent `extent`: one less than its magnitude.
pub open spec fn reach(extent: i32) -> int {
    if extent < 0 {
        -extent - 1
    } else {
        extent - 1
    }
}

/// How far from `origin` a raw number `r` lands along an axis of extent
/// `extent`.
pub open spec fn landing(origin: i32, extent: i32, r: u32) -> int {
    origin + truncated_rem(reinterpreted(r), extent as int)
}

impl Window {
    /// The window with origin `(x, y)` that spans `width` columns and
    /// `height` rows.
    pub fn new(x: i32, y: i32, width: i32, height: i32) -> (window: Window)
        ensures
            window == (Window { x, y, width, height }),
    {
        Window { x, y, width, height }
    }

    /// The number of columns that the window spans.
    pub open spec fn spec_columns(self) -> nat {
        if self.width > 0 {
            self.width as nat
        } else {
            0
        }
    }

    /// The number of rows that the window spans.
    pub open spec fn spec_rows(self) -> nat {
        if self.height > 0 {
            self.height as nat
        } else {
            0
        }
    }

    /// Whether the raw numbers `rx` and `ry` land on a cell: neither extent
    /// is zero, and the landing point has coordinates in the range of `i32`.
    pub open spec fn lands(self, rx: u32, ry: u32) -> bool {
        &&& self.width != 0
        &&& self.height != 0
        &&& i32::MIN <= landing(self.x, self.width, rx) <= i32::MAX
        &&& i32::MIN <= landing(self.y, self.height, ry) <= i32::MAX
    }

    /// Whether every pair of raw numbers lands on a cell: neither extent is
    /// zero, and the cells up to `reach` away from the origin along each
    /// axis have coordinates in the range of `i32`.
    pub open spec fn spec_can_scatter(&self) -> bool {
        &&& self.width != 0
        &&& self.height != 0
        &&& i32::MIN <= self.x - reach(self.width)
        &&& self.x + reach(self.width) <= i32::MAX
        &&& i32::MIN <= self.y - reach(self.height)
        &&& self.y + reach(self.height) <= i32::MAX
    }

    /// Whether every pair of raw numbers lands on a cell.
    #[verifier::when_used_as_spec(spec_can_scatter)]
    pub fn can_scatter(&self) -> (b: bool)
        ensures
            b == self.spec_can_scatter(),
    {
        if self.width == 0 || self.height == 0 {
            return false;
        }
        let rx: i64 = magnitude(self.width) - 1;
        let ry: i64 = magnitude(self.height) - 1;
        let x: i64 = self.x as i64;
        let y: i64 = self.y as i64;
        -0x8000_0000 <= x - rx && x + rx <= 0x7fff_ffff && -0x8000_0000 <= y - ry && y + ry
            <= 0x7fff_ffff
    }

    /// A window that can scatter lets every pair of raw numbers land, within
    /// its reach of the origin.
    pub proof fn lemma_scatter_lands(self, rx: u32, ry: u32)
        requires
            self.spec_can_scatter(),
        ensures
            self.lands(rx, ry),
            self.x - reach(self.width) <= landing(self.x, self.width, rx) <= self.x + reach(
                self.width,
            ),
            self.y - reach(self.height) <= landing(self.y, self.height, ry) <= self.y + reach(
                self.height,
            ),
    {
    }

    /// The cell on which the raw numbers `rx` and `ry` land: along each axis
    /// the origin plus the remainder of the number, read as signed, by the
    /// extent.
    pub fn scatter(&self, rx: u32, ry: u32) -> (cell: (i32, i32))
        requires
            self.lands(rx, ry),
        ensures
            cell.0 == landing(self.x, self.width, rx),
            cell.1 == landing(self.y, self.height, ry),
    {
        let dx: i64 = remainder(reinterpret(rx), self.width);
        let dy: i64 = remainder(reinterpret(ry), self.height);
        ((self.x as i64 + dx) as i32, (self.y as i64 + dy) as i32)
    }

    /// The picture of `grid` through the window, as text.
    pub fn render(&self, grid: &LifeGrid) -> (text: String)
        ensures
            text@ == picture(grid@, *self),
    {
        let mut text = String::new();
        let mut row: i64 = 0;
        while row < self.height as i64
            invariant
                0 <= row,
                row <= self.spec_rows(),
                text@ == rows(grid@, *self, row as nat),
            decreases self.height - row,
        {
            let ghost before = text@;
            let mut column: i64 = 0;
            while column < self.width as i64
                invariant
                    0 <= column,
                    column <= self.spec_columns(),
                    0 <= row < self.height,
                    text@ == before + glyphs(grid@, self.x as int, self.y + row, column as nat),
                decreases self.width - column,
            {
                let ghost so_far = glyphs(grid@, self.x as int, self.y + row, column as nat);
                if grid.alive_at(self.x as i64 + column, self.y as i64 + row) {
                    proof {
                        reveal_strlit("X");
                    }
                    text.append("X");
                    assert("X"@ =~= seq!['X']);
                } else {
                    proof {
                        reveal_strlit(" ");
                    }
                    text.append(" ");
                    assert(" "@ =~= seq![' ']);
                }
                column += 1;
                assert(glyphs(grid@, self.x as int, self.y + row, column as nat) =~= so_far.push(
                    glyph(grid@, self.x + column - 1, self.y + row),
                ));
                assert(text@ =~= before + glyphs(
                    grid@,
                    self.x as int,
                    self.y + row,
                    column as nat,
                ));
            }
            proof {
                reveal_strlit("\n");
            }
            text.append("\n");
            row += 1;
            assert("\n"@ =~= seq!['\n']);
            assert(text@ =~= rows(grid@, *self, row as nat));
        }
        proof {
            reveal_strlit("------------------------------------------------------------------\n");
        }
        text.append("------------------------------------------------------------------\n");
        assert("------------------------------------------------------------------\n"@
            =~= separator());
        text
    }
}

/// The magnitude of `b`.
fn magnitude(b: i32) -> (m: i64)
    ensures
        m == reach(b) + 1,
{
    if b < 0 {
        -(b as i64)
    } else {
        b as i64
    }
}

/// The remainder of `a` by `b` that rounds towards zero, taken on the
/// magnitudes so that no operand is negative.
fn remainder(a: i32, b: i32) -> (r: i64)
    requires
        b != 0,
    ensures
        r == truncated_rem(a as int, b as int),
        -reach(b) <= r <= reach(b),
{
    let m: i64 = magnitude(b);
    if a >= 0 {
        a as i64 % m
    } else {
        -((-(a as i64)) % m)
    }
}

/// Reads a 32-bit number as a signed one.
fn reinterpret(r: u32) -> (s: i32)
    ensures
        s == reinterpreted(r),
{
    if r < 0x8000_0000 {
        r as i32
    } else {
        (r as i64 - 0x1_0000_0000) as i32
    }
}

} // verus!
