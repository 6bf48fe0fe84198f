//! What a host does with the grid besides stepping it: the first, random
//! cells, and the changes that one frame of input asks for.

use crate::grid::LifeGrid;
use crate::rule::{next_generation, point, steppable};
use crate::viewport::{landing, Window};
use vstd::prelude::*;

verus! {

/// What the host saw during one frame.
#[derive(Clone, Copy, Debug)]
pub struct Input {
    /// Leave the loop; nothing else of this frame is then looked at.
    pub quit: bool,
    /// Advance the grid by one generation.
    pub advance: bool,
    /// Move the window towards smaller `y`.
    pub up: bool,
    /// Move the window towards larger `y`.
    pub down: bool,
    /// Move the window towards smaller `x`.
    pub left: bool,
    /// Move the window towards larger `x`.
    pub right: bool,
    /// Make every cell dead.
    pub reset: bool,
    /// The cell under the pointer while its button is held, as the column
    /// and row counted from the window's origin.
    pub pointer: Option<(i32, i32)>,
}

/// The origin of the window after the moves that `input` asks for.
pub open spec fn panned(window: Window, input: Input) -> (int, int) {
    (
        window.x - (if input.left { 1int } else { 0 }) + (if input.right { 1int } else { 0 }),
        window.y - (if input.up { 1int } else { 0 }) + (if input.down { 1int } else { 0 }),
    )
}

/// The alive cells after a frame that goes on: the step, if asked for, comes
/// first, then the reset, then the cell under the pointer, which is found
/// from the origin of the window as already moved.
pub open spec fn after_frame(alive: Set<(int, int)>, window: Window, input: Input) -> Set<
    (int, int),
> {
    let stepped = if input.advance {
        next_generation(alive)
    } else {
        alive
    };
    let kept = if input.reset {
        Set::empty()
    } else {
        stepped
    };
    match input.pointer {
        Some(offset) => kept.insert(
            (panned(window, input).0 + offset.0, panned(window, input).1 + offset.1),
        ),
        None => kept,
    }
}

/// Whether a frame with this input can be carried out on this grid and
/// window: the grid can take the step that is asked for, no move takes the
/// window's origin out of the range of `i32`, and neither does the pointer
/// take its cell out of it.
pub open spec fn can_apply(alive: Set<(int, int)>, window: Window, input: Input) -> bool {
    input.quit || {
        &&& input.advance ==> steppable(alive)
        &&& input.up ==> window.y > i32::MIN
        &&& input.down && !input.up ==> window.y < i32::MAX
        &&& input.left ==> window.x > i32::MIN
        &&& input.right && !input.left ==> window.x < i32::MAX
        &&& input.pointer matches Some(offset) ==> {
            &&& i32::MIN <= panned(window, input).0 + offset.0 <= i32::MAX
            &&& i32::MIN <= panned(window, input).1 + offset.1 <= i32::MAX
        }
    }
}

/// Whether a frame with this input can be carried out on this grid and
/// window.
pub fn applicable(grid: &LifeGrid, window: &Window, input: &Input) -> (b: bool)
    ensures
        b == can_apply(grid@, *window, *input),
{
    if input.quit {
        return true;
    }
    if input.advance && !grid.can_step() {
        return false;
    }
    if input.up && window.y == i32::MIN {
        return false;
    }
    if input.down && !input.up && window.y == i32::MAX {
        return false;
    }
    if input.left && window.x == i32::MIN {
        return false;
    }
    if input.right && !input.left && window.x == i32::MAX {
        return false;
    }
    match input.pointer {
        Some(offset) => {
            let mut x: i64 = window.x as i64 + offset.0 as i64;
            let mut y: i64 = window.y as i64 + offset.1 as i64;
            if input.left {
                x -= 1;
            }
            if input.right {
                x += 1;
            }
            if input.up {
                y -= 1;
            }
            if input.down {
                y += 1;
            }
            -0x8000_0000 <= x && x <= 0x7fff_ffff && -0x8000_0000 <= y && y <= 0x7fff_ffff
        },
        None => true,
    }
}

/// Carries out one frame of input and says whether the loop goes on.
pub fn frame(grid: &mut LifeGrid, window: &mut Window, input: &Input) -> (running: bool)
    requires
        can_apply(old(grid)@, *old(window), *input),
    ensures
        running == !input.quit,
        input.quit ==> final(grid)@ == old(grid)@ && *final(window) == *old(window),
        !input.quit ==> {
            &&& final(grid)@ == after_frame(old(grid)@, *old(window), *input)
            &&& final(window).x == panned(*old(window), *input).0
            &&& final(window).y == panned(*old(window), *input).1
            &&& final(window).width == old(window).width
            &&& final(window).height == old(window).height
        },
{
    if input.quit {
        return false;
    }
    if input.advance {
        grid.step();
    }
    if input.up {
        window.y -= 1;
    }
    if input.down {
        window.y += 1;
    }
    if input.left {
        window.x -= 1;
    }
    if input.right {
        window.x += 1;
    }
    if input.reset {
        grid.clear();
    }
    match input.pointer {
        Some(offset) => {
            grid.insert((offset.0 + window.x, offset.1 + window.y));
        },
        None => {},
    }
    true
}

/// The cell on which a pair of raw numbers lands.
pub open spec fn landing_cell(window: Window, pair: (u32, u32)) -> (int, int) {
    (landing(window.x, window.width, pair.0), landing(window.y, window.height, pair.1))
}

/// Whether `c` is a cell on which some pair of raw numbers lands.
pub open spec fn landing_place(window: Window, c: (int, int)) -> bool {
    exists|rx: u32, ry: u32| c == landing_cell(window, (rx, ry))
}

/// The alive cells after the landing cell of each of `pairs` was made alive.
pub open spec fn sown(alive: Set<(int, int)>, window: Window, pairs: Seq<(u32, u32)>) -> Set<
    (int, int),
>
    decreases pairs.len(),
{
    if pairs.len() == 0 {
        alive
    } else {
        sown(alive, window, pairs.drop_last()).insert(landing_cell(window, pairs.last()))
    }
}

/// Draws `count` pairs of numbers from the pseudo-random generator and makes
/// the landing cell of each alive.
///
/// Which pairs are drawn is not known before the call, and two of them may
/// land on one cell or on a cell that is alive already. Whatever is drawn,
/// the grid ends as `sown` says of the `count` pairs; so no alive cell dies,
/// every new cell is a landing place of the window, and at most `count`
/// cells are new.
pub fn seed(grid: &mut LifeGrid, window: &Window, count: u32)
    requires
        window.can_scatter(),
    ensures
        exists|pairs: Seq<(u32, u32)>|
            pairs.len() == count && final(grid)@ == #[trigger] sown(old(grid)@, *window, pairs),
        old(grid)@.subset_of(final(grid)@),
        forall|c: (int, int)|
            final(grid)@.contains(c) && !old(grid)@.contains(c) ==> landing_place(*window, c),
        final(grid)@.len() <= old(grid)@.len() + count,
{
    let mut done: u32 = 0;
    let ghost mut pairs: Seq<(u32, u32)> = Seq::empty();
    proof {
        grid.lemma_alive_bounded();
    }
    while done < count
        invariant
            done <= count,
            window.can_scatter(),
            pairs.len() == done,
            grid@ == sown(old(grid)@, *window, pairs),
            old(grid)@.subset_of(grid@),
            forall|c: (int, int)|
                grid@.contains(c) && !old(grid)@.contains(c) ==> landing_place(*window, c),
            grid@.finite(),
            grid@.len() <= old(grid)@.len() + done,
        decreases count - done,
    {
        let rx = draw();
        let ry = draw();
        proof {
            window.lemma_scatter_lands(rx, ry);
        }
        let cell = window.scatter(rx, ry);
        assert(point(cell) == landing_cell(*window, (rx, ry)));
        assert(landing_place(*window, point(cell)));
        grid.insert(cell);
        done += 1;
        proof {
            let drawn = pairs.push((rx, ry));
            assert(drawn.drop_last() =~= pairs);
            assert(drawn.last() == (rx, ry));
            pairs = drawn;
        }
    }
}

/// The next number of macroquad's process-wide pseudo-random generator
/// (`macroquad::rand::rand`). The number depends on the generator's state,
/// so nothing is claimed of it beyond its type.
#[verifier::external_body]
fn draw() -> u32 {
    macroquad::rand::rand()
}

} // verus!
