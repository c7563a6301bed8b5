//! The monochrome framebuffer: a 64x32 grid of on/off pixels with
//! XOR-style toggling, collision reporting, and a dirty flag for the
//! external renderer.
//!
//! The display itself does no bounds clipping: callers must hand it
//! in-range coordinates. Clipping of sprites is the interpreter's policy.

use vstd::prelude::*;

verus! {

pub const WIDTH: usize = 64;

pub const HEIGHT: usize = 32;

/// A framebuffer of WIDTH * HEIGHT pixels, row-major: the pixel at
/// column `x`, row `y` sits at index `x + WIDTH * y`. `true` is "on".
pub struct Display {
    pub screen: Vec<bool>,
    pub is_dirty: bool,
}

/// The all-off framebuffer contents.
pub open spec fn blank_screen() -> Seq<bool> {
    Seq::new((WIDTH * HEIGHT) as nat, |i: int| false)
}

/// Builds a vector of WIDTH * HEIGHT pixels, all off.
fn blank_vec() -> (v: Vec<bool>)
    ensures
        v@ == blank_screen(),
{
    let mut v: Vec<bool> = Vec::new();
    let mut i: usize = 0;
    while i < WIDTH * HEIGHT
        invariant
            i <= WIDTH * HEIGHT,
            v@.len() == i,
            forall|j: int| 0 <= j < i ==> !v@[j],
        decreases WIDTH * HEIGHT - i,
    {
        v.push(false);
        i = i + 1;
    }
    proof {
        assert(v@ =~= blank_screen());
    }
    v
}

impl Display {
    /// The framebuffer holds exactly one pixel per grid cell.
    pub open spec fn wf(&self) -> bool {
        self.screen@.len() == WIDTH * HEIGHT
    }

    /// A fresh display: every pixel off, nothing to redraw.
    pub fn new() -> (d: Display)
        ensures
            d.wf(),
            d.screen@ == blank_screen(),
            !d.is_dirty,
    {
        Display { screen: blank_vec(), is_dirty: false }
    }

    /// Clears the screen: every pixel off and the dirty flag reset.
    pub fn cls(&mut self)
        requires
            old(self).wf(),
        ensures
            final(self).wf(),
            final(self).screen@ == blank_screen(),
            !final(self).is_dirty,
    {
        self.screen = blank_vec();
        self.is_dirty = false;
    }

    /// Whether the pixel at column `x`, row `y` is on.
    pub fn pixel(&self, x: usize, y: usize) -> (on: bool)
        requires
            self.wf(),
            x < WIDTH,
            y < HEIGHT,
        ensures
            on == self.screen@[x + WIDTH * y],
    {
        self.screen[x + WIDTH * y]
    }

    /// Flips the pixel at (`x`, `y`), marks the display dirty, and reports
    /// whether the flip turned an on-pixel off (a collision).
    pub fn toggle(&mut self, x: usize, y: usize) -> (collision: bool)
        requires
            old(self).wf(),
            x < WIDTH,
            y < HEIGHT,
        ensures
            final(self).wf(),
            final(self).screen@ == old(self).screen@.update(
                (x + WIDTH * y) as int,
                !old(self).screen@[(x + WIDTH * y) as int],
            ),
            collision == old(self).screen@[(x + WIDTH * y) as int],
            final(self).is_dirty,
    {
        let index: usize = x + WIDTH * y;
        let was_on: bool = self.screen[index];
        self.screen.set(index, !was_on);
        self.is_dirty = true;
        was_on
    }
}

} // verus!
