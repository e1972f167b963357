//! Drawing one item at random.

use vstd::prelude::*;

verus! {

/// Calls `rand::random::<u64>`. Nothing is claimed of the value drawn.
#[verifier::external_body]
pub(crate) fn random_u64() -> u64 {
    rand::random::<u64>()
}

/// The position that a draw picks among `len` items: the draw, taken as a
/// `usize`, modulo the number of items.
pub open spec fn draw_index(draw: u64, len: nat) -> int {
    (draw as usize) as int % (len as int)
}

/// The item that a given draw picks.
pub fn pick_by_draw<T>(items: Vec<T>, draw: u64) -> (r: T)
    requires
        items@.len() > 0,
    ensures
        r == items@[draw_index(draw, items@.len())],
{
    let mut items = items;
    let i: usize = (draw as usize) % items.len();
    items.swap_remove(i)
}

/// Draws a value at random.
pub trait Rand: Sized {
    type Output;

    /// Whether there is anything to draw from.
    spec fn can_draw(&self) -> bool;

    fn random(self) -> Option<Self::Output>
        requires
            self.can_draw(),
    ;
}

impl<T> Rand for Vec<T> {
    type Output = T;

    open spec fn can_draw(&self) -> bool {
        self@.len() > 0
    }

    /// One of the items, chosen by a random draw.
    fn random(self) -> (r: Option<T>)
        ensures
            r matches Some(x) && self@.contains(x),
    {
        let draw = random_u64();
        let ghost s = self@;
        let x = pick_by_draw(self, draw);
        assert(s[draw_index(draw, s.len())] == x);
        Some(x)
    }
}

} // verus!
