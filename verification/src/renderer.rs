//! The drawing interface the engine drives.  The engine never touches a
//! graphics device: it records one `DrawCommand` per sprite into a
//! `SpriteRenderer`, in draw order, and the surrounding program hands the
//! commands to whatever backend it likes.

use vstd::prelude::*;
use crate::game_object::Colour;
use crate::vector::Vector2;

verus! {

/// One sprite to draw: an opaque texture handle with placement, rotation
/// (millidegrees) and a colour tint.
#[derive(Clone, Copy, PartialEq, Eq, Structural, Debug)]
pub struct DrawCommand {
    pub sprite: u64,
    pub position: Vector2,
    pub size: Vector2,
    pub rotation: i64,
    pub colour: Colour,
}

/// Records draw commands in the order they are issued.
pub struct SpriteRenderer {
    pub commands: Vec<DrawCommand>,
}

impl SpriteRenderer {
    /// An empty command list.
    pub fn new() -> (r: Self)
        ensures
            r.commands@ == Seq::<DrawCommand>::empty(),
    {
        SpriteRenderer { commands: Vec::new() }
    }

    /// Appends one sprite to the command list.
    pub fn draw_sprite(
        &mut self,
        sprite: u64,
        position: Vector2,
        size: Vector2,
        rotation: i64,
        colour: Colour,
    )
        ensures
            final(self).commands@ == old(self).commands@.push(
                DrawCommand { sprite, position, size, rotation, colour },
            ),
    {
        self.commands.push(DrawCommand { sprite, position, size, rotation, colour });
    }
}

} // verus!
