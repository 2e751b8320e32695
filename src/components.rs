use vstd::prelude::*;

use crate::settings::Settings;

verus! {

/// Anchor of a block, in subpixels from the window's top left corner.
#[derive(Clone, Copy, Debug, PartialEq, Eq, Structural)]
pub struct Position {
    pub x: u64,
    pub y: u64,
}

/// Size of one block cell, in subpixels.
#[derive(Clone, Copy, Debug, PartialEq, Eq, Structural)]
pub struct Dimensions {
    pub width: u64,
    pub height: u64,
}

/// Display color, one byte per channel. The simulation never reads it.
#[derive(Clone, Copy, Debug, PartialEq, Eq, Structural)]
pub struct Color {
    pub r: u8,
    pub g: u8,
    pub b: u8,
    pub a: u8,
}

impl Color {
    /// Opaque red, the color of every block.
    pub fn standard() -> (r: Color)
        ensures
            r == (Color { r: 255, g: 0, b: 0, a: 255 }),
    {
        Color { r: 255, g: 0, b: 0, a: 255 }
    }
}

/// Falling speed in pixels per second.
#[derive(Clone, Copy, Debug, PartialEq, Eq, Structural)]
pub struct DropSpeed(pub u64);

/// Whether a block is the one falling and movable.
#[derive(Clone, Copy, Debug, PartialEq, Eq, Structural)]
pub struct Active(pub bool);

/// A cell offset from a block's anchor cell.
#[derive(Clone, Copy, Debug, PartialEq, Eq, Structural)]
pub struct Offset {
    pub x: i8,
    pub y: i8,
}

/// The four cells of a multi-cell piece, relative to its anchor cell.
#[derive(Clone, Copy, Debug, PartialEq, Eq)]
pub struct BlockOffsets(pub [Offset; 4]);

/// The components of one block entity.
#[derive(Clone, Copy, Debug)]
pub struct Block {
    pub position: Position,
    pub dimensions: Dimensions,
    pub color: Color,
    pub drop_speed: DropSpeed,
    pub active: Active,
    pub offsets: Option<BlockOffsets>,
}

impl Block {
    /// The block lies inside the window: its anchor is at most one cell short
    /// of the right edge and of the floor.
    pub open spec fn in_window(self, st: Settings) -> bool {
        &&& self.position.x <= st.x_max()
        &&& self.position.y <= st.y_max()
    }

    /// The block a spawn creates: at the origin, one cell in size, with the
    /// configured drop speed, active, and without offsets.
    pub open spec fn spawned(st: Settings) -> Block {
        Block {
            position: Position { x: 0, y: 0 },
            dimensions: Dimensions {
                width: st.cell_width_sub() as u64,
                height: st.cell_height_sub() as u64,
            },
            color: Color { r: 255, g: 0, b: 0, a: 255 },
            drop_speed: DropSpeed(st.drop_speed),
            active: Active(true),
            offsets: None,
        }
    }

    /// Builds the block that a spawn creates.
    pub fn new_spawned(st: &Settings) -> (r: Block)
        requires
            st.wf(),
        ensures
            r == Block::spawned(*st),
    {
        Block {
            position: Position { x: 0, y: 0 },
            dimensions: Dimensions { width: st.cell_width(), height: st.cell_height() },
            color: Color::standard(),
            drop_speed: DropSpeed(st.drop_speed),
            active: Active(true),
            offsets: None,
        }
    }

    /// The first block of a run: like a spawned block, but an L-shaped piece
    /// of four cells and falling at the configured speed.
    pub open spec fn initial(st: Settings) -> Block {
        Block {
            offsets: Some(
                BlockOffsets(
                    [
                        Offset { x: 0, y: 0 },
                        Offset { x: 1, y: 0 },
                        Offset { x: 0, y: -1i8 },
                        Offset { x: 0, y: -2i8 },
                    ],
                ),
            ),
            ..Block::spawned(st)
        }
    }

    /// Builds the first block of a run.
    pub fn new_initial(st: &Settings) -> (r: Block)
        requires
            st.wf(),
        ensures
            r == Block::initial(*st),
    {
        let offsets = BlockOffsets(
            [
                Offset { x: 0, y: 0 },
                Offset { x: 1, y: 0 },
                Offset { x: 0, y: -1 },
                Offset { x: 0, y: -2 },
            ],
        );
        Block { offsets: Some(offsets), ..Block::new_spawned(st) }
    }
}

} // verus!
