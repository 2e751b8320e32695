use vstd::prelude::*;

verus! {

/// Subpixel units in one pixel. A speed in pixels per second times a time in
/// nanoseconds is then a distance in subpixels.
pub const SUBPIXELS_PER_PIXEL: u64 = 1_000_000_000;

/// Nanoseconds in one second.
pub const NANOS_PER_SECOND: u64 = 1_000_000_000;

pub const WINDOW_WIDTH: u32 = 300;

pub const WINDOW_HEIGHT: u32 = 600;

pub const NUMBER_OF_CELLS_WIDE: u16 = 10;

pub const NUMBER_OF_CELLS_HIGH: u16 = 20;

/// Least time between two lateral moves, in nanoseconds (0.05 s).
pub const MAX_MOVE_SPEED: u64 = 50_000_000;

/// Least time between two spawns, in nanoseconds (0.5 s).
pub const MAX_SPAWN_SPEED: u64 = 500_000_000;

/// Drop speed of a new block, in pixels per second.
pub const STANDARD_DROP_SPEED: u64 = 200;

/// The fixed configuration of one simulation run.
#[derive(Clone, Copy, Debug, PartialEq, Eq, Structural)]
pub struct Settings {
    /// Window width in pixels.
    pub window_width: u32,
    /// Window height in pixels.
    pub window_height: u32,
    /// Number of grid cells across the window.
    pub cells_wide: u16,
    /// Number of grid cells down the window.
    pub cells_high: u16,
    /// Drop speed given to new blocks, in pixels per second.
    pub drop_speed: u64,
    /// Move debounce threshold in nanoseconds.
    pub move_debounce: u64,
    /// Spawn debounce threshold in nanoseconds.
    pub spawn_debounce: u64,
}

impl Settings {
    /// Both window sides and both cell counts are positive.
    pub open spec fn wf(self) -> bool {
        &&& self.window_width > 0
        &&& self.window_height > 0
        &&& self.cells_wide > 0
        &&& self.cells_high > 0
    }

    /// Window width in subpixels.
    pub open spec fn width_sub(self) -> int {
        self.window_width * SUBPIXELS_PER_PIXEL
    }

    /// Window height in subpixels.
    pub open spec fn height_sub(self) -> int {
        self.window_height * SUBPIXELS_PER_PIXEL
    }

    /// Width of one cell in subpixels.
    pub open spec fn cell_width_sub(self) -> int {
        self.width_sub() / (self.cells_wide as int)
    }

    /// Height of one cell in subpixels.
    pub open spec fn cell_height_sub(self) -> int {
        self.height_sub() / (self.cells_high as int)
    }

    /// The largest x a block takes: the window width less one cell.
    pub open spec fn x_max(self) -> int {
        self.width_sub() - self.cell_width_sub()
    }

    /// The floor: the largest y a block takes, the window height less one cell.
    pub open spec fn y_max(self) -> int {
        self.height_sub() - self.cell_height_sub()
    }

    /// The configuration of the game's window: 300 by 600 pixels, 10 by 20
    /// cells of 30 pixels.
    pub fn standard() -> (r: Settings)
        ensures
            r.wf(),
            r.window_width == WINDOW_WIDTH,
            r.window_height == WINDOW_HEIGHT,
            r.cells_wide == NUMBER_OF_CELLS_WIDE,
            r.cells_high == NUMBER_OF_CELLS_HIGH,
            r.drop_speed == STANDARD_DROP_SPEED,
            r.move_debounce == MAX_MOVE_SPEED,
            r.spawn_debounce == MAX_SPAWN_SPEED,
    {
        Settings {
            window_width: WINDOW_WIDTH,
            window_height: WINDOW_HEIGHT,
            cells_wide: NUMBER_OF_CELLS_WIDE,
            cells_high: NUMBER_OF_CELLS_HIGH,
            drop_speed: STANDARD_DROP_SPEED,
            move_debounce: MAX_MOVE_SPEED,
            spawn_debounce: MAX_SPAWN_SPEED,
        }
    }

    /// Window width in subpixels.
    pub fn width_subpixels(&self) -> (r: u64)
        ensures
            r == self.width_sub(),
    {
        self.window_width as u64 * SUBPIXELS_PER_PIXEL
    }

    /// Window height in subpixels.
    pub fn height_subpixels(&self) -> (r: u64)
        ensures
            r == self.height_sub(),
    {
        self.window_height as u64 * SUBPIXELS_PER_PIXEL
    }

    /// Width of one cell in subpixels.
    pub fn cell_width(&self) -> (r: u64)
        requires
            self.wf(),
        ensures
            r == self.cell_width_sub(),
            r <= self.width_sub(),
    {
        self.width_subpixels() / (self.cells_wide as u64)
    }

    /// Height of one cell in subpixels.
    pub fn cell_height(&self) -> (r: u64)
        requires
            self.wf(),
        ensures
            r == self.cell_height_sub(),
            r <= self.height_sub(),
    {
        self.height_subpixels() / (self.cells_high as u64)
    }
}

} // verus!
