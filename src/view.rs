//! What the map viewer decides: which way it pans, which part of the map is
//! on screen, and which tile each visible cell shows.
use crate::map::MapLayer;
use vstd::prelude::*;

verus! {

/// Events the viewer sends to itself.
#[derive(Clone, Copy, Debug, PartialEq, Eq, Structural)]
pub enum MapViewEvent {
    OpenMap,
}

/// The keys the viewer reacts to.
#[derive(Clone, Copy, Debug, PartialEq, Eq, Structural)]
pub enum ViewKey {
    Up,
    Down,
    Left,
    Right,
    Open,
    Other,
}

/// Pixels moved per redraw while a pan key is held.
pub const PAN_SPEED: u64 = 16;

/// Held pan keys and the scroll position, in map pixels.
#[derive(Clone, Copy, Debug, PartialEq, Eq, Structural)]
pub struct Panning {
    pub up: bool,
    pub down: bool,
    pub left: bool,
    pub right: bool,
    pub offset_x: u64,
    pub offset_y: u64,
}

/// The new offset along one axis after one step.
pub open spec fn pan_axis(offset: u64, back: bool, forth: bool, window: u64, map: u64) -> u64 {
    let o = if back && offset > PAN_SPEED {
        (offset - PAN_SPEED) as u64
    } else {
        offset
    };
    if forth && o + window < map {
        (o + PAN_SPEED) as u64
    } else {
        o
    }
}

/// The part of a layer that is on screen.
#[derive(Clone, Copy, Debug, PartialEq, Eq, Structural)]
pub struct VisibleArea {
    /// Grid column and row of the top-left visible cell.
    pub first_col: u64,
    pub first_row: u64,
    /// How far that cell is scrolled past the window's edge, in pixels.
    pub shift_x: u64,
    pub shift_y: u64,
    /// Number of cells to draw across and down.
    pub cols: u64,
    pub rows: u64,
}

/// Cells across one axis: those that fit whole, and one more when the first
/// is cut and the map goes on past the last.
pub open spec fn cells_on_axis(offset: u64, window: u64, tile: u64, cells: u64) -> u64 {
    let first = offset / tile;
    let whole = window / tile;
    if offset % tile > 0 && first + whole < cells {
        (whole + 1) as u64
    } else {
        whole
    }
}

fn axis_cells(offset: u64, window: u64, tile: u64, cells: u64) -> (r: u64)
    requires
        tile > 0,
    ensures
        r == cells_on_axis(offset, window, tile, cells),
{
    let first = offset / tile;
    let whole = window / tile;
    if offset % tile > 0 && first <= cells && whole < cells - first {
        whole + 1
    } else {
        whole
    }
}

impl Panning {
    pub fn new() -> (r: Panning)
        ensures
            !r.up && !r.down && !r.left && !r.right,
            r.offset_x == 0 && r.offset_y == 0,
    {
        Panning { up: false, down: false, left: false, right: false, offset_x: 0, offset_y: 0 }
    }

    /// A key went down: a pan key starts panning. Returns whether the key
    /// asks for a map to be opened.
    pub fn key_down(&mut self, key: ViewKey) -> (open: bool)
        ensures
            open == (key == ViewKey::Open),
            final(self).up == (old(self).up || key == ViewKey::Up),
            final(self).down == (old(self).down || key == ViewKey::Down),
            final(self).left == (old(self).left || key == ViewKey::Left),
            final(self).right == (old(self).right || key == ViewKey::Right),
            final(self).offset_x == old(self).offset_x,
            final(self).offset_y == old(self).offset_y,
    {
        match key {
            ViewKey::Up => self.up = true,
            ViewKey::Down => self.down = true,
            ViewKey::Left => self.left = true,
            ViewKey::Right => self.right = true,
            _ => {},
        }
        key == ViewKey::Open
    }

    /// A key went up: a pan key stops panning.
    pub fn key_up(&mut self, key: ViewKey)
        ensures
            final(self).up == (old(self).up && key != ViewKey::Up),
            final(self).down == (old(self).down && key != ViewKey::Down),
            final(self).left == (old(self).left && key != ViewKey::Left),
            final(self).right == (old(self).right && key != ViewKey::Right),
            final(self).offset_x == old(self).offset_x,
            final(self).offset_y == old(self).offset_y,
    {
        match key {
            ViewKey::Up => self.up = false,
            ViewKey::Down => self.down = false,
            ViewKey::Left => self.left = false,
            ViewKey::Right => self.right = false,
            _ => {},
        }
    }

    /// Moves the view one step for each held pan key, keeping it inside a
    /// map of `map_w` by `map_h` pixels seen through a window of `window_w`
    /// by `window_h`. Returns whether the view moved.
    pub fn step(&mut self, window_w: u64, window_h: u64, map_w: u64, map_h: u64) -> (moved: bool)
        requires
            map_w <= u64::MAX - PAN_SPEED,
            map_h <= u64::MAX - PAN_SPEED,
        ensures
            final(self).offset_x == pan_axis(
                old(self).offset_x,
                old(self).left,
                old(self).right,
                window_w,
                map_w,
            ),
            final(self).offset_y == pan_axis(
                old(self).offset_y,
                old(self).up,
                old(self).down,
                window_h,
                map_h,
            ),
            final(self).up == old(self).up && final(self).down == old(self).down,
            final(self).left == old(self).left && final(self).right == old(self).right,
            moved == ((old(self).up && old(self).offset_y > PAN_SPEED) || (old(self).down
                && pan_axis(old(self).offset_y, old(self).up, false, window_h, map_h) + window_h
                < map_h) || (old(self).left && old(self).offset_x > PAN_SPEED) || (old(self).right
                && pan_axis(old(self).offset_x, old(self).left, false, window_w, map_w) + window_w
                < map_w)),
    {
        let mut moved = false;
        if self.up && self.offset_y > PAN_SPEED {
            self.offset_y = self.offset_y - PAN_SPEED;
            moved = true;
        }
        if self.down && self.offset_y < map_h && window_h < map_h - self.offset_y {
            self.offset_y = self.offset_y + PAN_SPEED;
            moved = true;
        }
        if self.left && self.offset_x > PAN_SPEED {
            self.offset_x = self.offset_x - PAN_SPEED;
            moved = true;
        }
        if self.right && self.offset_x < map_w && window_w < map_w - self.offset_x {
            self.offset_x = self.offset_x + PAN_SPEED;
            moved = true;
        }
        moved
    }

    /// The cells of a grid of `cols` by `rows` cells of `tile_w` by `tile_h`
    /// pixels that a window of `window_w` by `window_h` shows.
    pub fn visible_area(
        &self,
        window_w: u64,
        window_h: u64,
        tile_w: u64,
        tile_h: u64,
        cols: u64,
        rows: u64,
    ) -> (r: VisibleArea)
        requires
            tile_w > 0,
            tile_h > 0,
        ensures
            r.first_col == self.offset_x / tile_w,
            r.first_row == self.offset_y / tile_h,
            r.shift_x == self.offset_x % tile_w,
            r.shift_y == self.offset_y % tile_h,
            r.cols == cells_on_axis(self.offset_x, window_w, tile_w, cols),
            r.rows == cells_on_axis(self.offset_y, window_h, tile_h, rows),
    {
        VisibleArea {
            first_col: self.offset_x / tile_w,
            first_row: self.offset_y / tile_h,
            shift_x: self.offset_x % tile_w,
            shift_y: self.offset_y % tile_h,
            cols: axis_cells(self.offset_x, window_w, tile_w, cols),
            rows: axis_cells(self.offset_y, window_h, tile_h, rows),
        }
    }
}

impl MapLayer {
    /// The key in grid cell (`col`, `row`), when the cell lies in the grid.
    pub fn key_at(&self, col: u64, row: u64) -> (r: Option<u32>)
        requires
            self.tile_map@.len() == self.map_width * self.map_height,
        ensures
            match r {
                Some(k) => col < self.map_width && row < self.map_height && k
                    == self.tile_map@[row * self.map_width + col],
                None => col >= self.map_width || row >= self.map_height,
            },
    {
        if col >= self.map_width as u64 || row >= self.map_height as u64 {
            return None;
        }
        let w: u64 = self.map_width as u64;
        proof {
            assert(row * w + col < w * self.map_height <= 0xffff_fffe_0000_0001)
                by (nonlinear_arith)
                requires
                    row < self.map_height <= 0xffff_ffff,
                    col < w <= 0xffff_ffff,
            ;
        }
        let i: u64 = row * w + col;
        if i < self.tile_map.len() as u64 {
            Some(self.tile_map[i as usize])
        } else {
            None
        }
    }
}

} // verus!
