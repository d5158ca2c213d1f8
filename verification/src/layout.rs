//! Where the tiles of a field go in a rectangle of terminal cells.

use vstd::prelude::*;

verus! {

/// A rectangle of terminal cells.
#[derive(Clone, Copy, Debug, PartialEq, Eq, Structural)]
pub struct Area {
    pub x: u16,
    pub y: u16,
    pub width: u16,
    pub height: u16,
}

/// The size of a tile and the place of the field within an area. A tile is
/// `elem_size` cells high and twice as wide.
#[derive(Clone, Copy, Debug, PartialEq, Eq, Structural)]
pub struct Scale {
    pub elem_size: u16,
    pub xoff: u16,
    pub yoff: u16,
}

/// The height of a tile: as many cells as let the columns of the field, at
/// two cells of width for one of height, fit into the shorter side of the area.
pub open spec fn tile_size(area: Area, columns: int) -> int {
    (if area.width <= area.height {
        area.width as int
    } else {
        area.height as int
    }) / columns / 2
}

/// Whether a field of the given size has room in the area at its tile size.
pub open spec fn has_room(area: Area, columns: int, rows: int) -> bool {
    1 <= columns && tile_size(area, columns) * rows <= area.height
}

/// The scale at which the field is centered in the area.
pub open spec fn centered(area: Area, columns: int, rows: int) -> Scale {
    let size = tile_size(area, columns);
    Scale {
        elem_size: size as u16,
        xoff: ((area.width - size * 2 * columns) / 2) as u16,
        yoff: ((area.height - size * rows) / 2) as u16,
    }
}

/// The rectangle that the tile in column `x` of row `y` takes.
pub open spec fn tile_place(scale: Scale, area: Area, x: int, y: int) -> (int, int, int, int) {
    (
        x * scale.elem_size * 2 + scale.xoff,
        y * scale.elem_size + scale.yoff + area.y,
        scale.elem_size * 2,
        scale.elem_size as int,
    )
}

proof fn lemma_tiles_fit_width(area: Area, columns: int)
    requires
        1 <= columns,
    ensures
        0 <= tile_size(area, columns),
        tile_size(area, columns) * 2 * columns <= area.width,
        tile_size(area, columns) <= area.width,
{
    let side: int = if area.width <= area.height {
        area.width as int
    } else {
        area.height as int
    };
    let per_column = side / columns;
    let size = per_column / 2;
    assert(0 <= per_column && per_column * columns <= side) by (nonlinear_arith)
        requires
            per_column == side / columns,
            1 <= columns,
            0 <= side,
    ;
    assert(size * 2 * columns <= per_column * columns) by (nonlinear_arith)
        requires
            0 <= size,
            size * 2 <= per_column,
            1 <= columns,
    ;
    assert(size <= size * 2 * columns) by (nonlinear_arith)
        requires
            0 <= size,
            1 <= columns,
    ;
}

/// Sizes the tiles of a field of `columns` by `rows` for `area` and centers
/// the field in it.
pub fn scale(area: Area, columns: u16, rows: u16) -> (s: Scale)
    requires
        has_room(area, columns as int, rows as int),
    ensures
        s == centered(area, columns as int, rows as int),
{
    proof {
        lemma_tiles_fit_width(area, columns as int);
    }
    let side: u16 = if area.width <= area.height {
        area.width
    } else {
        area.height
    };
    let elem_size: u16 = side / columns / 2;
    let w: u16 = elem_size * 2 * columns;
    let h: u16 = elem_size * rows;
    let xoff: u16 = (area.width - w) / 2;
    let yoff: u16 = (area.height - h) / 2;
    Scale { elem_size, xoff, yoff }
}

/// The rectangle that the tile in column `x` of row `y` takes at `scale`.
pub fn tile_area(scale: Scale, area: Area, x: u16, y: u16) -> (place: Area)
    requires
        tile_place(scale, area, x as int, y as int).0 <= u16::MAX,
        tile_place(scale, area, x as int, y as int).1 <= u16::MAX,
        tile_place(scale, area, x as int, y as int).2 <= u16::MAX,
    ensures
        (place.x as int, place.y as int, place.width as int, place.height as int) == tile_place(
            scale,
            area,
            x as int,
            y as int,
        ),
{
    assert(0 <= x * scale.elem_size && x * scale.elem_size <= x * scale.elem_size * 2) by (nonlinear_arith);
    assert(0 <= y * scale.elem_size) by (nonlinear_arith);
    let xd: u16 = x * scale.elem_size * 2 + scale.xoff;
    let yd: u16 = y * scale.elem_size + scale.yoff + area.y;
    Area { x: xd, y: yd, width: scale.elem_size * 2, height: scale.elem_size }
}

} // verus!
