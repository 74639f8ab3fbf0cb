//! Maps the viewport onto a display: which part of the matrix is drawn, and
//! where on the display it lands.

use crate::scale::{cells_across, cells_within, least, lemma_cells_fit, pixels_across, pixels_for};
use crate::viewport::Viewport;
use vstd::arithmetic::power2::{lemma2_to64, pow2};
use vstd::prelude::*;

verus! {

/// An axis-aligned rectangle in whole cells or pixels; `y` grows downwards.
#[derive(Clone, Copy, Debug, PartialEq, Eq, Structural)]
pub struct Rect {
    pub x: usize,
    pub y: usize,
    pub width: usize,
    pub height: usize,
}

impl Rect {
    /// The rectangle lies inside an area of `width` by `height` that starts
    /// at the origin.
    pub open spec fn within(&self, width: usize, height: usize) -> bool {
        &&& self.x + self.width <= width
        &&& self.y + self.height <= height
    }
}

/// How the matrix is brought onto the display.
#[derive(Clone, Copy, Debug, PartialEq, Eq, Structural)]
pub enum Policy {
    /// A window of the matrix is cut out and drawn into a rectangle at the
    /// bottom left of the display.
    AnchoredBottom,
    /// The whole matrix is drawn through one transform and clipped to the
    /// display.
    ClipScissor,
}

/// What to draw for one frame.
#[derive(Clone, Copy, Debug, PartialEq, Eq, Structural)]
pub enum Projection {
    /// Draw the cells of `source` into the pixels of `dest`.
    Window { source: Rect, dest: Rect },
    /// Draw all of `source`, magnified by `2^zoom_exp` about the cell corner
    /// `(column, row)`, with that corner on the display point `(x, y)`, and
    /// show only what falls into `scissor`. The cell corner `(c, r)` lands on
    /// `(x + (c - column) * 2^zoom_exp, y + (r - row) * 2^zoom_exp)`.
    Overlay {
        source: Rect,
        column: usize,
        row: usize,
        x: usize,
        y: usize,
        zoom_exp: i32,
        scissor: Rect,
    },
}

/// The smaller of two sizes.
pub open spec fn smaller(a: usize, b: usize) -> usize {
    if a <= b {
        a
    } else {
        b
    }
}

/// The columns of a matrix `matrix_width` wide that a display
/// `display_width` wide shows, from the viewport's offset on.
pub open spec fn visible_columns_of(
    viewport: Viewport,
    matrix_width: usize,
    display_width: usize,
) -> nat {
    least(
        (matrix_width - smaller(viewport.x_offset, matrix_width)) as nat,
        cells_across(display_width as nat, viewport.zoom_exp as int),
    )
}

/// The rows of a matrix `matrix_height` high that a display
/// `display_height` high shows.
pub open spec fn visible_rows_of(
    viewport: Viewport,
    matrix_height: usize,
    display_height: usize,
) -> nat {
    least(matrix_height as nat, cells_across(display_height as nat, viewport.zoom_exp as int))
}

/// The top row of the window: `y_offset` rows above the position where the
/// window ends on the bottom row, but never above row 0.
pub open spec fn top_row_of(viewport: Viewport, matrix_height: usize, display_height: usize) -> nat {
    let rows = visible_rows_of(viewport, matrix_height, display_height);
    if matrix_height - rows >= viewport.y_offset {
        (matrix_height - rows - viewport.y_offset) as nat
    } else {
        0
    }
}

/// The window that the anchored-bottom policy cuts out of the matrix.
pub open spec fn source_window(
    viewport: Viewport,
    matrix_width: usize,
    matrix_height: usize,
    display_width: usize,
    display_height: usize,
) -> Rect {
    Rect {
        x: smaller(viewport.x_offset, matrix_width),
        y: top_row_of(viewport, matrix_height, display_height) as usize,
        width: visible_columns_of(viewport, matrix_width, display_width) as usize,
        height: visible_rows_of(viewport, matrix_height, display_height) as usize,
    }
}

/// Where the anchored-bottom policy draws its window: scaled by the zoom
/// factor, against the left and the bottom edge of the display.
pub open spec fn dest_window(
    viewport: Viewport,
    matrix_width: usize,
    matrix_height: usize,
    display_width: usize,
    display_height: usize,
) -> Rect {
    let columns = visible_columns_of(viewport, matrix_width, display_width);
    let rows = visible_rows_of(viewport, matrix_height, display_height);
    let tall = pixels_across(rows, viewport.zoom_exp as int);
    Rect {
        x: 0,
        y: (display_height - tall) as usize,
        width: pixels_across(columns, viewport.zoom_exp as int) as usize,
        height: tall as usize,
    }
}

/// The projection of `viewport` under `policy`.
pub open spec fn projection_of(
    viewport: Viewport,
    matrix_width: usize,
    matrix_height: usize,
    display_width: usize,
    display_height: usize,
    policy: Policy,
) -> Projection {
    match policy {
        Policy::AnchoredBottom => Projection::Window {
            source: source_window(
                viewport,
                matrix_width,
                matrix_height,
                display_width,
                display_height,
            ),
            dest: dest_window(viewport, matrix_width, matrix_height, display_width, display_height),
        },
        Policy::ClipScissor => Projection::Overlay {
            source: Rect { x: 0, y: 0, width: matrix_width, height: matrix_height },
            column: viewport.x_offset,
            row: (matrix_height - smaller(viewport.y_offset, matrix_height)) as usize,
            x: 0,
            y: display_height,
            zoom_exp: viewport.zoom_exp,
            scissor: Rect { x: 0, y: 0, width: display_width, height: display_height },
        },
    }
}

impl Projection {
    /// The part of the matrix that is sampled.
    pub open spec fn source(&self) -> Rect {
        match *self {
            Projection::Window { source, .. } => source,
            Projection::Overlay { source, .. } => source,
        }
    }

    /// The part of the display that is drawn to.
    pub open spec fn target(&self) -> Rect {
        match *self {
            Projection::Window { dest, .. } => dest,
            Projection::Overlay { scissor, .. } => scissor,
        }
    }
}

/// At zoom factor 1 with both offsets 0 the bottom left corner of the matrix
/// lies on the bottom left corner of the display, and a cell is a pixel.
pub proof fn lemma_home_position(
    matrix_width: usize,
    matrix_height: usize,
    display_width: usize,
    display_height: usize,
)
    ensures
        ({
            let home = Viewport { zoom_exp: 0, x_offset: 0, y_offset: 0 };
            let source = source_window(
                home,
                matrix_width,
                matrix_height,
                display_width,
                display_height,
            );
            let dest = dest_window(home, matrix_width, matrix_height, display_width, display_height);
            &&& source.x == 0
            &&& source.y + source.height == matrix_height
            &&& source.width == smaller(matrix_width, display_width)
            &&& source.height == smaller(matrix_height, display_height)
            &&& dest.x == 0
            &&& dest.y + dest.height == display_height
            &&& dest.width == source.width
            &&& dest.height == source.height
            &&& projection_of(
                home,
                matrix_width,
                matrix_height,
                display_width,
                display_height,
                Policy::ClipScissor,
            ) == (Projection::Overlay {
                source: Rect { x: 0, y: 0, width: matrix_width, height: matrix_height },
                column: 0,
                row: matrix_height,
                x: 0,
                y: display_height,
                zoom_exp: 0,
                scissor: Rect { x: 0, y: 0, width: display_width, height: display_height },
            })
        }),
{
    lemma2_to64();
    assert(pow2(0) == 1);
    let unit = pow2(0);
    assert(display_width as nat / unit == display_width) by (nonlinear_arith)
        requires
            unit == 1,
    ;
    assert(display_height as nat / unit == display_height) by (nonlinear_arith)
        requires
            unit == 1,
    ;
    assert forall|cells: nat| pixels_across(cells, 0) == cells by {
        assert(cells * unit == cells) by (nonlinear_arith)
            requires
                unit == 1,
        ;
    }
}

/// Where the window does not stick to the top of the matrix, both policies
/// put the same cell corner on the bottom left corner of the display.
pub proof fn lemma_policies_agree(
    viewport: Viewport,
    matrix_width: usize,
    matrix_height: usize,
    display_width: usize,
    display_height: usize,
)
    requires
        viewport.x_offset <= matrix_width,
        viewport.y_offset + visible_rows_of(viewport, matrix_height, display_height)
            <= matrix_height,
    ensures
        ({
            let source = source_window(
                viewport,
                matrix_width,
                matrix_height,
                display_width,
                display_height,
            );
            let dest = dest_window(
                viewport,
                matrix_width,
                matrix_height,
                display_width,
                display_height,
            );
            projection_of(
                viewport,
                matrix_width,
                matrix_height,
                display_width,
                display_height,
                Policy::ClipScissor,
            ) matches Projection::Overlay { column, row, x, y, .. } && column == source.x && row
                == source.y + source.height && x == dest.x && y == dest.y + dest.height
        }),
{
    lemma_cells_fit(
        display_height as nat,
        viewport.zoom_exp as int,
        visible_rows_of(viewport, matrix_height, display_height),
    );
}

fn min_size(a: usize, b: usize) -> (r: usize)
    ensures
        r == smaller(a, b),
{
    if a <= b {
        a
    } else {
        b
    }
}

/// The number of columns that are visible from the viewport's offset on.
pub fn visible_columns(viewport: Viewport, matrix_width: usize, display_width: usize) -> (r: usize)
    ensures
        r == visible_columns_of(viewport, matrix_width, display_width),
        viewport.x_offset + r <= matrix_width || r == 0,
{
    let left = min_size(viewport.x_offset, matrix_width);
    cells_within(display_width, viewport.zoom_exp, matrix_width - left)
}

/// Computes what to draw for `viewport` on a display of `display_width` by
/// `display_height` pixels, for a matrix of `matrix_width` by
/// `matrix_height` cells.
pub fn project(
    viewport: Viewport,
    matrix_width: usize,
    matrix_height: usize,
    display_width: usize,
    display_height: usize,
    policy: Policy,
) -> (r: Projection)
    ensures
        r == projection_of(
            viewport,
            matrix_width,
            matrix_height,
            display_width,
            display_height,
            policy,
        ),
        r.source().within(matrix_width, matrix_height),
        r.target().within(display_width, display_height),
{
    match policy {
        Policy::AnchoredBottom => {
            let left = min_size(viewport.x_offset, matrix_width);
            let columns = visible_columns(viewport, matrix_width, display_width);
            let rows = cells_within(display_height, viewport.zoom_exp, matrix_height);
            let room = matrix_height - rows;
            let top = if room >= viewport.y_offset {
                room - viewport.y_offset
            } else {
                0
            };
            proof {
                lemma_cells_fit(display_width as nat, viewport.zoom_exp as int, columns as nat);
                lemma_cells_fit(display_height as nat, viewport.zoom_exp as int, rows as nat);
            }
            let wide = pixels_for(columns, viewport.zoom_exp);
            let tall = pixels_for(rows, viewport.zoom_exp);
            Projection::Window {
                source: Rect { x: left, y: top, width: columns, height: rows },
                dest: Rect { x: 0, y: display_height - tall, width: wide, height: tall },
            }
        },
        Policy::ClipScissor => Projection::Overlay {
            source: Rect { x: 0, y: 0, width: matrix_width, height: matrix_height },
            column: viewport.x_offset,
            row: matrix_height - min_size(viewport.y_offset, matrix_height),
            x: 0,
            y: display_height,
            zoom_exp: viewport.zoom_exp,
            scissor: Rect { x: 0, y: 0, width: display_width, height: display_height },
        },
    }
}

} // verus!
