//! The pan/zoom state of the viewer and the commands that change it.
//!
//! The zoom factor is always a power of two, so the state keeps its exponent:
//! `zoom_exp == 3` magnifies eight times, `zoom_exp == -3` shrinks to an
//! eighth. Panning clamps at both ends of the matrix; it never wraps.

use vstd::prelude::*;
use vstd::string::StrSliceExecFns;

verus! {

/// Exponent of the smallest zoom factor of the default limits: one eighth.
pub const DEFAULT_MIN_ZOOM_EXP: i32 = -3;

/// Exponent of the largest zoom factor of the default limits: the largest
/// power of two that a double-precision float holds.
pub const DEFAULT_MAX_ZOOM_EXP: i32 = 1023;

/// The range of the zoom factor, as exponents of two.
#[derive(Clone, Copy, Debug, PartialEq, Eq, Structural)]
pub struct ZoomLimits {
    pub min_exp: i32,
    pub max_exp: i32,
}

impl ZoomLimits {
    /// The range holds the factor 1, so that a reset stays inside it.
    pub open spec fn valid(&self) -> bool {
        self.min_exp <= 0 <= self.max_exp
    }
}

impl Default for ZoomLimits {
    fn default() -> (r: ZoomLimits)
        ensures
            r == (ZoomLimits { min_exp: DEFAULT_MIN_ZOOM_EXP, max_exp: DEFAULT_MAX_ZOOM_EXP }),
            r.valid(),
    {
        ZoomLimits { min_exp: DEFAULT_MIN_ZOOM_EXP, max_exp: DEFAULT_MAX_ZOOM_EXP }
    }
}

/// What the viewer shows: the zoom factor `2^zoom_exp`, and the offsets of
/// the window in columns from the left and in rows from the bottom.
#[derive(Clone, Copy, Debug, PartialEq, Eq, Structural)]
pub struct Viewport {
    pub zoom_exp: i32,
    pub x_offset: usize,
    pub y_offset: usize,
}

/// A discrete pan or zoom command.
#[derive(Clone, Copy, Debug, PartialEq, Eq, Structural)]
pub enum Command {
    PanLeft,
    PanRight,
    PanUp,
    PanDown,
    ZoomIn,
    ZoomOut,
    ResetZoom,
}

/// The largest offset into a dimension of `size` cells.
pub open spec fn last_index(size: usize) -> usize {
    if size > 0 {
        (size - 1) as usize
    } else {
        0
    }
}

/// `offset + 1`, clamped to the last cell of a dimension of `size` cells.
pub open spec fn step_forward(offset: usize, size: usize) -> usize {
    if offset < last_index(size) {
        (offset + 1) as usize
    } else {
        last_index(size)
    }
}

/// `steps` steps forward from `offset`.
pub open spec fn repeated_forward(offset: usize, size: usize, steps: nat) -> usize
    decreases steps,
{
    if steps == 0 {
        offset
    } else {
        step_forward(repeated_forward(offset, size, (steps - 1) as nat), size)
    }
}

/// `steps` steps back from `offset`.
pub open spec fn repeated_back(offset: usize, steps: nat) -> usize
    decreases steps,
{
    if steps == 0 {
        offset
    } else {
        step_back(repeated_back(offset, (steps - 1) as nat))
    }
}

/// `offset - 1`, clamped to 0.
pub open spec fn step_back(offset: usize) -> usize {
    if offset > 0 {
        (offset - 1) as usize
    } else {
        0
    }
}

/// The exponent of twice the zoom factor `2^zoom_exp`, clamped to the upper
/// limit.
pub open spec fn doubled(zoom_exp: i32, limits: ZoomLimits) -> i32 {
    if zoom_exp < limits.max_exp {
        (zoom_exp + 1) as i32
    } else {
        limits.max_exp
    }
}

/// The exponent of half the zoom factor `2^zoom_exp`, clamped to the lower
/// limit.
pub open spec fn halved(zoom_exp: i32, limits: ZoomLimits) -> i32 {
    if zoom_exp > limits.min_exp {
        (zoom_exp - 1) as i32
    } else {
        limits.min_exp
    }
}

impl Viewport {
    /// The offsets lie inside a matrix of `width` by `height` cells and the
    /// zoom factor inside `limits`.
    pub open spec fn valid(&self, width: usize, height: usize, limits: ZoomLimits) -> bool {
        &&& self.x_offset < width
        &&& self.y_offset < height
        &&& limits.min_exp <= self.zoom_exp <= limits.max_exp
    }

    /// The state after `command`, for a matrix of `width` by `height` cells.
    pub open spec fn after(
        &self,
        command: Command,
        width: usize,
        height: usize,
        limits: ZoomLimits,
    ) -> Viewport {
        match command {
            Command::PanLeft => Viewport { x_offset: step_back(self.x_offset), ..*self },
            Command::PanRight => Viewport { x_offset: step_forward(self.x_offset, width), ..*self },
            Command::PanUp => Viewport { y_offset: step_forward(self.y_offset, height), ..*self },
            Command::PanDown => Viewport { y_offset: step_back(self.y_offset), ..*self },
            Command::ZoomIn => Viewport { zoom_exp: doubled(self.zoom_exp, limits), ..*self },
            Command::ZoomOut => Viewport { zoom_exp: halved(self.zoom_exp, limits), ..*self },
            Command::ResetZoom => Viewport { zoom_exp: 0, ..*self },
        }
    }

    /// The initial state: zoom factor 1 at the bottom left corner.
    pub fn new() -> (r: Viewport)
        ensures
            r == (Viewport { zoom_exp: 0, x_offset: 0, y_offset: 0 }),
    {
        Viewport { zoom_exp: 0, x_offset: 0, y_offset: 0 }
    }

    /// One column to the left, stopping at column 0.
    pub fn pan_left(self) -> (r: Viewport)
        ensures
            r == (Viewport { x_offset: step_back(self.x_offset), ..self }),
    {
        Viewport { x_offset: back(self.x_offset), ..self }
    }

    /// One column to the right, stopping at the last column.
    pub fn pan_right(self, width: usize) -> (r: Viewport)
        ensures
            r == (Viewport { x_offset: step_forward(self.x_offset, width), ..self }),
    {
        Viewport { x_offset: forward(self.x_offset, width), ..self }
    }

    /// One row up, stopping at the top row.
    pub fn pan_up(self, height: usize) -> (r: Viewport)
        ensures
            r == (Viewport { y_offset: step_forward(self.y_offset, height), ..self }),
    {
        Viewport { y_offset: forward(self.y_offset, height), ..self }
    }

    /// One row down, stopping at the bottom row.
    pub fn pan_down(self) -> (r: Viewport)
        ensures
            r == (Viewport { y_offset: step_back(self.y_offset), ..self }),
    {
        Viewport { y_offset: back(self.y_offset), ..self }
    }

    /// Doubles the zoom factor, stopping at the upper limit.
    pub fn zoom_in(self, limits: ZoomLimits) -> (r: Viewport)
        ensures
            r == (Viewport { zoom_exp: doubled(self.zoom_exp, limits), ..self }),
    {
        let zoom_exp = if self.zoom_exp < limits.max_exp {
            self.zoom_exp + 1
        } else {
            limits.max_exp
        };
        Viewport { zoom_exp, ..self }
    }

    /// Halves the zoom factor, stopping at the lower limit.
    pub fn zoom_out(self, limits: ZoomLimits) -> (r: Viewport)
        ensures
            r == (Viewport { zoom_exp: halved(self.zoom_exp, limits), ..self }),
    {
        let zoom_exp = if self.zoom_exp > limits.min_exp {
            self.zoom_exp - 1
        } else {
            limits.min_exp
        };
        Viewport { zoom_exp, ..self }
    }

    /// Sets the zoom factor to 1.
    pub fn reset_zoom(self) -> (r: Viewport)
        ensures
            r == (Viewport { zoom_exp: 0, ..self }),
    {
        Viewport { zoom_exp: 0, ..self }
    }

    /// Carries out `command` on a matrix of `width` by `height` cells.
    pub fn apply(self, command: Command, width: usize, height: usize, limits: ZoomLimits) -> (r:
        Viewport)
        ensures
            r == self.after(command, width, height, limits),
            self.valid(width, height, limits) && limits.valid() ==> r.valid(width, height, limits),
    {
        match command {
            Command::PanLeft => self.pan_left(),
            Command::PanRight => self.pan_right(width),
            Command::PanUp => self.pan_up(height),
            Command::PanDown => self.pan_down(),
            Command::ZoomIn => self.zoom_in(limits),
            Command::ZoomOut => self.zoom_out(limits),
            Command::ResetZoom => self.reset_zoom(),
        }
    }
}

/// No command leads out of the valid states.
pub proof fn lemma_after_valid(
    viewport: Viewport,
    command: Command,
    width: usize,
    height: usize,
    limits: ZoomLimits,
)
    requires
        viewport.valid(width, height, limits),
        limits.valid(),
    ensures
        viewport.after(command, width, height, limits).valid(width, height, limits),
{
}

/// A command is idle at its bound: panning left in column 0 or down in row 0,
/// panning right in the last column or up in the top row, zooming out at the
/// lower limit or in at the upper limit changes nothing.
pub proof fn lemma_idle_at_bounds(viewport: Viewport, width: usize, height: usize, limits: ZoomLimits)
    ensures
        viewport.x_offset == 0 ==> viewport.after(Command::PanLeft, width, height, limits)
            == viewport,
        viewport.y_offset == 0 ==> viewport.after(Command::PanDown, width, height, limits)
            == viewport,
        viewport.x_offset == last_index(width) ==> viewport.after(
            Command::PanRight,
            width,
            height,
            limits,
        ) == viewport,
        viewport.y_offset == last_index(height) ==> viewport.after(
            Command::PanUp,
            width,
            height,
            limits,
        ) == viewport,
        viewport.zoom_exp == limits.min_exp ==> viewport.after(
            Command::ZoomOut,
            width,
            height,
            limits,
        ) == viewport,
        viewport.zoom_exp == limits.max_exp ==> viewport.after(
            Command::ZoomIn,
            width,
            height,
            limits,
        ) == viewport,
{
}

/// Inside the limits zooming is undone by zooming the other way.
pub proof fn lemma_zoom_round_trip(zoom_exp: i32, limits: ZoomLimits)
    requires
        limits.min_exp <= zoom_exp <= limits.max_exp,
    ensures
        zoom_exp < limits.max_exp ==> halved(doubled(zoom_exp, limits), limits) == zoom_exp,
        zoom_exp > limits.min_exp ==> doubled(halved(zoom_exp, limits), limits) == zoom_exp,
{
}

/// Panning right `steps` times moves `steps` columns, but not past the last
/// one; panning left moves back, but not past column 0.
pub proof fn lemma_pan_steps(viewport: Viewport, width: usize, steps: nat)
    requires
        viewport.x_offset <= last_index(width),
    ensures
        repeated_forward(viewport.x_offset, width, steps) == if viewport.x_offset + steps
            <= last_index(width) {
            viewport.x_offset + steps
        } else {
            last_index(width) as int
        },
        repeated_back(viewport.x_offset, steps) == if viewport.x_offset >= steps {
            viewport.x_offset - steps
        } else {
            0
        },
    decreases steps,
{
    if steps > 0 {
        lemma_pan_steps(viewport, width, (steps - 1) as nat);
    }
}

fn back(offset: usize) -> (r: usize)
    ensures
        r == step_back(offset),
{
    if offset > 0 {
        offset - 1
    } else {
        0
    }
}

fn forward(offset: usize, size: usize) -> (r: usize)
    ensures
        r == step_forward(offset, size),
{
    let last = if size > 0 {
        size - 1
    } else {
        0
    };
    if offset < last {
        offset + 1
    } else {
        last
    }
}

impl Command {
    /// The command that the text of a key event stands for.
    pub open spec fn of_key(text: Seq<char>) -> Option<Command> {
        if text.len() != 1 {
            None
        } else if text[0] == 'h' {
            Some(Command::PanLeft)
        } else if text[0] == 'j' {
            Some(Command::PanDown)
        } else if text[0] == 'k' {
            Some(Command::PanUp)
        } else if text[0] == 'l' {
            Some(Command::PanRight)
        } else if text[0] == '-' {
            Some(Command::ZoomOut)
        } else if text[0] == '+' {
            Some(Command::ZoomIn)
        } else if text[0] == '=' {
            Some(Command::ResetZoom)
        } else {
            None
        }
    }

    /// Maps the text of a key event to a command: `h`, `j`, `k`, `l` pan
    /// left, down, up and right; `-` and `+` zoom out and in; `=` resets the
    /// zoom. Any other text is no command.
    pub fn from_key(text: &str) -> (r: Option<Command>)
        ensures
            r == Command::of_key(text@),
    {
        if text.unicode_len() != 1 {
            return None;
        }
        let key = text.get_char(0);
        if key == 'h' {
            Some(Command::PanLeft)
        } else if key == 'j' {
            Some(Command::PanDown)
        } else if key == 'k' {
            Some(Command::PanUp)
        } else if key == 'l' {
            Some(Command::PanRight)
        } else if key == '-' {
            Some(Command::ZoomOut)
        } else if key == '+' {
            Some(Command::ZoomIn)
        } else if key == '=' {
            Some(Command::ResetZoom)
        } else {
            None
        }
    }
}

} // verus!
