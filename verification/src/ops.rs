use vstd::prelude::*;

verus! {

/// The fixed palette of the grid.  The drawing surface receives plain CSS
/// color strings; `css_color` gives the string for each palette entry.
#[derive(Clone, Copy, PartialEq, Eq, Structural)]
pub enum Rgb {
    /// Header band background.
    HeaderBg,
    /// Header and cell text.
    Text,
    /// Background of even-indexed rows.
    EvenRow,
    /// Background of odd-indexed rows.
    OddRow,
    /// Grid lines and cell borders.
    GridLine,
}

/// One drawing operation on a bitmap surface.  The renderer emits a list of
/// these; the host replays them on whatever drawing context it owns.
/// Coordinates may be negative (a partially scrolled-off cell starts left of
/// or above the surface); widths and heights are non-negative.
pub enum DrawOp {
    ClearRect { x: i64, y: i64, w: u64, h: u64 },
    SetFillColor { color: Rgb },
    FillRect { x: i64, y: i64, w: u64, h: u64 },
    /// Selects the one text style used anywhere in the grid: 14px
    /// sans-serif, horizontally centered, vertically middle-anchored.
    SetTextStyle,
    FillText { text: String, x: i64, y: i64 },
    SetStrokeColor { color: Rgb },
    BeginPath,
    MoveTo { x: i64, y: i64 },
    LineTo { x: i64, y: i64 },
    Stroke,
    StrokeRect { x: i64, y: i64, w: u64, h: u64 },
}

/// The mathematical value of a `DrawOp`: the same operation with unbounded
/// coordinates and text as a character sequence.
pub enum Cmd {
    ClearRect { x: int, y: int, w: int, h: int },
    SetFillColor { color: Rgb },
    FillRect { x: int, y: int, w: int, h: int },
    SetTextStyle,
    FillText { text: Seq<char>, x: int, y: int },
    SetStrokeColor { color: Rgb },
    BeginPath,
    MoveTo { x: int, y: int },
    LineTo { x: int, y: int },
    Stroke,
    StrokeRect { x: int, y: int, w: int, h: int },
}

impl View for DrawOp {
    type V = Cmd;

    open spec fn view(&self) -> Cmd {
        match self {
            DrawOp::ClearRect { x, y, w, h } => Cmd::ClearRect {
                x: *x as int,
                y: *y as int,
                w: *w as int,
                h: *h as int,
            },
            DrawOp::SetFillColor { color } => Cmd::SetFillColor { color: *color },
            DrawOp::FillRect { x, y, w, h } => Cmd::FillRect {
                x: *x as int,
                y: *y as int,
                w: *w as int,
                h: *h as int,
            },
            DrawOp::SetTextStyle => Cmd::SetTextStyle,
            DrawOp::FillText { text, x, y } => Cmd::FillText {
                text: text@,
                x: *x as int,
                y: *y as int,
            },
            DrawOp::SetStrokeColor { color } => Cmd::SetStrokeColor { color: *color },
            DrawOp::BeginPath => Cmd::BeginPath,
            DrawOp::MoveTo { x, y } => Cmd::MoveTo { x: *x as int, y: *y as int },
            DrawOp::LineTo { x, y } => Cmd::LineTo { x: *x as int, y: *y as int },
            DrawOp::Stroke => Cmd::Stroke,
            DrawOp::StrokeRect { x, y, w, h } => Cmd::StrokeRect {
                x: *x as int,
                y: *y as int,
                w: *w as int,
                h: *h as int,
            },
        }
    }
}

/// The mathematical value of a whole operation list.
pub open spec fn cmds_of(ops: Seq<DrawOp>) -> Seq<Cmd> {
    ops.map_values(|op: DrawOp| op@)
}

pub proof fn lemma_cmds_append(a: Seq<DrawOp>, b: Seq<DrawOp>)
    ensures
        cmds_of(a + b) == cmds_of(a) + cmds_of(b),
{
    assert(cmds_of(a + b) =~= cmds_of(a) + cmds_of(b));
}

/// CSS color string of each palette entry.
pub fn css_color(c: Rgb) -> (r: &'static str)
    ensures
        c == Rgb::HeaderBg ==> r@ == "#f2f2f2"@,
        c == Rgb::Text ==> r@ == "#333"@,
        c == Rgb::EvenRow ==> r@ == "#ffffff"@,
        c == Rgb::OddRow ==> r@ == "#f9f9f9"@,
        c == Rgb::GridLine ==> r@ == "#ddd"@,
{
    match c {
        Rgb::HeaderBg => "#f2f2f2",
        Rgb::Text => "#333",
        Rgb::EvenRow => "#ffffff",
        Rgb::OddRow => "#f9f9f9",
        Rgb::GridLine => "#ddd",
    }
}

/// The one font used for header labels and cell text.
pub fn grid_font() -> (r: &'static str)
    ensures
        r@ == "14px sans-serif"@,
{
    "14px sans-serif"
}

} // verus!
