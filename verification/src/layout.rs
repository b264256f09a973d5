use vstd::prelude::*;

verus! {

/// A rectangle of terminal cells.
#[derive(Debug, Clone, Copy, PartialEq, Eq, Structural)]
pub struct Area {
    pub x: u16,
    pub y: u16,
    pub width: u16,
    pub height: u16,
}

/// The rectangle as a plain tuple `(x, y, width, height)`.
pub open spec fn area_tuple(a: Area) -> (u16, u16, u16, u16) {
    (a.x, a.y, a.width, a.height)
}

/// The three parts ratatui's layout solver gives an area split by three
/// percentage constraints, top to bottom (`vertical`) or left to right.
pub uninterp spec fn percent_split(area: (u16, u16, u16, u16), vertical: bool, first: u16, second: u16, third: u16) -> Seq<(u16, u16, u16, u16)>;

/// `ratatui::layout::Layout::split` with three `Constraint::Percentage`
/// constraints: the parts are the layout solver's, and there is one part per
/// constraint (the solver's result has one segment per constraint). Nothing
/// else is claimed of the parts.
#[verifier::external_body]
fn split_percentages(area: Area, vertical: bool, first: u16, second: u16, third: u16) -> (parts: Vec<Area>)
    ensures
        parts@.len() == 3,
        parts@.map_values(|p: Area| area_tuple(p)) == percent_split(area_tuple(area), vertical, first, second, third),
{
    let direction = if vertical { ratatui::layout::Direction::Vertical } else { ratatui::layout::Direction::Horizontal };
    let rects = ratatui::layout::Layout::default()
        .direction(direction)
        .constraints([
            ratatui::layout::Constraint::Percentage(first),
            ratatui::layout::Constraint::Percentage(second),
            ratatui::layout::Constraint::Percentage(third),
        ])
        .split(ratatui::layout::Rect::new(area.x, area.y, area.width, area.height));
    rects.iter().map(|r| Area { x: r.x, y: r.y, width: r.width, height: r.height }).collect()
}

/// The percentages splitting an extent into a centred part of `percent` and
/// two equal margins.
pub open spec fn centred_percents(percent: u16) -> (u16, u16, u16) {
    (((100 - percent) / 2) as u16, percent, ((100 - percent) / 2) as u16)
}

/// The centred rectangle taking `percent_x` of the width and `percent_y` of the height of `r`.
pub open spec fn centered_rect_spec(percent_x: u16, percent_y: u16, r: Area) -> (u16, u16, u16, u16) {
    let (a, b, c) = centred_percents(percent_y);
    let middle = percent_split(area_tuple(r), true, a, b, c)[1];
    let (d, e, f) = centred_percents(percent_x);
    percent_split(middle, false, d, e, f)[1]
}

/// Helper to carve out a centred rectangle sized by percentages of the parent area.
pub fn centered_rect(percent_x: u16, percent_y: u16, r: Area) -> (c: Area)
    requires
        percent_x <= 100,
        percent_y <= 100,
    ensures
        area_tuple(c) == centered_rect_spec(percent_x, percent_y, r),
{
    let margin_y = (100 - percent_y) / 2;
    let rows = split_percentages(r, true, margin_y, percent_y, margin_y);
    assert(area_tuple(rows@[1]) == rows@.map_values(|p: Area| area_tuple(p))[1]);
    let margin_x = (100 - percent_x) / 2;
    let cols = split_percentages(rows[1], false, margin_x, percent_x, margin_x);
    assert(area_tuple(cols@[1]) == cols@.map_values(|p: Area| area_tuple(p))[1]);
    cols[1]
}

/// Restores the terminal once, however many times it is asked to.
pub struct RestoreLatch {
    restored: bool,
}

impl RestoreLatch {
    pub closed spec fn is_restored(&self) -> bool {
        self.restored
    }

    /// Raw mode and the alternate screen are active.
    pub fn new() -> (l: Self)
        ensures
            !l.is_restored(),
    {
        RestoreLatch { restored: false }
    }

    /// Whether the terminal still has to be restored.
    pub fn needs_restore(&self) -> (r: bool)
        ensures
            r == !self.is_restored(),
    {
        !self.restored
    }

    /// The terminal was restored; later requests do nothing.
    pub fn mark_restored(&mut self)
        ensures
            final(self).is_restored(),
    {
        self.restored = true;
    }
}

} // verus!
