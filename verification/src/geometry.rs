//! Screen geometry: hit-testing rectangles and monitors, placing the
//! lookup window next to the cursor, and choosing the recognition area.

use vstd::prelude::*;
use crate::image::{clamp, decimal, decimal_string, Region};

verus! {

/// `i32::saturating_add`: the sum, clamped to the range of `i32`.
pub assume_specification[ i32::saturating_add ](a: i32, b: i32) -> (r: i32)
    ensures
        r == if a + b > i32::MAX {
            i32::MAX as int
        } else if a + b < i32::MIN {
            i32::MIN as int
        } else {
            a + b
        },
;

pub open spec fn saturating_sum(a: int, b: int) -> int {
    if a + b > i32::MAX {
        i32::MAX as int
    } else if a + b < i32::MIN {
        i32::MIN as int
    } else {
        a + b
    }
}

/// Whether the point lies in the rectangle; the left and top edges belong
/// to it, the right and bottom edges do not (the far edges are computed
/// with saturating addition).
pub open spec fn spec_point_in_rect(x: int, y: int, rect_x: int, rect_y: int, width: int, height: int) -> bool {
    &&& x >= rect_x
    &&& x < saturating_sum(rect_x, width)
    &&& y >= rect_y
    &&& y < saturating_sum(rect_y, height)
}

/// Hit test of a point (physical screen coordinates) against the overlay
/// window's rectangle.
pub fn point_in_rect(x: i32, y: i32, rect_x: i32, rect_y: i32, width: i32, height: i32) -> (r: bool)
    ensures
        r == spec_point_in_rect(x as int, y as int, rect_x as int, rect_y as int, width as int, height as int),
{
    x >= rect_x && x < rect_x.saturating_add(width) && y >= rect_y && y < rect_y.saturating_add(height)
}

/// A monitor of the desktop: its top-left corner in desktop coordinates
/// and its size in physical pixels.
#[derive(Clone, Copy, Debug)]
pub struct MonitorInfo {
    pub x: i32,
    pub y: i32,
    pub width: u32,
    pub height: u32,
}

impl MonitorInfo {
    /// The monitor's area, far edges excluded, holds the point.
    pub open spec fn holds(&self, x: int, y: int) -> bool {
        x >= self.x && y >= self.y && x < self.x + self.width && y < self.y + self.height
    }

    /// Whether a desktop point lies on this monitor.
    pub fn contains_global_point(&self, x: i32, y: i32) -> (r: bool)
        requires
            self.x + self.width <= i32::MAX,
            self.y + self.height <= i32::MAX,
        ensures
            r == self.holds(x as int, y as int),
    {
        x >= self.x && y >= self.y && (x as i64) < (self.x as i64) + (self.width as i64) && (y as i64)
            < (self.y as i64) + (self.height as i64)
    }

    /// A desktop point relative to the monitor's top-left corner.
    pub fn global_to_local(&self, x: i32, y: i32) -> (r: (i32, i32))
        requires
            i32::MIN <= x - self.x <= i32::MAX,
            i32::MIN <= y - self.y <= i32::MAX,
        ensures
            r.0 == x - self.x,
            r.1 == y - self.y,
    {
        (x - self.x, y - self.y)
    }

    /// Whether the point lies on the monitor, far edges included (how the
    /// monitor under the mouse is chosen when the window is placed).
    pub fn contains_including_edges(&self, x: i32, y: i32) -> (r: bool)
        ensures
            r == (x >= self.x && x <= self.x + self.width && y >= self.y && y <= self.y + self.height),
    {
        x >= self.x && (x as i64) <= (self.x as i64) + (self.width as i64) && y >= self.y && (y as i64)
            <= (self.y as i64) + (self.height as i64)
    }
}

/// The first monitor holding the point, if any.
pub fn find_monitor_at(monitors: &Vec<MonitorInfo>, x: i32, y: i32) -> (r: Option<MonitorInfo>)
    requires
        forall|i: int| 0 <= i < monitors.len() ==> #[trigger] monitors@[i].x + monitors@[i].width <= i32::MAX
            && monitors@[i].y + monitors@[i].height <= i32::MAX,
    ensures
        r matches Some(m) ==> exists|i: int| 0 <= i < monitors.len() && #[trigger] monitors@[i] == m && m.holds(
            x as int,
            y as int,
        ) && forall|k: int| 0 <= k < i ==> !monitors@[k].holds(x as int, y as int),
        r is None ==> forall|i: int| 0 <= i < monitors.len() ==> !(#[trigger] monitors@[i]).holds(x as int, y as int),
{
    let mut i: usize = 0;
    while i < monitors.len()
        invariant
            i <= monitors.len(),
            forall|j: int| 0 <= j < monitors.len() ==> #[trigger] monitors@[j].x + monitors@[j].width <= i32::MAX
                && monitors@[j].y + monitors@[j].height <= i32::MAX,
            forall|k: int| 0 <= k < i ==> !(#[trigger] monitors@[k]).holds(x as int, y as int),
        decreases monitors.len() - i,
    {
        if monitors[i].contains_global_point(x, y) {
            return Some(monitors[i]);
        }
        i = i + 1;
    }
    None
}

/// The decimal text of a signed number, as `i32::to_string` writes it.
pub open spec fn signed_decimal(n: int) -> Seq<char> {
    if n < 0 {
        "-"@ + decimal((-n) as nat)
    } else {
        decimal(n as nat)
    }
}

fn signed_decimal_string(n: i32) -> (r: String)
    ensures
        r@ == signed_decimal(n as int),
{
    let mut text = String::new();
    if n < 0 {
        text.push('-');
        let magnitude = (-(n as i64)) as u128;
        text.push_str(decimal_string(magnitude).as_str());
        assert(text@ == "-"@ + decimal((-n) as nat)) by {
            reveal_strlit("-");
        }
    } else {
        text.push_str(decimal_string(n as u128).as_str());
    }
    text
}

/// Finds the monitor under a desktop point among the monitors of the
/// desktop.
pub struct MonitorManager;

impl MonitorManager {
    /// The first monitor holding the point, or
    /// "no monitor contains global point ({x}, {y})".
    pub fn find_at(monitors: &Vec<MonitorInfo>, x: i32, y: i32) -> (r: Result<MonitorInfo, String>)
        requires
            forall|i: int| 0 <= i < monitors.len() ==> #[trigger] monitors@[i].x + monitors@[i].width <= i32::MAX
                && monitors@[i].y + monitors@[i].height <= i32::MAX,
        ensures
            r matches Ok(m) ==> exists|i: int| 0 <= i < monitors.len() && #[trigger] monitors@[i] == m && m.holds(
                x as int,
                y as int,
            ) && forall|k: int| 0 <= k < i ==> !monitors@[k].holds(x as int, y as int),
            r matches Err(message) ==> (forall|i: int| 0 <= i < monitors.len() ==> !(#[trigger] monitors@[i]).holds(
                x as int,
                y as int,
            )) && message@ == "no monitor contains global point ("@ + signed_decimal(x as int) + ", "@
                + signed_decimal(y as int) + ")"@,
            (exists|i: int| 0 <= i < monitors.len() && (#[trigger] monitors@[i]).holds(x as int, y as int)) ==> r is Ok,
    {
        match find_monitor_at(monitors, x, y) {
            Some(monitor) => Ok(monitor),
            None => {
                let mut message = String::new();
                message.push_str("no monitor contains global point (");
                message.push_str(signed_decimal_string(x).as_str());
                message.push_str(", ");
                message.push_str(signed_decimal_string(y).as_str());
                message.push_str(")");
                Err(message)
            },
        }
    }
}

/// Position and size of the lookup window.
#[derive(Clone, Copy, Debug)]
pub struct WindowGeometry {
    pub x: i32,
    pub y: i32,
    pub width: u32,
    pub height: u32,
}

pub open spec fn clamp_up_down(v: int, lo: int, hi: int) -> int {
    // `v.max(lo).min(hi)`
    let raised = if v < lo { lo } else { v };
    if raised > hi { hi } else { raised }
}

/// Width of the lookup window on a monitor: 31.25% of the monitor's width,
/// rounded down.
pub open spec fn window_width(m: MonitorInfo) -> int {
    m.width * 5 / 16
}

/// Height of the lookup window: 5/8 of its width, rounded down.
pub open spec fn window_height(m: MonitorInfo) -> int {
    window_width(m) * 5 / 8
}

/// The window is 31.25% of the monitor wide (rounded down) with an 8:5
/// aspect (height rounded down); it starts at the cursor column, and sits
/// 20 pixels below the cursor when the cursor is in the upper half of the
/// monitor and 20 pixels above it otherwise, kept on the monitor.
pub open spec fn spec_window_geometry(mouse_x: int, mouse_y: int, m: MonitorInfo) -> WindowGeometry {
    let w = window_width(m);
    let h = window_height(m);
    let x = clamp_up_down(mouse_x, m.x as int, m.x + m.width - w);
    let y = if mouse_y < m.y + m.height / 2 {
        clamp_up_down(mouse_y + 20, m.y as int, m.y + m.height - h)
    } else {
        clamp_up_down(mouse_y - h - 20, m.y as int, m.y + m.height - h)
    };
    WindowGeometry { x: x as i32, y: y as i32, width: w as u32, height: h as u32 }
}

fn clamp_up_down_i32(v: i32, lo: i32, hi: i32) -> (r: i32)
    ensures
        r == clamp_up_down(v as int, lo as int, hi as int),
{
    let raised = if v < lo { lo } else { v };
    if raised > hi { hi } else { raised }
}

/// Size and place of the lookup window for a cursor on the given monitor.
/// The width is `width * 0.3125` and the height `width * 0.625` of that,
/// both rounded down, which are exactly `width * 5 / 16` and `w * 5 / 8`.
pub fn calculate_window_geometry(mouse_x: i32, mouse_y: i32, monitor: &MonitorInfo) -> (r: WindowGeometry)
    requires
        monitor.width <= i32::MAX,
        monitor.height <= i32::MAX,
        monitor.x + monitor.width <= i32::MAX,
        monitor.y + monitor.height <= i32::MAX,
        monitor.y + monitor.height - window_height(*monitor) >= i32::MIN,
        mouse_y + 20 <= i32::MAX,
        mouse_y - window_height(*monitor) - 20 >= i32::MIN,
    ensures
        r == spec_window_geometry(mouse_x as int, mouse_y as int, *monitor),
{
    let calc_width = ((monitor.width as u64) * 5 / 16) as u32;
    let calc_height = ((calc_width as u64) * 5 / 8) as u32;
    assert(calc_width <= monitor.width && calc_height <= calc_width) by (nonlinear_arith)
        requires
            calc_width == monitor.width as u64 * 5 / 16,
            calc_height == calc_width as u64 * 5 / 8,
    ;
    let right_limit = monitor.x + (monitor.width as i32) - (calc_width as i32);
    let bottom_limit = monitor.y + (monitor.height as i32) - (calc_height as i32);
    let x = clamp_up_down_i32(mouse_x, monitor.x, right_limit);
    let y = if mouse_y < monitor.y + (monitor.height / 2) as i32 {
        clamp_up_down_i32(mouse_y + 20, monitor.y, bottom_limit)
    } else {
        clamp_up_down_i32(mouse_y - (calc_height as i32) - 20, monitor.y, bottom_limit)
    };
    WindowGeometry { x, y, width: calc_width, height: calc_height }
}

/// The lookup window lies on its monitor whenever the monitor is at least
/// as high as the window: horizontally always, vertically then too.
pub proof fn lemma_window_stays_on_monitor(mouse_x: int, mouse_y: int, m: MonitorInfo)
    requires
        window_height(m) <= m.height,
        m.x + m.width <= i32::MAX,
        m.y + m.height <= i32::MAX,
    ensures
        ({
            let g = spec_window_geometry(mouse_x, mouse_y, m);
            &&& m.x <= g.x && g.x + g.width <= m.x + m.width
            &&& m.y <= g.y && g.y + g.height <= m.y + m.height
        }),
{
    assert(window_width(m) <= m.width) by (nonlinear_arith)
        requires
            window_width(m) == m.width * 5 / 16,
            m.width >= 0,
    ;
    assert(window_height(m) <= window_width(m)) by (nonlinear_arith)
        requires
            window_height(m) == window_width(m) * 5 / 8,
            window_width(m) >= 0,
    ;
}

/// On a monitor tall enough to hold the window 20 pixels beside the cursor
/// in either half, the window never covers the cursor's row: for a cursor
/// on the monitor in its upper half (measured from the monitor's own top)
/// the window starts 20 pixels below the cursor; in the lower half it ends
/// 20 pixels above it.
pub proof fn lemma_window_beside_cursor(mouse_x: int, mouse_y: int, m: MonitorInfo)
    requires
        m.y <= mouse_y < m.y + m.height,
        m.height / 2 >= window_height(m) + 20,
        m.x + m.width <= i32::MAX,
        m.y + m.height <= i32::MAX,
    ensures
        ({
            let g = spec_window_geometry(mouse_x, mouse_y, m);
            &&& mouse_y < m.y + m.height / 2 ==> g.y == mouse_y + 20
            &&& mouse_y >= m.y + m.height / 2 ==> g.y + g.height == mouse_y - 20
            &&& g.y > mouse_y || g.y + g.height < mouse_y
        }),
{
    assert(window_width(m) <= m.width) by (nonlinear_arith)
        requires
            window_width(m) == m.width * 5 / 16,
            m.width >= 0,
    ;
    assert(window_height(m) <= window_width(m)) by (nonlinear_arith)
        requires
            window_height(m) == window_width(m) * 5 / 8,
            window_width(m) >= 0,
    ;
}

/// Width of the area given to the recognition pipeline.
pub const RECOGNITION_WIDTH: u32 = 800;

/// Height of the area given to the recognition pipeline.
pub const RECOGNITION_HEIGHT: u32 = 400;

/// The 800 x 400 area around the click that the recognition pipeline
/// reads: centred on the click and moved to stay on the screen (to the
/// top-left corner when the screen is smaller than the area).
pub fn recognition_region(click_x: i32, click_y: i32, screen_width: i32, screen_height: i32) -> (r: Region)
    requires
        click_x - 400 >= i32::MIN,
        click_y - 200 >= i32::MIN,
        screen_width - 800 >= i32::MIN,
        screen_height - 400 >= i32::MIN,
    ensures
        r.width == RECOGNITION_WIDTH,
        r.height == RECOGNITION_HEIGHT,
        r.x == clamp(click_x - 400, 0, if screen_width - 800 > 0 { screen_width - 800 } else { 0 }),
        r.y == clamp(click_y - 200, 0, if screen_height - 400 > 0 { screen_height - 400 } else { 0 }),
{
    let region_width = RECOGNITION_WIDTH;
    let region_height = RECOGNITION_HEIGHT;
    let max_x = if screen_width - (region_width as i32) > 0 { screen_width - (region_width as i32) } else { 0 };
    let max_y = if screen_height - (region_height as i32) > 0 { screen_height - (region_height as i32) } else { 0 };
    let wanted_x = click_x - (region_width as i32) / 2;
    let wanted_y = click_y - (region_height as i32) / 2;
    let region_x = if wanted_x < 0 { 0 } else if wanted_x > max_x { max_x } else { wanted_x };
    let region_y = if wanted_y < 0 { 0 } else if wanted_y > max_y { max_y } else { wanted_y };
    Region::new(region_x, region_y, region_width, region_height)
}

/// Rounds a detection input size up to a multiple of 32, at least 32 (the
/// downsampling steps of the detection network need it).
pub fn detection_side(scaled: usize) -> (r: usize)
    requires
        scaled + 31 <= usize::MAX,
    ensures
        r % 32 == 0,
        r >= 32,
        r >= scaled,
        r == if (scaled + 31) / 32 * 32 > 32 { (scaled + 31) / 32 * 32 } else { 32 },
        r < scaled + 32 || r == 32,
{
    let side = ((scaled + 31) / 32) * 32;
    if side > 32 { side } else { 32 }
}

/// Longest side allowed for the detection input.
pub const DETECTION_LIMIT: usize = 960;

/// Input size of the detection network for an image that already fits
/// the 960-pixel limit: each side rounded up to a multiple of 32, at least 32.
pub fn detection_input_size(width: usize, height: usize) -> (r: (usize, usize))
    requires
        width <= DETECTION_LIMIT,
        height <= DETECTION_LIMIT,
    ensures
        r.0 == if (width + 31) / 32 * 32 > 32 { (width + 31) / 32 * 32 } else { 32 },
        r.1 == if (height + 31) / 32 * 32 > 32 { (height + 31) / 32 * 32 } else { 32 },
{
    (detection_side(width), detection_side(height))
}

} // verus!
