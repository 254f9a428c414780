//! Where a new window is placed on the screen.
use vstd::prelude::*;

verus! {

/// The least width and height that a saved frame must have to be used, in pixels.
pub const LEAST_SIDE: i64 = 200;

/// How far a further window stands below and to the right of the one before, in pixels.
pub const CASCADE: i32 = 28;

/// A monitor: its place and size on the desktop, and the size that a new window has on it,
/// all in pixels.
#[derive(Clone, Copy, Debug)]
pub struct Monitor {
    pub x: i32,
    pub y: i32,
    pub width: u32,
    pub height: u32,
    pub window_width: u32,
    pub window_height: u32,
}

/// Where a new window is placed.
#[derive(Clone, Copy, Debug, PartialEq, Eq, Structural)]
pub enum Placement {
    /// At this place, with this size.
    Frame { x: i32, y: i32, width: u32, height: u32 },
    /// At this place, with the size that it has.
    At { x: i32, y: i32 },
    /// In the middle, as the window system sees it.
    Center,
    /// Where the window system puts it.
    Leave,
}

/// A 32-bit pattern read as a signed number.
pub open spec fn as_signed(n: int) -> int {
    if n < 0x8000_0000 {
        n
    } else {
        n - 0x1_0000_0000
    }
}

/// Half of `n`, rounded towards zero.
pub open spec fn half(n: int) -> int {
    if n >= 0 {
        n / 2
    } else {
        -((-n) / 2)
    }
}

/// How far from the edge a window of size `need` stands in the middle of `have`.
pub open spec fn margin(have: u32, need: u32) -> int {
    half(
        as_signed(
            if have > need {
                have - need
            } else {
                0
            },
        ),
    )
}

pub open spec fn fits_i32(n: int) -> bool {
    i32::MIN <= n <= i32::MAX
}

/// Whether the middle of the monitor has coordinates of 32 bits.
pub open spec fn center_fits(m: Monitor) -> bool {
    &&& fits_i32(m.x + margin(m.width, m.window_width))
    &&& fits_i32(m.y + margin(m.height, m.window_height))
}

/// Whether the place next to the window at `p` has coordinates of 32 bits.
pub open spec fn next_fits(p: (i32, i32)) -> bool {
    fits_i32(p.0 + CASCADE) && fits_i32(p.1 + CASCADE)
}

/// Whether a frame out of a saved session is large enough to be used.
pub open spec fn usable(f: [i64; 4]) -> bool {
    f@[2] >= LEAST_SIDE && f@[3] >= LEAST_SIDE
}

/// Whether a saved session gives the window a usable frame.
pub open spec fn restores(saved_frame: Option<[i64; 4]>) -> bool {
    saved_frame is Some && usable(saved_frame->0)
}

/// The place of a new window. A usable frame out of a saved session comes first. Then the
/// first window takes the frame that the last run left, or the middle of the monitor, and
/// a further one stands next to its host.
pub open spec fn placement(
    saved_frame: Option<[i64; 4]>,
    is_first: bool,
    last_frame: Option<(i32, i32, u32, u32)>,
    monitor: Option<Monitor>,
    host: Option<(i32, i32)>,
) -> Placement {
    if restores(saved_frame) {
        let f = saved_frame->0;
        Placement::Frame {
            x: f@[0] as i32,
            y: f@[1] as i32,
            width: f@[2] as u32,
            height: f@[3] as u32,
        }
    } else if is_first {
        match last_frame {
            Some((x, y, width, height)) => Placement::Frame { x, y, width, height },
            None => match monitor {
                Some(m) => Placement::At {
                    x: (m.x + margin(m.width, m.window_width)) as i32,
                    y: (m.y + margin(m.height, m.window_height)) as i32,
                },
                None => Placement::Center,
            },
        }
    } else {
        match host {
            Some((x, y)) => Placement::At { x: (x + CASCADE) as i32, y: (y + CASCADE) as i32 },
            None => Placement::Leave,
        }
    }
}

/// How far from the edge a window of size `need` stands in the middle of `have`.
fn margin_of(have: u32, need: u32) -> (r: i64)
    ensures
        r == margin(have, need),
        -0x4000_0000 <= r <= 0x4000_0000,
{
    let gap: u32 = if have > need {
        have - need
    } else {
        0
    };
    if gap < 0x8000_0000 {
        (gap / 2) as i64
    } else {
        let below: u64 = 0x1_0000_0000 - gap as u64;
        -((below / 2) as i64)
    }
}

/// Whether a frame out of a saved session is large enough to be used.
pub fn is_usable(f: [i64; 4]) -> (r: bool)
    ensures
        r == usable(f),
{
    f[2] >= LEAST_SIDE && f[3] >= LEAST_SIDE
}

/// Whether the middle of the monitor has coordinates of 32 bits.
pub fn can_center(m: Monitor) -> (r: bool)
    ensures
        r == center_fits(m),
{
    let x: i64 = m.x as i64 + margin_of(m.width, m.window_width);
    let y: i64 = m.y as i64 + margin_of(m.height, m.window_height);
    let (low, high): (i64, i64) = (i32::MIN as i64, i32::MAX as i64);
    low <= x && x <= high && low <= y && y <= high
}

/// Whether the place next to a window has coordinates of 32 bits.
pub fn can_cascade(p: (i32, i32)) -> (r: bool)
    ensures
        r == next_fits(p),
{
    p.0 <= i32::MAX - CASCADE && p.1 <= i32::MAX - CASCADE
}

/// Decides where a new window is placed.
pub fn place_window(
    saved_frame: Option<[i64; 4]>,
    is_first: bool,
    last_frame: Option<(i32, i32, u32, u32)>,
    monitor: Option<Monitor>,
    host: Option<(i32, i32)>,
) -> (r: Placement)
    requires
        !restores(saved_frame) && is_first && last_frame is None && monitor is Some ==> center_fits(
            monitor->0,
        ),
        !restores(saved_frame) && !is_first && host is Some ==> next_fits(host->0),
    ensures
        r == placement(saved_frame, is_first, last_frame, monitor, host),
{
    if let Some(f) = saved_frame {
        if is_usable(f) {
            return Placement::Frame {
                x: f[0] as i32,
                y: f[1] as i32,
                width: f[2] as u32,
                height: f[3] as u32,
            };
        }
    }
    if is_first {
        match last_frame {
            Some((x, y, width, height)) => Placement::Frame { x, y, width, height },
            None => match monitor {
                Some(m) => Placement::At {
                    x: (m.x as i64 + margin_of(m.width, m.window_width)) as i32,
                    y: (m.y as i64 + margin_of(m.height, m.window_height)) as i32,
                },
                None => Placement::Center,
            },
        }
    } else {
        match host {
            Some((x, y)) => Placement::At { x: x + CASCADE, y: y + CASCADE },
            None => Placement::Leave,
        }
    }
}

} // verus!
