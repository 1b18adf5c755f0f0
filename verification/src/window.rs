use vstd::prelude::*;
use crate::text::str_eq;

verus! {

/// Horizontal or vertical margin left when `outer` is centred in `work` (none when
/// it does not fit).
pub open spec fn centering_margin(work: u32, outer: u32) -> int {
    if work > outer {
        (work - outer) / 2
    } else {
        0
    }
}

/// Top-left corner that centres an `outer_w` x `outer_h` window in the work area at
/// (`work_x`, `work_y`) of size `work_w` x `work_h`; a window larger than the work
/// area is aligned with its top-left corner.
pub fn centered_position(
    work_x: i32,
    work_y: i32,
    work_w: u32,
    work_h: u32,
    outer_w: u32,
    outer_h: u32,
) -> (r: (i32, i32))
    requires
        work_x + centering_margin(work_w, outer_w) <= i32::MAX,
        work_y + centering_margin(work_h, outer_h) <= i32::MAX,
    ensures
        r.0 == work_x + centering_margin(work_w, outer_w),
        r.1 == work_y + centering_margin(work_h, outer_h),
{
    let free_w = if work_w > outer_w {
        work_w - outer_w
    } else {
        0
    };
    let free_h = if work_h > outer_h {
        work_h - outer_h
    } else {
        0
    };
    let x = work_x + (free_w / 2) as i32;
    let y = work_y + (free_h / 2) as i32;
    (x, y)
}


// ---------------------------------------------------------------------------
// Startup window size
// ---------------------------------------------------------------------------

/// How the first window is sized for a video.
pub enum SizePolicy {
    /// Keep the configured window size.
    Keep,
    /// Maximise the window.
    Maximize,
    /// Make the video as large as the work area allows.
    Fit,
    /// Show the video at the configured scale, within the work area.
    Video,
}

/// The window size policy named `policy`; anything unknown sizes by the video.
pub open spec fn spec_size_policy(policy: Seq<char>) -> SizePolicy {
    if policy == "keep"@ {
        SizePolicy::Keep
    } else if policy == "maximize"@ {
        SizePolicy::Maximize
    } else if policy == "fit"@ {
        SizePolicy::Fit
    } else {
        SizePolicy::Video
    }
}

/// Reads the window size policy; anything unknown sizes by the video.
pub fn size_policy(policy: &str) -> (r: SizePolicy)
    ensures
        r == spec_size_policy(policy@),
{
    if str_eq(policy, "keep") {
        SizePolicy::Keep
    } else if str_eq(policy, "maximize") {
        SizePolicy::Maximize
    } else if str_eq(policy, "fit") {
        SizePolicy::Fit
    } else {
        SizePolicy::Video
    }
}

/// The room a window may take: a work area of at least 1 x 1, the controls'
/// height capped to leave at least one row, and the height left for the video.
pub struct WorkArea {
    pub width: u32,
    pub height: u32,
    pub ui_height: u32,
    pub video_height: u32,
}

/// The room in a `work_w` x `work_h` work area with `ui_height` rows of controls.
pub fn work_area(work_w: u32, work_h: u32, ui_height: u32) -> (r: WorkArea)
    ensures
        r.width == if work_w < 1 {
            1
        } else {
            work_w
        },
        r.height == if work_h < 1 {
            1
        } else {
            work_h
        },
        r.ui_height == if ui_height < r.height - 1 {
            ui_height as int
        } else {
            r.height - 1
        },
        r.video_height == r.height - r.ui_height,
        1 <= r.video_height <= r.height,
{
    let width = if work_w < 1 {
        1
    } else {
        work_w
    };
    let height = if work_h < 1 {
        1
    } else {
        work_h
    };
    let ui = if ui_height < height - 1 {
        ui_height
    } else {
        height - 1
    };
    WorkArea { width, height, ui_height: ui, video_height: height - ui }
}

/// Smallest window, shrunk to the work area when that is smaller.
pub const MIN_WINDOW_WIDTH: u32 = 640;

pub const MIN_WINDOW_HEIGHT: u32 = 400;

/// The window size for a video shown at `scaled_w` x `scaled_h` pixels: at least
/// one pixel of video, the controls added below it, at least the minimum window
/// size, and never more than the work area.
pub open spec fn spec_window_size(scaled_w: u32, scaled_h: u32, area: WorkArea) -> (int, int) {
    let content_w = if scaled_w < 1 {
        1
    } else if scaled_w > area.width {
        area.width as int
    } else {
        scaled_w as int
    };
    let video_h = if scaled_h < 1 {
        1
    } else {
        scaled_h as int
    };
    let with_ui = if video_h + area.ui_height > u32::MAX {
        u32::MAX as int
    } else {
        video_h + area.ui_height
    };
    let content_h = if with_ui > area.height {
        area.height as int
    } else {
        with_ui
    };
    let min_w = if MIN_WINDOW_WIDTH < area.width {
        MIN_WINDOW_WIDTH as int
    } else {
        area.width as int
    };
    let min_h = if MIN_WINDOW_HEIGHT < area.height {
        MIN_WINDOW_HEIGHT as int
    } else {
        area.height as int
    };
    (
        if content_w < min_w {
            min_w
        } else {
            content_w
        },
        if content_h < min_h {
            min_h
        } else {
            content_h
        },
    )
}

/// Sizes the window around a video scaled to `scaled_w` x `scaled_h` pixels.
pub fn window_size(scaled_w: u32, scaled_h: u32, area: &WorkArea) -> (r: (u32, u32))
    requires
        1 <= area.width,
        1 <= area.height,
        area.ui_height < area.height,
    ensures
        (r.0 as int, r.1 as int) == spec_window_size(scaled_w, scaled_h, *area),
        r.0 <= area.width,
        r.1 <= area.height,
{
    let content_w = if scaled_w < 1 {
        1
    } else if scaled_w > area.width {
        area.width
    } else {
        scaled_w
    };
    let video_h = if scaled_h < 1 {
        1
    } else {
        scaled_h
    };
    let with_ui = video_h.saturating_add(area.ui_height);
    let content_h = if with_ui > area.height {
        area.height
    } else {
        with_ui
    };
    let min_w = if MIN_WINDOW_WIDTH < area.width {
        MIN_WINDOW_WIDTH
    } else {
        area.width
    };
    let min_h = if MIN_WINDOW_HEIGHT < area.height {
        MIN_WINDOW_HEIGHT
    } else {
        area.height
    };
    (
        if content_w < min_w {
            min_w
        } else {
            content_w
        },
        if content_h < min_h {
            min_h
        } else {
            content_h
        },
    )
}

} // verus!
