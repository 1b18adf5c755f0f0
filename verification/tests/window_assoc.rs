use video_player::assoc::{
    command_key, command_names_exe, extension_key, find_text, icon_value, open_command,
    open_with_key,
};
use video_player::window::{size_policy, window_size, work_area, SizePolicy};

fn resize(video_w: u32, video_h: u32, scale: f64, ui: u32, work_w: u32, work_h: u32) -> (u32, u32) {
    let area = work_area(work_w, work_h, ui);
    let s = scale
        .max(0.01)
        .min(area.width as f64 / video_w.max(1) as f64)
        .min(area.video_height as f64 / video_h.max(1) as f64);
    let w = (video_w as f64 * s).floor() as u32;
    let h = (video_h as f64 * s).floor() as u32;
    window_size(w, h, &area)
}

#[test]
fn fits_4k_inner_size_below_outer_work_area() {
    let (inner_w, inner_h) = resize(3840, 2160, 1.0, 140, 1904, 1001);
    assert_eq!((inner_w, inner_h), (1530, 1001));
    assert!(inner_w + 16 <= 1920);
    assert!(inner_h + 39 <= 1040);
}

#[test]
fn only_explicit_policy_maximizes() {
    assert!(matches!(size_policy("video"), SizePolicy::Video));
    assert!(matches!(size_policy("maximize"), SizePolicy::Maximize));
    assert!(matches!(size_policy("keep"), SizePolicy::Keep));
    assert!(matches!(size_policy("fit"), SizePolicy::Fit));
    assert!(matches!(size_policy("Maximize"), SizePolicy::Video));
}

#[test]
fn small_videos_get_the_minimum_window() {
    let area = work_area(1920, 1040, 172);
    assert_eq!((area.width, area.height, area.ui_height, area.video_height), (1920, 1040, 172, 868));
    assert_eq!(window_size(320, 240, &area), (640, 412));
    assert_eq!(window_size(0, 0, &area), (640, 400));
    let tiny = work_area(0, 0, 50);
    assert_eq!((tiny.width, tiny.height, tiny.ui_height, tiny.video_height), (1, 1, 0, 1));
    assert_eq!(window_size(5000, 5000, &tiny), (1, 1));
}

#[test]
fn association_entries() {
    assert_eq!(icon_value("C:\\p\\v.exe"), "C:\\p\\v.exe,0");
    assert_eq!(open_command("C:\\p\\v.exe"), "\"C:\\p\\v.exe\" \"%1\"");
    assert_eq!(extension_key("mkv"), ".mkv");
    assert_eq!(open_with_key("mkv"), ".mkv\\OpenWithProgids");
    assert_eq!(command_key(), "com.hjf.videoplayer\\shell\\open\\command");
}

#[test]
fn registered_command_is_matched_ignoring_case() {
    assert!(command_names_exe("\"C:\\APPS\\Player.EXE\" \"%1\"", "c:\\apps\\player.exe"));
    assert!(!command_names_exe("\"C:\\other.exe\" \"%1\"", "c:\\apps\\player.exe"));
    assert!(find_text("abc", ""));
    assert!(find_text("abcabd", "abd"));
    assert!(!find_text("ab", "abc"));
}
