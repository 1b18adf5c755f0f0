use video_player::media::{
    extension, file_name, file_stem, is_subtitle_path, is_video_path, sibling_video_names,
    validate_video_file, video_file_from_args,
};

#[test]
fn extracts_first_video_argument() {
    let args = ["--flag", "C:/电影/示例.MP4", "later.mkv"];
    assert_eq!(video_file_from_args(&args), Some("C:/电影/示例.MP4".into()));
}

#[test]
fn rejects_non_video_suffixes_and_options() {
    assert_eq!(video_file_from_args(&["--file=a.mp4", "a.mp4.txt"]), None);
}

#[test]
fn extension_is_lower_cased_after_the_last_dot() {
    assert_eq!(extension("D:/movies/Inception.MKV"), Some("mkv".to_string()));
    assert_eq!(extension("archive.tar.GZ"), Some("gz".to_string()));
    assert_eq!(extension("a."), Some(String::new()));
}

#[test]
fn hidden_files_and_dot_components_have_no_extension() {
    assert_eq!(extension(".bashrc"), None);
    assert_eq!(extension("dir/.."), None);
    assert_eq!(extension("noext"), None);
    assert_eq!(extension(""), None);
}

#[test]
fn file_name_skips_trailing_separators_and_dots() {
    assert_eq!(file_name("a/b.mp4/"), Some("b.mp4".to_string()));
    assert_eq!(file_name("a\\b.srt"), Some("b.srt".to_string()));
    assert_eq!(file_name("a/b/."), Some("b".to_string()));
    assert_eq!(file_name("a/b/.."), None);
    assert_eq!(file_name("/"), None);
}

#[test]
fn file_stem_drops_the_last_extension() {
    assert_eq!(file_stem("D:/movies/Inception.srt"), Some("Inception".to_string()));
    assert_eq!(file_stem("x/a.b.c"), Some("a.b".to_string()));
    assert_eq!(file_stem(".hidden"), Some(".hidden".to_string()));
}

#[test]
fn classifies_videos_and_subtitles() {
    assert!(is_video_path("movie.WebM"));
    assert!(is_video_path("clip.ts"));
    assert!(!is_video_path("movie.srt"));
    assert!(is_subtitle_path("movie.ASS"));
    assert!(!is_subtitle_path("movie.mp4"));
}

#[test]
fn validate_video_file_reports_each_failure() {
    assert_eq!(
        validate_video_file("a.txt", Ok(true)),
        Err("不支持的视频文件格式".to_string())
    );
    assert_eq!(
        validate_video_file("a.mp4", Err("denied".to_string())),
        Err("无法读取视频文件: denied".to_string())
    );
    assert_eq!(
        validate_video_file("a.mp4", Ok(false)),
        Err("视频路径不是普通文件".to_string())
    );
    assert_eq!(validate_video_file("a.mp4", Ok(true)), Ok(()));
}

#[test]
fn sibling_names_follow_the_video_extensions() {
    let names = sibling_video_names("D:/movies/Inception.srt").unwrap();
    assert_eq!(names.len(), 12);
    assert_eq!(names[0], "Inception.mkv");
    assert_eq!(names[1], "Inception.mp4");
    assert_eq!(names[11], "Inception.vob");
    assert_eq!(sibling_video_names("D:/movies/Inception.mkv"), None);
}
