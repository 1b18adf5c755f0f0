use video_player::search::{
    check_stars, escape_like, like_pattern, paginate, plan_keyword_search, plan_search,
    SearchRequest,
};
use video_player::settings::{check_setting_key, parse_u32, validate_setting};
use video_player::tags::{
    batch_operation, check_batch_size, check_deletable, check_multi_allowed,
    check_single_value_conflicts, check_system_key, check_tag_type_id, clean_text,
    group_video_tags, prepare_tag_type, tag_type_from_row, unique_hashes, validate_tag_values,
    BatchOperation, TagOption, TagRow,
};

fn number(value: &str) -> Option<u64> {
    value.parse::<f64>().ok().map(f64::to_bits)
}

fn strings(values: &[&str]) -> Vec<String> {
    values.iter().map(|v| v.to_string()).collect()
}

#[test]
fn escapes_like_metacharacters() {
    assert_eq!(escape_like(r"a%_\b"), r"a\%\_\\b");
}

#[test]
fn validates_settings() {
    assert!(validate_setting("skip_seconds", "5", number("5")).is_ok());
    assert!(validate_setting("skip_seconds", "0", number("0")).is_err());
    assert!(validate_setting("window_scale", "1.25", number("1.25")).is_ok());
    assert!(validate_setting("resume_mode", "other", number("other")).is_err());
}

#[test]
fn setting_errors_name_the_problem() {
    assert_eq!(
        validate_setting("skip_seconds", "x", number("x")),
        Err("快进秒数格式无效".to_string())
    );
    assert_eq!(
        validate_setting("skip_seconds", "61", number("61")),
        Err("快进秒数必须在 1-60 之间".to_string())
    );
    assert!(validate_setting("skip_seconds", "+60", number("+60")).is_ok());
    assert_eq!(
        validate_setting("window_scale", "3.5", number("3.5")),
        Err("窗口缩放必须在 0.25-3.0 之间".to_string())
    );
    assert!(validate_setting("window_scale", "0.25", number("0.25")).is_ok());
    assert!(validate_setting("window_scale", "NaN", number("NaN")).is_err());
    assert_eq!(
        validate_setting("window_scale", "big", number("big")),
        Err("窗口缩放格式无效".to_string())
    );
    assert!(validate_setting("volume", "-0", number("-0")).is_ok());
    assert!(validate_setting("volume", "100", number("100")).is_ok());
    assert_eq!(
        validate_setting("volume", "-1", number("-1")),
        Err("音量必须在 0-100 之间".to_string())
    );
    assert!(validate_setting("volume", "inf", number("inf")).is_err());
    assert!(validate_setting("window_size_policy", "fit", None).is_ok());
    assert_eq!(
        validate_setting("window_size_policy", "huge", None),
        Err("窗口尺寸策略无效".to_string())
    );
    assert!(validate_setting("muted", "true", None).is_ok());
    assert_eq!(validate_setting("muted", "yes", None), Err("静音设置无效".to_string()));
    assert_eq!(validate_setting("theme", "dark", None), Err("未知设置项".to_string()));
    assert!(check_setting_key("volume").is_ok());
    assert_eq!(check_setting_key("theme"), Err("未知设置项".to_string()));
}

#[test]
fn parses_unsigned_decimal() {
    assert_eq!(parse_u32("4294967295"), Some(u32::MAX));
    assert_eq!(parse_u32("4294967296"), None);
    assert_eq!(parse_u32("+7"), Some(7));
    assert_eq!(parse_u32("+"), None);
    assert_eq!(parse_u32("-1"), None);
    assert_eq!(parse_u32(" 1"), None);
    assert_eq!(parse_u32(""), None);
}

#[test]
fn clean_text_trims_and_bounds_length() {
    assert_eq!(clean_text("  电影 ".to_string(), "标签名称", 64), Ok("电影".to_string()));
    assert_eq!(
        clean_text("   ".to_string(), "标签名称", 64),
        Err("标签名称长度必须为 1-64 个字符".to_string())
    );
    assert_eq!(
        clean_text("abcd".to_string(), "标签选项", 3),
        Err("标签选项长度必须为 1-3 个字符".to_string())
    );
}

#[test]
fn prepare_tag_type_cleans_and_deduplicates_options() {
    let t = prepare_tag_type(" 类型 ".into(), "enum".into(), strings(&[" a", "b", "a ", "b"]))
        .unwrap();
    assert_eq!(t.name, "类型");
    assert_eq!(t.options, strings(&["a", "b"]));
    assert_eq!(
        prepare_tag_type("x".into(), "list".into(), vec![]).err(),
        Some("标签类型必须是 enum 或 free".to_string())
    );
    assert_eq!(
        prepare_tag_type("x".into(), "enum".into(), vec![]).err(),
        Some("枚举标签至少需要一个选项".to_string())
    );
    assert_eq!(
        prepare_tag_type("x".into(), "free".into(), strings(&["ok", " "])).err(),
        Some("标签选项长度必须为 1-128 个字符".to_string())
    );
    assert!(prepare_tag_type("x".into(), "free".into(), vec![]).is_ok());
}

#[test]
fn validates_tag_values() {
    let allowed = strings(&["1", "2", "3"]);
    assert_eq!(
        validate_tag_values("enum", 0, true, strings(&[" 2 ", "", "2"]), &allowed),
        Ok((false, strings(&["2"])))
    );
    assert_eq!(
        validate_tag_values("enum", 1, true, strings(&["1", "2"]), &allowed),
        Err("该标签只能设置一个值".to_string())
    );
    assert_eq!(
        validate_tag_values("enum", 1, false, strings(&["1", "9"]), &allowed),
        Err("标签值“9”不在候选项中".to_string())
    );
    assert_eq!(
        validate_tag_values("free", 1, false, strings(&["x", "y", "x"]), &vec![]),
        Ok((true, strings(&["x", "y"])))
    );
    let long = "长".repeat(1025);
    assert_eq!(
        validate_tag_values("free", 0, false, vec![long], &vec![]),
        Err("标签值数量或长度超出限制".to_string())
    );
    let many: Vec<String> = (0..101).map(|i| i.to_string()).collect();
    assert_eq!(
        validate_tag_values("free", 1, false, many, &vec![]),
        Err("标签值数量或长度超出限制".to_string())
    );
}

fn row(type_id: i64, name: &str, value: &str) -> TagRow {
    TagRow {
        type_id,
        name: name.to_string(),
        value_type: "free".to_string(),
        system_key: None,
        is_multi: 1,
        value: value.to_string(),
    }
}

#[test]
fn groups_tag_values_by_type() {
    let rows = vec![row(2, "演员", "甲"), row(1, "星级", "5"), row(2, "演员", "乙")];
    let groups = group_video_tags(rows);
    assert_eq!(groups.len(), 2);
    assert_eq!(groups[0].type_id, 2);
    assert_eq!(groups[0].values, strings(&["甲", "乙"]));
    assert!(groups[0].is_multi);
    assert_eq!(groups[1].type_id, 1);
    assert_eq!(groups[1].name, "星级");
    assert_eq!(groups[1].values, strings(&["5"]));
}

#[test]
fn tag_type_rows_keep_options_only_for_enums() {
    let options = vec![TagOption { id: 1, value: "1".into(), sort_order: 0 }];
    let t = tag_type_from_row(3, "n".into(), "free".into(), 1, None, 0, 2, options);
    assert!(t.options.is_empty());
    assert!(t.is_preset);
    assert!(!t.is_multi);
    let options = vec![TagOption { id: 1, value: "1".into(), sort_order: 0 }];
    let t = tag_type_from_row(3, "n".into(), "enum".into(), 0, Some("stars".into()), 1, 2, options);
    assert_eq!(t.options.len(), 1);
    assert_eq!(t.system_key.as_deref(), Some("stars"));
}

#[test]
fn tag_type_checks() {
    assert_eq!(check_multi_allowed(true, true), Err("系统标签不能改为多值".to_string()));
    assert!(check_multi_allowed(true, false).is_ok());
    assert_eq!(
        check_single_value_conflicts(3),
        Err("有 3 个视频包含多个值，无法改为单值".to_string())
    );
    assert!(check_single_value_conflicts(0).is_ok());
    assert_eq!(check_tag_type_id(0), Err("无效的标签类型 ID".to_string()));
    assert!(check_tag_type_id(5).is_ok());
    assert_eq!(check_deletable(1), Err("预设标签不可删除".to_string()));
    assert!(check_deletable(0).is_ok());
    assert!(check_system_key("quality").is_ok());
    assert_eq!(check_system_key("genre"), Err("未知系统标签".to_string()));
}

#[test]
fn batch_requests_are_checked() {
    assert_eq!(check_batch_size(0), Err("批量视频数量必须为 1-1000".to_string()));
    assert_eq!(check_batch_size(1001), Err("批量视频数量必须为 1-1000".to_string()));
    assert!(check_batch_size(1000).is_ok());
    assert!(matches!(batch_operation("add", true), Ok(BatchOperation::Add)));
    assert_eq!(
        batch_operation("add", false).err(),
        Some("单值标签只支持替换或清除".to_string())
    );
    assert!(matches!(batch_operation("clear", false), Ok(BatchOperation::Clear)));
    assert_eq!(batch_operation("merge", true).err(), Some("未知批量操作".to_string()));
    let replace = batch_operation("replace", false).unwrap();
    assert!(replace.clears_values() && replace.inserts_values() && !replace.removes_values());
    assert_eq!(
        unique_hashes(&strings(&["h2", "h1", "h2"])),
        strings(&["h2", "h1"])
    );
}

#[test]
fn keyword_search_plans() {
    assert_eq!(plan_keyword_search("   "), Ok(None));
    assert_eq!(plan_keyword_search(" 50%_off "), Ok(Some(r"%50\%\_off%".to_string())));
    assert_eq!(
        plan_keyword_search(&"x".repeat(201)),
        Err("搜索关键词过长".to_string())
    );
    assert_eq!(like_pattern(""), "%%");
    assert!(check_stars(7).is_ok());
    assert_eq!(check_stars(8), Err("星级必须在 1-7 之间".to_string()));
}

fn request(stars: Option<i64>, sort_key: &str, sort_dir: &str, page: i64, page_size: i64) -> SearchRequest {
    SearchRequest {
        keyword: " demo ".to_string(),
        stars,
        sort_key: sort_key.to_string(),
        sort_dir: sort_dir.to_string(),
        page,
        page_size,
    }
}

#[test]
fn paged_search_plans() {
    let plan = plan_search(&request(Some(4), "stars", "AsC", 0, 500)).ok().unwrap();
    assert_eq!(plan.keyword, "demo");
    assert_eq!(plan.like, "%demo%");
    assert_eq!(plan.stars, 4);
    assert_eq!(plan.page, 1);
    assert_eq!(plan.page_size, 100);
    assert_eq!(plan.sort_column, "9");
    assert_eq!(plan.direction, "ASC");
    let plan = plan_search(&request(None, "whatever", "up", 3, 0)).ok().unwrap();
    assert_eq!(plan.stars, 0);
    assert_eq!(plan.page_size, 1);
    assert_eq!(plan.sort_column, "v.modified_at");
    assert_eq!(plan.direction, "DESC");
    assert_eq!(
        plan_search(&request(Some(0), "", "", 1, 10)).err(),
        Some("星级必须在 1-7 之间".to_string())
    );
}

#[test]
fn pagination_clamps_to_last_page() {
    let p = paginate(9, 50, 120);
    assert_eq!((p.page, p.total_pages, p.offset), (3, 3, 100));
    let p = paginate(2, 50, 120);
    assert_eq!((p.page, p.total_pages, p.offset), (2, 3, 50));
    let p = paginate(4, 10, 0);
    assert_eq!((p.page, p.total_pages, p.offset), (4, 0, 30));
}

#[test]
fn escaped_keywords_stay_distinct() {
    assert_ne!(escape_like("a%"), escape_like(r"a\%"));
    assert_ne!(escape_like("_"), escape_like(r"\_"));
    assert_eq!(escape_like("普通"), "普通");
}
