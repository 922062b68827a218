use bilibili_converter::naming::{
    is_title_part_duplicate, sanitize_filename, smart_truncate_middle, truncate_chinese,
    truncate_title_from_end, truncate_title_with_part, truncate_with_middle,
};

#[test]
fn sanitize_replaces_reserved_characters() {
    assert_eq!(sanitize_filename("a/b:c*d?e"), "a_b_c_d_e");
    assert_eq!(sanitize_filename("<x>|\"y\"\\z"), "_x___y__z");
}

#[test]
fn sanitize_breaks_runs_of_dots() {
    assert_eq!(sanitize_filename("..hidden"), "._hidden");
    assert_eq!(sanitize_filename("a...b"), "a._.b");
    assert_eq!(sanitize_filename("../../etc/passwd"), ".__.__etc_passwd");
}

#[test]
fn sanitize_trims_and_falls_back() {
    assert_eq!(sanitize_filename("  title\t"), "title_");
    assert_eq!(sanitize_filename("   "), "output");
    assert_eq!(sanitize_filename(""), "output");
    assert_eq!(sanitize_filename(" 中文 标题 "), "中文 标题");
}

#[test]
fn sanitized_names_are_safe() {
    for name in ["..", "a/../b", "x\0y", "...", "C:\\Users\\me", "\n\r\t"] {
        let r = sanitize_filename(name);
        assert!(!r.is_empty());
        assert!(!r.contains(".."));
        assert!(!r.contains('/') && !r.contains('\\') && !r.contains(':'));
    }
}

#[test]
fn truncate_chinese_counts_wide_characters_twice() {
    assert_eq!(truncate_chinese("hello world", 5), "hello...");
    assert_eq!(truncate_chinese("中文测试", 4), "中文...");
    assert_eq!(truncate_chinese("中文测试", 3), "中文...");
    assert_eq!(truncate_chinese("abc", 10), "abc");
    assert_eq!(truncate_chinese("abc", 3), "abc");
    assert_eq!(truncate_chinese("abc", 0), "...");
}

#[test]
fn smart_truncate_middle_keeps_short_names() {
    assert_eq!(smart_truncate_middle("abc", 5), "abc");
    assert_eq!(smart_truncate_middle("abcde", 5), "abcde");
}

#[test]
fn smart_truncate_middle_cuts_long_names() {
    assert_eq!(smart_truncate_middle("abcdefghij", 7), "a...");
    let long: String = "x".repeat(100);
    let r = smart_truncate_middle(&long, 80);
    assert_eq!(r, format!("{}...{}", "x".repeat(37), "x".repeat(37)));
    assert!(r.chars().count() <= 80);
    assert_eq!(smart_truncate_middle("abcdef", 3), "...");
}

#[test]
fn truncate_title_from_end_keeps_the_beginning() {
    assert_eq!(truncate_title_from_end("abcdef", 3), "abc");
    assert_eq!(truncate_title_from_end("abc", 3), "abc");
    assert_eq!(truncate_title_from_end("标题很长", 2), "标题");
}

#[test]
fn title_with_part_short_and_long() {
    assert_eq!(truncate_title_with_part("Show", "3", "mp4"), "Show_P3");
    let title = "t".repeat(90);
    let r = truncate_title_with_part(&title, "12", "mp4");
    // 80 - len("_P12") - len("...") = 73 title characters
    assert_eq!(r, format!("{}..._P12", "t".repeat(73)));
    assert_eq!(r.chars().count(), 80);
}

#[test]
fn title_with_long_part_keeps_ten_title_characters() {
    let part = "p".repeat(90);
    let r = truncate_title_with_part("abcdefghijklmnop", &part, "mp4");
    assert_eq!(r, format!("abcdefghij..._P{}", part));
}

#[test]
fn duplicate_title_and_part() {
    assert!(is_title_part_duplicate("第一集", "第 一 集"));
    assert!(is_title_part_duplicate("Episode 1 of the show", "Episode1"));
    assert!(!is_title_part_duplicate("Show", "第一集"));
    assert!(!is_title_part_duplicate("   ", "x"));
    assert!(!is_title_part_duplicate("x", ""));
}

#[test]
fn truncate_with_middle_long_base() {
    assert_eq!(truncate_with_middle("short", ".mp4"), "short.mp4");
    let base = "abcdefghijklmnopqrstuvwxyz0123456789";
    assert_eq!(
        truncate_with_middle(base, ".mp4"),
        "abcdefghijklmno...vwxyz0123456789.mp4"
    );
}

#[test]
fn sanitizing_twice_changes_nothing() {
    for name in ["  a/b..c  ", "...", "   ", "x:y*z", "正常标题.mp4", "\t..\n"] {
        let once = sanitize_filename(name);
        assert_eq!(sanitize_filename(&once), once);
    }
}
