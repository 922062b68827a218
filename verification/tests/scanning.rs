use bilibili_converter::json::{as_str, get, pointer, JsonValue};
use bilibili_converter::scanner::{
    check_folder_path_length,
    determine_file_type, dedupe_media_files, extract_part_from_json,
    extract_part_string_from_json, extract_title, extract_title_from_json, find_entry_json,
    generate_output_name_with_part, title_of_json, ScanState,
};
use bilibili_converter::MediaFile;

fn s(t: &str) -> JsonValue {
    JsonValue::String(t.to_string())
}

fn n(v: i64) -> JsonValue {
    JsonValue::Number(Some(v))
}

fn obj(entries: Vec<(&str, JsonValue)>) -> JsonValue {
    JsonValue::Object(entries.into_iter().map(|(k, v)| (k.to_string(), v)).collect())
}

fn media(id: &str, path: &str, file_type: &str) -> MediaFile {
    MediaFile {
        id: id.to_string(),
        path: path.to_string(),
        name: "x".to_string(),
        size: 1,
        file_type: file_type.to_string(),
        title: "t".to_string(),
        output_name: "t.mp4".to_string(),
        has_audio: None,
    }
}

#[test]
fn file_types_by_name() {
    assert_eq!(determine_file_type("video.m4s"), Some("video"));
    assert_eq!(determine_file_type("audio.m4s"), Some("audio"));
    assert_eq!(determine_file_type("0.blv"), Some("video"));
    assert_eq!(determine_file_type("clip.flv"), Some("video"));
    assert_eq!(determine_file_type("seg.ts"), Some("video"));
    assert_eq!(determine_file_type("sound.aac"), Some("audio"));
    assert_eq!(determine_file_type("movie.mp4"), None);
    assert_eq!(determine_file_type("0.blv.bak"), None);
    assert_eq!(determine_file_type("danmaku.xml"), None);
    assert_eq!(determine_file_type("other.m4s"), None);
}

#[test]
fn entry_json_in_folder_then_one_up() {
    assert_eq!(
        find_entry_json("/a/b/entry.json", true, Some("/a/entry.json"), true),
        Some("/a/b/entry.json".to_string())
    );
    assert_eq!(
        find_entry_json("/a/b/entry.json", false, Some("/a/entry.json"), true),
        Some("/a/entry.json".to_string())
    );
    assert_eq!(find_entry_json("/a/b/entry.json", false, Some("/a/entry.json"), false), None);
    assert_eq!(find_entry_json("entry.json", false, None, true), None);
}

#[test]
fn json_lookups() {
    let doc = obj(vec![("a", obj(vec![("b", s("x"))])), ("list", JsonValue::Array(vec![n(1), s("y")]))]);
    assert_eq!(as_str(pointer(&doc, "/a/b")), Some("x"));
    assert_eq!(as_str(pointer(&doc, "/list/1")), Some("y"));
    assert!(pointer(&doc, "/list/01").is_none());
    assert!(pointer(&doc, "a/b").is_none());
    assert!(pointer(&doc, "").is_some());
    assert!(get(&doc, "missing").is_none());
    assert!(get(&doc, "a").is_some());
}

#[test]
fn title_from_json_fields() {
    assert_eq!(extract_title_from_json(r#"{"title":"T"}"#), Some("T".to_string()));
    assert_eq!(extract_title_from_json(r#"{"Title":"X"}"#), Some("X".to_string()));
    assert_eq!(extract_title_from_json(r#"{"title":"","Title":"Y"}"#), Some("Y".to_string()));
    assert_eq!(
        extract_title_from_json(r#"{"page_data":{"title":"第1集"}}"#),
        Some("第1集".to_string())
    );
    assert_eq!(extract_title_from_json(r#"{"data":{"title":"D"}}"#), Some("D".to_string()));
    assert_eq!(extract_title_from_json(r#"{"title":5}"#), None);
    assert_eq!(extract_title_from_json("not json"), None);
    assert_eq!(extract_title_from_json(""), None);
    let long = "a".repeat(100);
    let t = extract_title_from_json(&format!("{{\"title\":\"{}\"}}", long)).unwrap();
    assert_eq!(t, format!("{}...", "a".repeat(80)));
    assert_eq!(title_of_json(&obj(vec![("title", s("M"))])), Some("M".to_string()));
}

#[test]
fn part_number_from_json_fields() {
    assert_eq!(extract_part_from_json(r#"{"part":3}"#), Some(3));
    assert_eq!(extract_part_from_json(r#"{"part":"7"}"#), Some(7));
    assert_eq!(extract_part_from_json(r#"{"part":"第一集"}"#), None);
    assert_eq!(extract_part_from_json(r#"{"page_data":{"part":"2"}}"#), Some(2));
    assert_eq!(extract_part_from_json(r#"{"entry":{"page_data":{"part":5}}}"#), Some(5));
    // A number beyond i32 wraps as `as i32` does.
    assert_eq!(extract_part_from_json(r#"{"part":4294967301}"#), Some(5));
    assert_eq!(extract_part_from_json(r#"{"other":1}"#), None);
    assert_eq!(extract_part_from_json("{"), None);
}

#[test]
fn part_text_from_json_fields() {
    assert_eq!(extract_part_string_from_json(r#"{"part":"第一集"}"#), Some("第一集".to_string()));
    assert_eq!(extract_part_string_from_json(r#"{"part":""}"#), None);
    assert_eq!(extract_part_string_from_json(r#"{"part":3}"#), None);
    assert_eq!(extract_part_string_from_json(r#"{"data":{"part":"x"}}"#), Some("x".to_string()));
    assert_eq!(extract_part_string_from_json("[1,"), None);
}

#[test]
fn titles_from_documents_folder_and_stem() {
    let docs = vec![
        "garbage".to_string(),
        r#"{"no":1}"#.to_string(),
        r#"{"title":"A"}"#.to_string(),
    ];
    let none: Vec<String> = Vec::new();
    assert_eq!(extract_title(&docs, Some("c_1"), Some("video")), "A");
    assert_eq!(extract_title(&none, Some("c_12345"), Some("video")), "c_12345");
    assert_eq!(extract_title(&none, Some("80"), Some("video")), "video");
    assert_eq!(extract_title(&none, None, Some("video")), "unknown");
    assert_eq!(extract_title(&none, Some("80"), None), "未知标题");
}

#[test]
fn output_names_from_entry() {
    assert_eq!(generate_output_name_with_part("My Title", "video", None), "My Title.mp4");
    assert_eq!(generate_output_name_with_part("a/b", "audio", None), "a_b.mp3");
    let long = generate_output_name_with_part(&"a".repeat(60), "video", None);
    assert_eq!(long, format!("{}...{}.mp4", "a".repeat(22), "a".repeat(22)));
    assert!(long.chars().count() - 4 <= 50);
    let both = r#"{"title":"Show","part":"第一集"}"#;
    assert_eq!(generate_output_name_with_part("x", "video", Some(both)), "Show_P第一集.mp4");
    let number_only = r#"{"part":3}"#;
    assert_eq!(generate_output_name_with_part("abc", "audio", Some(number_only)), "abc_P3.mp3");
    let same = r#"{"title":"第一集","part":"第 一集"}"#;
    assert_eq!(generate_output_name_with_part("x", "video", Some(same)), "第 一集.mp4");
    let title_only = r#"{"title":"Only"}"#;
    assert_eq!(generate_output_name_with_part("x", "video", Some(title_only)), "Only.mp4");
    assert_eq!(generate_output_name_with_part("fallback", "video", Some("{}")), "fallback.mp4");
    assert_eq!(generate_output_name_with_part("broken", "video", Some("{oops")), "broken.mp4");
}

#[test]
fn scan_ids_and_sizes() {
    let mut st = ScanState::new();
    assert_eq!(st.next_file_id(), "file_1");
    assert_eq!(st.next_file_id(), "file_2");
    assert_eq!(st.total_size, 0);
}

#[test]
fn scan_output_names_are_deduplicated() {
    let mut st = ScanState::new();
    let add = |st: &mut ScanState, id: &str, path: &str, entry: Option<&JsonValue>| {
        st.add_media_file(
            id.to_string(),
            path.to_string(),
            "video.m4s".to_string(),
            10,
            "video".to_string(),
            "Name".to_string(),
            true,
            "Name.mp4".to_string(),
            entry,
        )
    };
    assert!(add(&mut st, "file_1", "/c/1/video.m4s", None));
    assert!(!add(&mut st, "file_2", "/c/1/video.m4s", None));
    assert!(add(&mut st, "file_3", "/c/2/video.m4s", None));
    assert!(add(&mut st, "file_4", "/c/3/video.m4s", None));
    let entry = obj(vec![("title", s("T")), ("part", n(2))]);
    assert!(add(&mut st, "file_5", "/c/4/video.m4s", Some(&entry)));
    let names: Vec<&str> = st.files.iter().map(|f| f.output_name.as_str()).collect();
    assert_eq!(names, vec!["Name.mp4", "Name_2.mp4", "Name_3.mp4", "T_P2..mp4"]);
    assert_eq!(st.files[1].id, "file_3");
    assert_eq!(st.files[0].has_audio, Some(true));
}

#[test]
fn reported_files_skip_audio_beside_video_and_repeated_paths() {
    let files = vec![
        media("1", "/c/1/video.m4s", "video"),
        media("2", "/c/1/audio.m4s", "audio"),
        media("3", "/c/2/a.aac", "audio"),
        media("4", "/c/1/video.m4s", "video"),
        media("5", "/c/3/x", "other"),
    ];
    let kept = dedupe_media_files(&files, &vec![false, true, false, false, false]);
    let ids: Vec<&str> = kept.iter().map(|f| f.id.as_str()).collect();
    assert_eq!(ids, vec!["1", "3"]);
}

#[test]
fn folder_paths_of_at_most_240_bytes() {
    assert_eq!(check_folder_path_length(&"a".repeat(240)), Ok(()));
    let long = "a".repeat(241);
    assert_eq!(check_folder_path_length(&long), Err(format!("路径过长 (241 字符): {}", long)));
    let wide = "文".repeat(81);
    assert_eq!(check_folder_path_length(&wide), Err(format!("路径过长 (243 字符): {}", wide)));
}

#[test]
fn walking_past_files() {
    let mut st = ScanState::new();
    let t = |s: &str| s.to_string();
    assert!(!st.scan_file(t("/c/1/danmaku.xml"), t("danmaku.xml"), 7, t("x"), true, true, None));
    assert_eq!(st.total_size, 0);
    assert_eq!(st.id_counter, 0);
    assert!(!st.scan_file(t("/c/1/audio.m4s"), t("audio.m4s"), 3, t("Show"), true, true, None));
    assert_eq!(st.id_counter, 0);
    assert!(st.scan_file(t("/c/1/video.m4s"), t("video.m4s"), 10, t("Show"), true, true, None));
    assert!(st.scan_file(t("/c/2/audio.m4s"), t("audio.m4s"), 5, t("Song"), false, true, None));
    assert!(!st.scan_file(t("/c/1/video.m4s"), t("video.m4s"), 10, t("Show"), true, true, None));
    assert_eq!(st.total_size, 15);
    assert_eq!(st.id_counter, 3);
    assert_eq!(st.files.len(), 2);
    assert_eq!(st.files[0].id, "file_1");
    assert_eq!(st.files[0].output_name, "Show.mp4");
    assert_eq!(st.files[0].has_audio, Some(true));
    assert_eq!(st.files[1].id, "file_2");
    assert_eq!(st.files[1].file_type, "audio");
    assert_eq!(st.files[1].output_name, "Song.mp3");
    assert_eq!(st.files[1].has_audio, Some(false));
}

#[test]
fn reported_total_is_the_size_of_the_reported_files() {
    let mut st = ScanState::new();
    let t = |s: &str| s.to_string();
    assert!(!st.scan_file(t("/c/1/entry.json"), t("entry.json"), 100, t("x"), true, true, None));
    let entry = r#"{"title":"Show","part":2}"#;
    assert!(st.scan_file(t("/c/1/video.m4s"), t("video.m4s"), 10, t("x"), true, true, Some(entry)));
    assert!(st.scan_file(t("/c/2/audio.m4s"), t("audio.m4s"), 5, t("Song"), false, true, None));
    assert!(st.scan_file(t("/c/3/a.aac"), t("a.aac"), 7, t("Clip"), false, false, None));
    assert_eq!(st.files[0].output_name, "Show_P2.mp4");
    let result = st.scan_result(&vec![true, false, true]);
    let ids: Vec<&str> = result.files.iter().map(|f| f.id.as_str()).collect();
    assert_eq!(ids, vec!["file_1", "file_2"]);
    assert_eq!(result.total_size, 15);
    assert_eq!(result.total_size, result.files.iter().map(|f| f.size).sum::<u64>());
}
