//! What the scanner decides about the files of a Bilibili cache folder: the
//! type of a file from its name, titles and parts read from `entry.json`,
//! output names, and the bookkeeping of a scan (sizes, ids, names already
//! given out, and the final list without repeats).
use vstd::prelude::*;

use crate::json::{
    as_str, get, json_as_str, json_get, json_pointer, parse_json, parsed_json, pointer, JsonValue,
};
use crate::model::{MediaFile, ScanProgress, ScanResult};
use crate::naming::{
    is_title_part_duplicate, middle_truncated, sanitize_filename, sanitize_filename_chars,
    sanitized_filename, smart_truncate_middle, smart_truncate_middle_chars, title_part_duplicate,
    title_with_part, title_with_part_chars, truncate_chinese, truncated_by_weight, lemma_middle_truncated_fits,
};
use crate::text::{
    chars_eq, chars_of, decimal, decimal_chars, parse_i32, parse_i32_spec, push_all, push_str,
    rfind_char, signed_decimal, signed_decimal_chars, slice_chars, str_eq, string_from_chars,
    last_index_of, lemma_last_index_of, owned, seq_ends_with,
};

verus! {

// ---------------------------------------------------------------------------
// File types
// ---------------------------------------------------------------------------

/// Whether `pattern` compiles under the regex crate and then matches
/// somewhere in `haystack`.
pub uninterp spec fn regex_finds(pattern: Seq<char>, haystack: Seq<char>) -> bool;

/// The pattern of the other video extensions (`.blv`, `.flv`, `.ts`).
pub open spec fn video_extension_pattern() -> Seq<char> {
    r"\.(blv|flv|ts)$"@
}

/// The pattern of the other audio extension (`.aac`).
pub open spec fn audio_extension_pattern() -> Seq<char> {
    r"\.aac$"@
}

/// The name ends with `.blv`, `.flv` or `.ts`.
pub open spec fn has_video_extension(name: Seq<char>) -> bool {
    seq_ends_with(name, ".blv"@) || seq_ends_with(name, ".flv"@) || seq_ends_with(name, ".ts"@)
}

/// Compiles `pattern` with `regex::Regex::new` and tests `haystack` with
/// `Regex::is_match`; a pattern that does not compile matches nothing. The
/// outcome is named by `regex_finds`; for the two extension patterns the
/// regex syntax documentation gives it (`\.` is a literal dot, `|` an
/// alternative, and `$` the end of the haystack).
#[verifier::external_body]
fn regex_is_match(pattern: &str, haystack: &str) -> (r: bool)
    ensures
        r == regex_finds(pattern@, haystack@),
        pattern@ == video_extension_pattern() ==> r == has_video_extension(haystack@),
        pattern@ == audio_extension_pattern() ==> r == seq_ends_with(haystack@, ".aac"@),
{
    match regex::Regex::new(pattern) {
        Ok(re) => re.is_match(haystack),
        Err(_) => false,
    }
}

/// The view of an optional string.
pub open spec fn opt_view(o: Option<&str>) -> Option<Seq<char>> {
    match o {
        Some(s) => Some(s@),
        None => None,
    }
}

/// The type of a cache file from its name: `video.m4s` is video and
/// `audio.m4s` is audio; otherwise the extension patterns decide, video first.
pub open spec fn file_type_of(name: Seq<char>, video_ext: bool, audio_ext: bool) -> Option<
    Seq<char>,
> {
    if name == "video.m4s"@ {
        Some("video"@)
    } else if name == "audio.m4s"@ {
        Some("audio"@)
    } else if video_ext {
        Some("video"@)
    } else if audio_ext {
        Some("audio"@)
    } else {
        None
    }
}

/// The type of a cache file, given whether its name matches the video and
/// the audio extension patterns.
pub fn classify_file_name(file_name: &str, video_ext: bool, audio_ext: bool) -> (r: Option<
    &'static str,
>)
    ensures
        opt_view(r) == file_type_of(file_name@, video_ext, audio_ext),
{
    if str_eq(file_name, "video.m4s") {
        Some("video")
    } else if str_eq(file_name, "audio.m4s") {
        Some("audio")
    } else if video_ext {
        Some("video")
    } else if audio_ext {
        Some("audio")
    } else {
        None
    }
}

/// The type (`video` or `audio`) of a Bilibili cache file, or `None` for a
/// file of neither kind.
pub fn determine_file_type(file_name: &str) -> (r: Option<&'static str>)
    ensures
        opt_view(r) == file_type_of(
            file_name@,
            has_video_extension(file_name@),
            seq_ends_with(file_name@, ".aac"@),
        ),
{
    let video_ext = regex_is_match(r"\.(blv|flv|ts)$", file_name);
    let audio_ext = regex_is_match(r"\.aac$", file_name);
    classify_file_name(file_name, video_ext, audio_ext)
}

/// The progress reported while scanning, after `found` files were
/// recorded: `已找到 {found} 个文件...`, with the total unknown (0).
pub fn scan_progress(found: u64) -> (p: ScanProgress)
    ensures
        p.processed == found,
        p.total == 0,
        p.message@ == "已找到 "@ + decimal(found as nat) + " 个文件..."@,
{
    let mut m = chars_of("已找到 ");
    push_all(&mut m, &decimal_chars(found));
    push_str(&mut m, " 个文件...");
    ScanProgress { processed: found, total: 0, message: string_from_chars(&m) }
}

/// Refuses a folder path of more than 240 bytes (paths on Windows are
/// limited to 260 characters): the error is `路径过长 ({n} 字符): {path}`,
/// with `n` its length in bytes.
pub fn check_folder_path_length(folder_path: &str) -> (r: Result<(), String>)
    ensures
        crate::text::byte_len(folder_path@) <= 240 ==> r is Ok,
        crate::text::byte_len(folder_path@) > 240 ==> (r matches Err(m) && m@ == "路径过长 ("@
            + decimal(crate::text::byte_len(folder_path@) as nat) + " 字符): "@ + folder_path@),
{
    let n = folder_path.len();
    if n > 240 {
        let mut m = chars_of("路径过长 (");
        push_all(&mut m, &decimal_chars(n as u64));
        push_str(&mut m, " 字符): ");
        push_str(&mut m, folder_path);
        Err(string_from_chars(&m))
    } else {
        Ok(())
    }
}

/// Which `entry.json` describes a cache file: the one in the file's own
/// folder when it exists, else the one a folder up (when the folder has a
/// parent) when that exists, else none. The caller gives the two candidate
/// paths and whether each exists.
pub fn find_entry_json(
    in_folder: &str,
    in_folder_exists: bool,
    one_up: Option<&str>,
    one_up_exists: bool,
) -> (r: Option<String>)
    ensures
        r matches Some(p) ==> (p@ == in_folder@ || (one_up matches Some(u) && p@ == u@)),
        in_folder_exists ==> (r matches Some(p) && p@ == in_folder@),
        !in_folder_exists ==> match one_up {
            Some(u) => if one_up_exists {
                (r matches Some(p) && p@ == u@)
            } else {
                r is None
            },
            None => r is None,
        },
{
    if in_folder_exists {
        return Some(owned(in_folder));
    }
    match one_up {
        Some(u) => if one_up_exists {
            Some(owned(u))
        } else {
            None
        },
        None => None,
    }
}

// ---------------------------------------------------------------------------
// Titles and parts from entry.json
// ---------------------------------------------------------------------------

/// The first of two optional values that is present.
pub open spec fn first_of<T>(a: Option<T>, b: Option<T>) -> Option<T> {
    if a is Some {
        a
    } else {
        b
    }
}

/// The string a value holds, when it is a non-empty string.
pub open spec fn nonempty_str(v: Option<JsonValue>) -> Option<Seq<char>> {
    match json_as_str(v) {
        Some(s) => if s.len() > 0 {
            Some(s)
        } else {
            None
        },
        None => None,
    }
}

/// The title of an `entry.json`: the first non-empty string among the members
/// `title` and `Title` and the pointers `/page_data/title`,
/// `/video_info/title` and `/data/title`, cut to a
/// display width of 80.
pub open spec fn title_from_json(j: JsonValue) -> Option<Seq<char>> {
    let found = first_of(
        nonempty_str(json_get(j, "title"@)),
        first_of(
            nonempty_str(json_get(j, "Title"@)),
            first_of(
                nonempty_str(json_pointer(j, "/page_data/title"@)),
                first_of(
                    nonempty_str(json_pointer(j, "/video_info/title"@)),
                    nonempty_str(json_pointer(j, "/data/title"@)),
                ),
            ),
        ),
    );
    match found {
        Some(t) => Some(truncated_by_weight(t, 80)),
        None => None,
    }
}

fn nonempty_text(v: Option<&JsonValue>) -> (r: Option<&str>)
    ensures
        opt_view(r) == nonempty_str(
            match v {
                Some(x) => Some(*x),
                None => None,
            },
        ),
{
    match as_str(v) {
        Some(s) => if s.is_empty() {
            None
        } else {
            Some(s)
        },
        None => None,
    }
}

/// The title of a parsed `entry.json` (see `title_from_json`).
pub fn title_of_json(json: &JsonValue) -> (r: Option<String>)
    ensures
        match r {
            Some(t) => title_from_json(*json) == Some(t@),
            None => title_from_json(*json).is_none(),
        },
{
    proof {
        reveal_strlit("/page_data/title");
        reveal_strlit("/video_info/title");
        reveal_strlit("/data/title");
    }
    if let Some(t) = nonempty_text(get(json, "title")) {
        return Some(truncate_chinese(t, 80));
    }
    if let Some(t) = nonempty_text(get(json, "Title")) {
        return Some(truncate_chinese(t, 80));
    }
    if let Some(t) = nonempty_text(pointer(json, "/page_data/title")) {
        return Some(truncate_chinese(t, 80));
    }
    if let Some(t) = nonempty_text(pointer(json, "/video_info/title")) {
        return Some(truncate_chinese(t, 80));
    }
    if let Some(t) = nonempty_text(pointer(json, "/data/title")) {
        return Some(truncate_chinese(t, 80));
    }
    None
}

/// A part number held by a value: an integer (cut to `i32` as `as` does), or
/// a string that parses as an `i32`.
pub open spec fn part_number_of(v: Option<JsonValue>) -> Option<i32> {
    match v {
        Some(JsonValue::Number(Some(n))) => Some(n as i32),
        Some(JsonValue::String(s)) => match parse_i32_spec(s@) {
            Some(k) => Some(k as i32),
            None => None,
        },
        _ => None,
    }
}

/// The part number of an `entry.json`: the first one found at the member
/// `part`, then at the pointers `/entry/page_data/part`, `/page_data/part`,
/// `/video_info/part`, `/data/part` and `/part`.
pub open spec fn part_number_from_json(j: JsonValue) -> Option<i32> {
    first_of(
        part_number_of(json_get(j, "part"@)),
        first_of(
            part_number_of(json_pointer(j, "/entry/page_data/part"@)),
            first_of(
                part_number_of(json_pointer(j, "/page_data/part"@)),
                first_of(
                    part_number_of(json_pointer(j, "/video_info/part"@)),
                    first_of(
                        part_number_of(json_pointer(j, "/data/part"@)),
                        part_number_of(json_pointer(j, "/part"@)),
                    ),
                ),
            ),
        ),
    )
}

fn part_number(v: Option<&JsonValue>) -> (r: Option<i32>)
    ensures
        r == part_number_of(
            match v {
                Some(x) => Some(*x),
                None => None,
            },
        ),
{
    match v {
        Some(JsonValue::Number(Some(n))) => Some(*n as i32),
        Some(JsonValue::String(s)) => {
            let cs = chars_of(s.as_str());
            parse_i32(&cs)
        },
        _ => None,
    }
}

/// The part number of a parsed `entry.json` (see `part_number_from_json`).
pub fn part_of_json(json: &JsonValue) -> (r: Option<i32>)
    ensures
        r == part_number_from_json(*json),
{
    proof {
        reveal_strlit("/entry/page_data/part");
        reveal_strlit("/page_data/part");
        reveal_strlit("/video_info/part");
        reveal_strlit("/data/part");
        reveal_strlit("/part");
    }
    if let Some(n) = part_number(get(json, "part")) {
        return Some(n);
    }
    if let Some(n) = part_number(pointer(json, "/entry/page_data/part")) {
        return Some(n);
    }
    if let Some(n) = part_number(pointer(json, "/page_data/part")) {
        return Some(n);
    }
    if let Some(n) = part_number(pointer(json, "/video_info/part")) {
        return Some(n);
    }
    if let Some(n) = part_number(pointer(json, "/data/part")) {
        return Some(n);
    }
    part_number(pointer(json, "/part"))
}

/// The part of an `entry.json` as text: the first non-empty string at the
/// member `part`, then at the same pointers as `part_number_from_json`.
pub open spec fn part_string_from_json(j: JsonValue) -> Option<Seq<char>> {
    first_of(
        nonempty_str(json_get(j, "part"@)),
        first_of(
            nonempty_str(json_pointer(j, "/entry/page_data/part"@)),
            first_of(
                nonempty_str(json_pointer(j, "/page_data/part"@)),
                first_of(
                    nonempty_str(json_pointer(j, "/video_info/part"@)),
                    first_of(
                        nonempty_str(json_pointer(j, "/data/part"@)),
                        nonempty_str(json_pointer(j, "/part"@)),
                    ),
                ),
            ),
        ),
    )
}

/// The part of a parsed `entry.json` as text (see `part_string_from_json`).
pub fn part_string_of_json(json: &JsonValue) -> (r: Option<String>)
    ensures
        match r {
            Some(p) => part_string_from_json(*json) == Some(p@),
            None => part_string_from_json(*json).is_none(),
        },
{
    proof {
        reveal_strlit("/entry/page_data/part");
        reveal_strlit("/page_data/part");
        reveal_strlit("/video_info/part");
        reveal_strlit("/data/part");
        reveal_strlit("/part");
    }
    if let Some(p) = nonempty_text(get(json, "part")) {
        return Some(p.to_owned());
    }
    if let Some(p) = nonempty_text(pointer(json, "/entry/page_data/part")) {
        return Some(p.to_owned());
    }
    if let Some(p) = nonempty_text(pointer(json, "/page_data/part")) {
        return Some(p.to_owned());
    }
    if let Some(p) = nonempty_text(pointer(json, "/video_info/part")) {
        return Some(p.to_owned());
    }
    if let Some(p) = nonempty_text(pointer(json, "/data/part")) {
        return Some(p.to_owned());
    }
    match nonempty_text(pointer(json, "/part")) {
        Some(p) => Some(p.to_owned()),
        None => None,
    }
}


/// The document parsed from an optional text: none without a text or when
/// the text is not JSON.
pub open spec fn parsed_entry(text: Option<Seq<char>>) -> Option<JsonValue> {
    match text {
        Some(t) => parsed_json(t),
        None => None,
    }
}

/// The title of an `entry.json` given as text: none when the text is not
/// JSON, else the title of the parsed document (see `title_from_json`).
pub fn extract_title_from_json(content: &str) -> (r: Option<String>)
    ensures
        match r {
            Some(t) => parsed_json(content@) matches Some(j) && title_from_json(j) == Some(t@),
            None => parsed_json(content@) matches Some(j) ==> title_from_json(j).is_none(),
        },
{
    match parse_json(content) {
        Some(j) => title_of_json(&j),
        None => None,
    }
}

/// The part number of an `entry.json` given as text: none when the text is
/// not JSON, else the part number of the parsed document (see
/// `part_number_from_json`).
pub fn extract_part_from_json(content: &str) -> (r: Option<i32>)
    ensures
        r == match parsed_json(content@) {
            Some(j) => part_number_from_json(j),
            None => None,
        },
{
    match parse_json(content) {
        Some(j) => part_of_json(&j),
        None => None,
    }
}

/// The part of an `entry.json` given as text, as text: none when the text is
/// not JSON, else the part of the parsed document (see
/// `part_string_from_json`).
pub fn extract_part_string_from_json(content: &str) -> (r: Option<String>)
    ensures
        match r {
            Some(p) => parsed_json(content@) matches Some(j) && part_string_from_json(j) == Some(p@),
            None => parsed_json(content@) matches Some(j) ==> part_string_from_json(j).is_none(),
        },
{
    match parse_json(content) {
        Some(j) => part_string_of_json(&j),
        None => None,
    }
}


// ---------------------------------------------------------------------------
// Titles and output names
// ---------------------------------------------------------------------------

/// The title used when no metadata gives one.
pub open spec fn unknown_title() -> Seq<char> {
    "\u{672a}\u{77e5}\u{6807}\u{9898}"@
}

/// The title of the first metadata document (in the order found) that has
/// one.
pub open spec fn first_title(docs: Seq<JsonValue>) -> Option<Seq<char>>
    decreases docs.len(),
{
    if docs.len() == 0 {
        None
    } else {
        match title_from_json(docs[0]) {
            Some(t) => Some(t),
            None => first_title(docs.drop_first()),
        }
    }
}

/// The title of a media file: from its metadata documents, else the folder's
/// name when that is longer than 3 bytes (`unknown` when the folder has no
/// name), else the file's stem, else a placeholder.
pub open spec fn media_title(
    docs: Seq<JsonValue>,
    folder_name: Option<Seq<char>>,
    file_stem: Option<Seq<char>>,
) -> Seq<char> {
    match first_title(docs) {
        Some(t) => t,
        None => {
            let f = match folder_name {
                Some(n) => n,
                None => "unknown"@,
            };
            if crate::text::byte_len(f) > 3 {
                f
            } else {
                match file_stem {
                    Some(s) => s,
                    None => unknown_title(),
                }
            }
        },
    }
}

/// The documents parsed from `texts`, in order, leaving out the texts that
/// are not JSON.
pub open spec fn parsed_documents(texts: Seq<String>) -> Seq<JsonValue>
    decreases texts.len(),
{
    if texts.len() == 0 {
        Seq::empty()
    } else {
        let prev = parsed_documents(texts.drop_last());
        match parsed_json(texts.last()@) {
            Some(j) => prev.push(j),
            None => prev,
        }
    }
}

/// The title of a media file from the texts of the metadata files found
/// beside it (`entry.json`, `info.json`, `title.txt`, in the order found;
/// those that are not JSON are passed over), the name of its folder and the
/// stem of its own name.
pub fn extract_title(texts: &Vec<String>, folder_name: Option<&str>, file_stem: Option<&str>) -> (r:
    String)
    ensures
        r@ == media_title(parsed_documents(texts@), opt_view(folder_name), opt_view(file_stem)),
{
    let mut docs: Vec<JsonValue> = Vec::new();
    let mut i: usize = 0;
    while i < texts.len()
        invariant
            i <= texts@.len(),
            docs@ == parsed_documents(texts@.take(i as int)),
        decreases texts@.len() - i,
    {
        proof {
            assert(texts@.take(i + 1).drop_last() =~= texts@.take(i as int));
        }
        if let Some(j) = parse_json(texts[i].as_str()) {
            docs.push(j);
        }
        i = i + 1;
    }
    assert(texts@.take(texts@.len() as int) =~= texts@);
    title_from_documents(docs.as_slice(), folder_name, file_stem)
}

/// The title of a media file, from the parsed metadata files found beside it
/// (in the order found), the name of its folder and the stem of its own name.
pub fn title_from_documents(docs: &[JsonValue], folder_name: Option<&str>, file_stem: Option<&str>) -> (r:
    String)
    ensures
        r@ == media_title(docs@, opt_view(folder_name), opt_view(file_stem)),
{
    let mut i: usize = 0;
    assert(docs@.skip(0) =~= docs@);
    while i < docs.len()
        invariant
            i <= docs@.len(),
            first_title(docs@) == first_title(docs@.skip(i as int)),
        decreases docs@.len() - i,
    {
        proof {
            assert(docs@.skip(i as int).drop_first() =~= docs@.skip(i + 1));
        }
        if let Some(t) = title_of_json(&docs[i]) {
            return t;
        }
        i = i + 1;
    }
    let f: &str = match folder_name {
        Some(n) => n,
        None => "unknown",
    };
    if f.len() > 3 {
        f.to_owned()
    } else {
        match file_stem {
            Some(s) => s.to_owned(),
            None => "\u{672a}\u{77e5}\u{6807}\u{9898}".to_owned(),
        }
    }
}

/// The extension of an output file: `mp4` for video, `mp3` otherwise.
pub open spec fn media_extension(file_type: Seq<char>) -> Seq<char> {
    if file_type == "video"@ {
        seq!['m', 'p', '4']
    } else {
        seq!['m', 'p', '3']
    }
}

/// `name.ext`.
pub open spec fn with_extension(name: Seq<char>, ext: Seq<char>) -> Seq<char> {
    name + seq!['.'] + ext
}

/// The part of an `entry.json` as text: the string part, else the number.
pub open spec fn part_text_from_json(j: JsonValue) -> Option<Seq<char>> {
    match part_string_from_json(j) {
        Some(p) => Some(p),
        None => match part_number_from_json(j) {
            Some(n) => Some(signed_decimal(n as int)),
            None => None,
        },
    }
}

/// The places an `entry.json` gives its title at, in the order they are
/// read: the members `title` and `Title`, then `/page_data/title`,
/// `/video_info/title` and `/data/title`.
pub open spec fn title_places(j: JsonValue) -> Seq<Option<JsonValue>> {
    seq![
        json_get(j, "title"@),
        json_get(j, "Title"@),
        json_pointer(j, "/page_data/title"@),
        json_pointer(j, "/video_info/title"@),
        json_pointer(j, "/data/title"@),
    ]
}

/// The places an `entry.json` gives its part at, in the order they are read:
/// the member `part`, then `/entry/page_data/part`, `/page_data/part`,
/// `/video_info/part`, `/data/part` and `/part`.
pub open spec fn part_places(j: JsonValue) -> Seq<Option<JsonValue>> {
    seq![
        json_get(j, "part"@),
        json_pointer(j, "/entry/page_data/part"@),
        json_pointer(j, "/page_data/part"@),
        json_pointer(j, "/video_info/part"@),
        json_pointer(j, "/data/part"@),
        json_pointer(j, "/part"@),
    ]
}

/// The title of an `entry.json` is the non-empty string at the first of its
/// title places that holds one, cut to a display width of 80; there is none
/// when no place holds one.
pub proof fn lemma_title_from_first_place(j: JsonValue, i: int)
    requires
        0 <= i <= 5,
        forall|k: int| 0 <= k < i ==> #[trigger] nonempty_str(title_places(j)[k]) is None,
        i < 5 ==> nonempty_str(title_places(j)[i]) is Some,
    ensures
        i < 5 ==> title_from_json(j) == Some(
            truncated_by_weight(nonempty_str(title_places(j)[i]).unwrap(), 80),
        ),
        i == 5 ==> title_from_json(j) is None,
{
    let t = title_places(j);
    if 0 < i {
        assert(nonempty_str(t[0]) is None);
    }
    if 1 < i {
        assert(nonempty_str(t[1]) is None);
    }
    if 2 < i {
        assert(nonempty_str(t[2]) is None);
    }
    if 3 < i {
        assert(nonempty_str(t[3]) is None);
    }
    if 4 < i {
        assert(nonempty_str(t[4]) is None);
    }
}

/// The part of an `entry.json` as text is the non-empty string at the first
/// of its part places that holds one (a string part wins over a number at an
/// earlier place); there is none when no place holds one.
pub proof fn lemma_part_string_from_first_place(j: JsonValue, i: int)
    requires
        0 <= i <= 6,
        forall|k: int| 0 <= k < i ==> #[trigger] nonempty_str(part_places(j)[k]) is None,
        i < 6 ==> nonempty_str(part_places(j)[i]) is Some,
    ensures
        i < 6 ==> part_string_from_json(j) == nonempty_str(part_places(j)[i]),
        i < 6 ==> part_text_from_json(j) == nonempty_str(part_places(j)[i]),
        i == 6 ==> part_string_from_json(j) is None,
{
    let t = part_places(j);
    if 0 < i {
        assert(nonempty_str(t[0]) is None);
    }
    if 1 < i {
        assert(nonempty_str(t[1]) is None);
    }
    if 2 < i {
        assert(nonempty_str(t[2]) is None);
    }
    if 3 < i {
        assert(nonempty_str(t[3]) is None);
    }
    if 4 < i {
        assert(nonempty_str(t[4]) is None);
    }
    if 5 < i {
        assert(nonempty_str(t[5]) is None);
    }
}

/// The part number of an `entry.json` is the one held (as an integer, or a
/// string of an `i32`) at the first of its part places that holds one.
pub proof fn lemma_part_number_from_first_place(j: JsonValue, i: int)
    requires
        0 <= i <= 6,
        forall|k: int| 0 <= k < i ==> #[trigger] part_number_of(part_places(j)[k]) is None,
        i < 6 ==> part_number_of(part_places(j)[i]) is Some,
    ensures
        i < 6 ==> part_number_from_json(j) == part_number_of(part_places(j)[i]),
        i == 6 ==> part_number_from_json(j) is None,
{
    let t = part_places(j);
    if 0 < i {
        assert(part_number_of(t[0]) is None);
    }
    if 1 < i {
        assert(part_number_of(t[1]) is None);
    }
    if 2 < i {
        assert(part_number_of(t[2]) is None);
    }
    if 3 < i {
        assert(part_number_of(t[3]) is None);
    }
    if 4 < i {
        assert(part_number_of(t[4]) is None);
    }
    if 5 < i {
        assert(part_number_of(t[5]) is None);
    }
}

/// A Bilibili `entry.json` with its title `t` at the top and the name `p` of
/// its part in `page_data.part` (and no part string before that) names the
/// output `title_P{part}`: the cleaned title with the part, so that the
/// parts of one video get names of their own (unless the part repeats the
/// title).
pub proof fn lemma_title_and_page_part_name(title: Seq<char>, file_type: Seq<char>, j: JsonValue)
    requires
        nonempty_str(json_get(j, "title"@)) is Some,
        nonempty_str(json_get(j, "part"@)) is None,
        nonempty_str(json_pointer(j, "/entry/page_data/part"@)) is None,
        nonempty_str(json_pointer(j, "/page_data/part"@)) is Some,
        !title_part_duplicate(
            truncated_by_weight(nonempty_str(json_get(j, "title"@)).unwrap(), 80),
            nonempty_str(json_pointer(j, "/page_data/part"@)).unwrap(),
        ),
    ensures
        output_name_with_part(title, file_type, Some(j)) == with_extension(
            title_with_part(
                sanitized_filename(truncated_by_weight(nonempty_str(json_get(j, "title"@)).unwrap(), 80)),
                nonempty_str(json_pointer(j, "/page_data/part"@)).unwrap(),
            ),
            media_extension(file_type),
        ),
{
    lemma_title_from_first_place(j, 0);
    assert(nonempty_str(part_places(j)[0]) is None);
    assert(nonempty_str(part_places(j)[1]) is None);
    lemma_part_string_from_first_place(j, 2);
}

/// The longest name, in characters, that an output name keeps whole when it
/// comes from a title or a part alone (longer ones are cut in the middle).
pub open spec fn name_limit() -> nat {
    50
}

/// The output name of a media file from its title, its type and the parsed
/// `entry.json` found for it (if any): `title_P{part}.ext` when the entry
/// gives both a title and a part (just the part when they say the same), the
/// scanned title with `_P{part}` when it gives only a part, its title when it
/// gives only a title, and otherwise the scanned title. A name from a title
/// or a part alone is cut in the middle to at most 50 characters (see
/// `name_limit`); `title_P{part}` is cut as `title_with_part` says.
pub open spec fn output_name_with_part(
    title: Seq<char>,
    file_type: Seq<char>,
    entry: Option<JsonValue>,
) -> Seq<char> {
    let ext = media_extension(file_type);
    let safe_title = sanitized_filename(title);
    let fallback = with_extension(middle_truncated(safe_title, name_limit()), ext);
    match entry {
        None => fallback,
        Some(j) => match (title_from_json(j), part_text_from_json(j)) {
            (Some(t), Some(p)) => if title_part_duplicate(t, p) {
                with_extension(middle_truncated(sanitized_filename(p), name_limit()), ext)
            } else {
                with_extension(title_with_part(sanitized_filename(t), p), ext)
            },
            (None, Some(p)) => with_extension(safe_title + seq!['_', 'P'] + p, ext),
            (Some(t), None) => with_extension(middle_truncated(sanitized_filename(t), name_limit()), ext),
            (None, None) => fallback,
        },
    }
}

/// Without an `entry.json` the output name is the cleaned title cut to at
/// most 50 characters, followed by `.mp4` or `.mp3`.
pub proof fn lemma_fallback_name_fits(title: Seq<char>, file_type: Seq<char>)
    ensures
        output_name_with_part(title, file_type, None).len() <= name_limit() + 4,
        output_name_with_part(title, file_type, None) == with_extension(
            middle_truncated(sanitized_filename(title), name_limit()),
            media_extension(file_type),
        ),
{
    lemma_middle_truncated_fits(sanitized_filename(title), name_limit());
}

fn push_media_extension(out: &mut Vec<char>, is_video: bool)
    ensures
        final(out)@ == old(out)@ + seq!['.'] + (if is_video {
            seq!['m', 'p', '4']
        } else {
            seq!['m', 'p', '3']
        }),
{
    out.push('.');
    out.push('m');
    out.push('p');
    if is_video {
        out.push('4');
    } else {
        out.push('3');
    }
    proof {
        if is_video {
            assert(final(out)@ =~= old(out)@ + seq!['.'] + seq!['m', 'p', '4']);
        } else {
            assert(final(out)@ =~= old(out)@ + seq!['.'] + seq!['m', 'p', '3']);
        }
    }
}

/// The output name of a media file (see `output_name_with_part`) from the
/// text of the `entry.json` found beside the file or one level up, if any; a
/// text that is not JSON counts as no `entry.json`.
pub fn generate_output_name_with_part(title: &str, file_type: &str, entry_text: Option<&str>) -> (r:
    String)
    ensures
        r@ == output_name_with_part(title@, file_type@, parsed_entry(opt_view(entry_text))),
{
    let entry = match entry_text {
        Some(t) => parse_json(t),
        None => None,
    };
    match &entry {
        Some(j) => output_name_from_entry(title, file_type, Some(j)),
        None => output_name_from_entry(title, file_type, None),
    }
}

/// The output name of a media file (see `output_name_with_part`); `entry` is
/// the parsed `entry.json` found for it, if any.
pub fn output_name_from_entry(title: &str, file_type: &str, entry: Option<&JsonValue>) -> (r:
    String)
    ensures
        r@ == output_name_with_part(
            title@,
            file_type@,
            match entry {
                Some(j) => Some(*j),
                None => None,
            },
        ),
{
    let is_video = str_eq(file_type, "video");
    let safe_title = sanitize_filename_chars(&chars_of(title));
    let mut out: Vec<char> = Vec::new();
    if let Some(j) = entry {
        let json_title = title_of_json(j);
        let part: Option<String> = match part_string_of_json(j) {
            Some(p) => Some(p),
            None => match part_of_json(j) {
                Some(n) => Some(string_from_chars(&signed_decimal_chars(n as i64))),
                None => None,
            },
        };
        match (json_title, part) {
            (Some(t), Some(p)) => {
                if is_title_part_duplicate(t.as_str(), p.as_str()) {
                    let safe_part = sanitize_filename_chars(&chars_of(p.as_str()));
                    let cut = smart_truncate_middle_chars(&safe_part, 50);
                    push_all(&mut out, &cut);
                } else {
                    let safe_json_title = sanitize_filename_chars(&chars_of(t.as_str()));
                    let named = title_with_part_chars(&safe_json_title, &chars_of(p.as_str()));
                    push_all(&mut out, &named);
                }
                push_media_extension(&mut out, is_video);
                return string_from_chars(&out);
            },
            (None, Some(p)) => {
                push_all(&mut out, &safe_title);
                out.push('_');
                out.push('P');
                push_str(&mut out, p.as_str());
                push_media_extension(&mut out, is_video);
                assert(out@ =~= with_extension(
                    safe_title@ + seq!['_', 'P'] + p@,
                    media_extension(file_type@),
                ));
                return string_from_chars(&out);
            },
            (Some(t), None) => {
                let safe_json_title = sanitize_filename_chars(&chars_of(t.as_str()));
                let cut = smart_truncate_middle_chars(&safe_json_title, 50);
                push_all(&mut out, &cut);
                push_media_extension(&mut out, is_video);
                return string_from_chars(&out);
            },
            (None, None) => {},
        }
    }
    let cut = smart_truncate_middle_chars(&safe_title, 50);
    push_all(&mut out, &cut);
    push_media_extension(&mut out, is_video);
    string_from_chars(&out)
}


// ---------------------------------------------------------------------------
// Output names already given out
// ---------------------------------------------------------------------------

/// The names given out so far, each with the path of the file it was given
/// to; a later entry for a name replaces an earlier one.
pub open spec fn names_map(entries: Seq<(String, String)>) -> Map<Seq<char>, Seq<char>>
    decreases entries.len(),
{
    if entries.len() == 0 {
        Map::empty()
    } else {
        names_map(entries.drop_last()).insert(entries.last().0@, entries.last().1@)
    }
}

/// No name occurs twice.
pub open spec fn distinct_names(entries: Seq<(String, String)>) -> bool {
    forall|i: int, j: int|
        0 <= i < j < entries.len() ==> #[trigger] entries[i].0@ != #[trigger] entries[j].0@
}

proof fn lemma_names_map(e: Seq<(String, String)>)
    requires
        distinct_names(e),
    ensures
        forall|k: Seq<char>|
            #[trigger] names_map(e).dom().contains(k) <==> exists|i: int|
                0 <= i < e.len() && e[i].0@ == k,
        forall|i: int| 0 <= i < e.len() ==> names_map(e)[#[trigger] e[i].0@] == e[i].1@,
    decreases e.len(),
{
    if e.len() > 0 {
        let d = e.drop_last();
        assert(distinct_names(d)) by {
            assert forall|i: int, j: int| 0 <= i < j < d.len() implies #[trigger] d[i].0@
                != #[trigger] d[j].0@ by {
                assert(d[i] == e[i] && d[j] == e[j]);
            }
        }
        lemma_names_map(d);
        assert forall|k: Seq<char>| #[trigger] names_map(e).dom().contains(k) <==> exists|i: int|
            0 <= i < e.len() && e[i].0@ == k by {
            if names_map(e).dom().contains(k) && k != e.last().0@ {
                assert(names_map(d).dom().contains(k));
                let i = choose|i: int| 0 <= i < d.len() && d[i].0@ == k;
                assert(e[i] == d[i]);
            }
            if exists|i: int| 0 <= i < e.len() && e[i].0@ == k {
                let i = choose|i: int| 0 <= i < e.len() && e[i].0@ == k;
                if i < e.len() - 1 {
                    assert(d[i] == e[i]);
                }
            }
        }
        assert forall|i: int| 0 <= i < e.len() implies names_map(e)[#[trigger] e[i].0@]
            == e[i].1@ by {
            if i < e.len() - 1 {
                assert(d[i] == e[i]);
                assert(e[i].0@ != e[e.len() - 1].0@);
            }
        }
    }
}

proof fn lemma_names_map_update(e: Seq<(String, String)>, i: int, x: (String, String))
    requires
        distinct_names(e),
        0 <= i < e.len(),
        e[i].0@ == x.0@,
    ensures
        names_map(e.update(i, x)) == names_map(e).insert(x.0@, x.1@),
        distinct_names(e.update(i, x)),
    decreases e.len(),
{
    let u = e.update(i, x);
    assert(distinct_names(u)) by {
        assert forall|a: int, b: int| 0 <= a < b < u.len() implies #[trigger] u[a].0@
            != #[trigger] u[b].0@ by {
            assert(e[a].0@ != e[b].0@);
        }
    }
    let d = e.drop_last();
    assert(distinct_names(d)) by {
        assert forall|a: int, b: int| 0 <= a < b < d.len() implies #[trigger] d[a].0@
            != #[trigger] d[b].0@ by {
            assert(d[a] == e[a] && d[b] == e[b]);
        }
    }
    if i == e.len() - 1 {
        assert(u.drop_last() =~= d);
        assert(names_map(u) =~= names_map(e).insert(x.0@, x.1@));
    } else {
        assert(u.drop_last() =~= d.update(i, x));
        lemma_names_map_update(d, i, x);
        assert(e.last().0@ != x.0@) by {
            assert(e[i].0@ != e[e.len() - 1].0@);
        }
        assert(names_map(u) =~= names_map(e).insert(x.0@, x.1@));
    }
}

proof fn lemma_names_map_push(e: Seq<(String, String)>, x: (String, String))
    requires
        distinct_names(e),
        forall|i: int| 0 <= i < e.len() ==> e[i].0@ != x.0@,
    ensures
        names_map(e.push(x)) == names_map(e).insert(x.0@, x.1@),
        distinct_names(e.push(x)),
{
    assert(e.push(x).drop_last() =~= e);
    let p = e.push(x);
    assert forall|a: int, b: int| 0 <= a < b < p.len() implies #[trigger] p[a].0@
        != #[trigger] p[b].0@ by {
        if b < e.len() {
            assert(p[a] == e[a] && p[b] == e[b]);
        } else {
            assert(p[a] == e[a]);
        }
    }
}

/// A name cut at its last dot: what comes before, and the dot with what
/// follows (empty when there is no dot).
pub open spec fn split_extension(name: Seq<char>) -> (Seq<char>, Seq<char>) {
    match last_index_of(name, '.') {
        Some(p) => (name.take(p), name.skip(p)),
        None => (name, Seq::empty()),
    }
}

/// The first try at a distinct name for a file whose name is taken: from the
/// title and the part number of its `entry.json` when it has one, else the
/// name shortened to 50 characters.
pub open spec fn shortened_name(base: Seq<char>, ext: Seq<char>, entry: Option<JsonValue>) -> Seq<
    char,
> {
    match entry {
        None => middle_truncated(base, 50) + ext,
        Some(j) => match (title_from_json(j), part_number_from_json(j)) {
            (Some(t), Some(p)) => title_with_part(
                sanitized_filename(t),
                signed_decimal(p as int),
            ) + seq!['.'] + ext,
            (Some(t), None) => middle_truncated(sanitized_filename(t), 60) + ext,
            (None, Some(p)) => base + seq!['_', 'P'] + signed_decimal(p as int) + ext,
            (None, None) => middle_truncated(base, 50) + ext,
        },
    }
}

/// `base_k` followed by the extension.
pub open spec fn counter_name(base: Seq<char>, k: nat, ext: Seq<char>) -> Seq<char> {
    base + seq!['_'] + decimal(k) + ext
}

/// The first counter from `k` to 100 whose name is free, else 101.
pub open spec fn free_counter(
    names: Map<Seq<char>, Seq<char>>,
    base: Seq<char>,
    ext: Seq<char>,
    k: nat,
) -> nat
    decreases 101 - k,
{
    if k > 100 {
        101
    } else if !names.dom().contains(counter_name(base, k, ext)) {
        k
    } else {
        free_counter(names, base, ext, k + 1)
    }
}

/// The name given to a file whose own name is taken: the shortened name when
/// free, else the base name with the first free counter from 2 (101 when
/// none up to 100 is free).
pub open spec fn deduplicated_name(
    names: Map<Seq<char>, Seq<char>>,
    name: Seq<char>,
    entry: Option<JsonValue>,
) -> Seq<char> {
    let (base, ext) = split_extension(name);
    let short = shortened_name(base, ext, entry);
    if !names.dom().contains(short) {
        short
    } else {
        counter_name(base, free_counter(names, base, ext, 2), ext)
    }
}

proof fn lemma_free_counter(
    names: Map<Seq<char>, Seq<char>>,
    base: Seq<char>,
    ext: Seq<char>,
    k: nat,
)
    ensures
        k <= free_counter(names, base, ext, k) <= 101 || k > 100,
        free_counter(names, base, ext, k) <= 100 ==> !names.dom().contains(
            counter_name(base, free_counter(names, base, ext, k), ext),
        ),
        free_counter(names, base, ext, k) == 101 ==> forall|j: nat|
            k <= j <= 100 ==> names.dom().contains(#[trigger] counter_name(base, j, ext)),
    decreases 101 - k,
{
    if k <= 100 && names.dom().contains(counter_name(base, k, ext)) {
        lemma_free_counter(names, base, ext, k + 1);
        assert forall|j: nat| k <= j <= 100 && free_counter(names, base, ext, k) == 101 implies names.dom().contains(
            #[trigger] counter_name(base, j, ext),
        ) by {
            if j > k {
                assert(k + 1 <= j);
            }
        }
    }
}

/// The name given to a file whose own name is taken is free, unless its
/// shortened name and every counter name from 2 to 100 are taken already.
pub proof fn lemma_deduplicated_name_is_free(
    names: Map<Seq<char>, Seq<char>>,
    name: Seq<char>,
    entry: Option<JsonValue>,
)
    ensures
        ({
            let (base, ext) = split_extension(name);
            ||| !names.dom().contains(deduplicated_name(names, name, entry))
            ||| (names.dom().contains(shortened_name(base, ext, entry)) && forall|j: nat|
                2 <= j <= 100 ==> names.dom().contains(#[trigger] counter_name(base, j, ext)))
        }),
{
    let (base, ext) = split_extension(name);
    lemma_free_counter(names, base, ext, 2);
}

/// The position of `name` among the names given out.
fn find_name(entries: &Vec<(String, String)>, name: &[char]) -> (r: Option<usize>)
    ensures
        match r {
            Some(i) => i < entries@.len() && entries@[i as int].0@ == name@,
            None => forall|i: int| 0 <= i < entries@.len() ==> entries@[i].0@ != name@,
        },
{
    let mut i: usize = 0;
    while i < entries.len()
        invariant
            i <= entries@.len(),
            forall|j: int| 0 <= j < i ==> entries@[j].0@ != name@,
        decreases entries@.len() - i,
    {
        let k = chars_of(entries[i].0.as_str());
        if chars_eq(&k, name) {
            return Some(i);
        }
        i = i + 1;
    }
    None
}

fn name_taken(entries: &Vec<(String, String)>, name: &[char]) -> (b: bool)
    requires
        distinct_names(entries@),
    ensures
        b == names_map(entries@).dom().contains(name@),
{
    proof {
        lemma_names_map(entries@);
    }
    match find_name(entries, name) {
        Some(_) => true,
        None => false,
    }
}

fn split_extension_chars(name: &[char]) -> (r: (Vec<char>, Vec<char>))
    ensures
        (r.0@, r.1@) == split_extension(name@),
{
    proof {
        lemma_last_index_of(name@, '.');
    }
    match rfind_char(name, '.') {
        Some(p) => {
            proof {
                assert(last_index_of(name@, '.') == Some(p as int)) by {
                    let q = last_index_of(name@, '.').unwrap();
                    if q < p {
                        assert(name@[p as int] == '.');
                    } else if q > p {
                        assert(name@[q] == '.');
                    }
                }
            }
            let base = slice_chars(name, 0, p);
            let ext = slice_chars(name, p, name.len());
            (base, ext)
        },
        None => {
            proof {
                if let Some(q) = last_index_of(name@, '.') {
                    assert(name@[q] == '.');
                }
            }
            (slice_chars(name, 0, name.len()), Vec::new())
        },
    }
}

fn shortened_chars(base: &[char], ext: &[char], entry: Option<&JsonValue>) -> (r: Vec<char>)
    ensures
        r@ == shortened_name(
            base@,
            ext@,
            match entry {
                Some(j) => Some(*j),
                None => None,
            },
        ),
{
    let mut out: Vec<char> = Vec::new();
    if let Some(j) = entry {
        match (title_of_json(j), part_of_json(j)) {
            (Some(t), Some(p)) => {
                let safe = sanitize_filename_chars(&chars_of(t.as_str()));
                let named = title_with_part_chars(&safe, &signed_decimal_chars(p as i64));
                push_all(&mut out, &named);
                out.push('.');
                push_all(&mut out, ext);
                return out;
            },
            (Some(t), None) => {
                let safe = sanitize_filename_chars(&chars_of(t.as_str()));
                let cut = smart_truncate_middle_chars(&safe, 60);
                push_all(&mut out, &cut);
                push_all(&mut out, ext);
                return out;
            },
            (None, Some(p)) => {
                push_all(&mut out, base);
                out.push('_');
                out.push('P');
                push_all(&mut out, &signed_decimal_chars(p as i64));
                push_all(&mut out, ext);
                return out;
            },
            (None, None) => {},
        }
    }
    let cut = smart_truncate_middle_chars(base, 50);
    push_all(&mut out, &cut);
    push_all(&mut out, ext);
    out
}

fn counter_chars(base: &[char], k: u64, ext: &[char]) -> (r: Vec<char>)
    ensures
        r@ == counter_name(base@, k as nat, ext@),
{
    let mut out: Vec<char> = Vec::new();
    push_all(&mut out, base);
    out.push('_');
    push_all(&mut out, &decimal_chars(k));
    push_all(&mut out, ext);
    out
}

fn deduplicated(entries: &Vec<(String, String)>, name: &[char], entry: Option<&JsonValue>) -> (r:
    Vec<char>)
    requires
        distinct_names(entries@),
    ensures
        r@ == deduplicated_name(
            names_map(entries@),
            name@,
            match entry {
                Some(j) => Some(*j),
                None => None,
            },
        ),
{
    let (base, ext) = split_extension_chars(name);
    let short = shortened_chars(&base, &ext, entry);
    if !name_taken(entries, &short) {
        return short;
    }
    let ghost names = names_map(entries@);
    let ghost entry_view = match entry {
        Some(j) => Some(*j),
        None => None,
    };
    let mut counter: u64 = 2;
    loop
        invariant
            2 <= counter <= 100,
            distinct_names(entries@),
            names == names_map(entries@),
            (base@, ext@) == split_extension(name@),
            names.dom().contains(shortened_name(base@, ext@, entry_view)),
            entry_view == match entry {
                Some(j) => Some(*j),
                None => None,
            },
            free_counter(names, base@, ext@, 2) == free_counter(names, base@, ext@, counter as nat),
        decreases 101 - counter,
    {
        let candidate = counter_chars(&base, counter, &ext);
        if !name_taken(entries, &candidate) {
            return candidate;
        }
        proof {
            assert(free_counter(names, base@, ext@, counter as nat) == free_counter(
                names,
                base@,
                ext@,
                (counter + 1) as nat,
            ));
            assert(free_counter(names, base@, ext@, 101) == 101);
        }
        counter = counter + 1;
        if counter > 100 {
            return counter_chars(&base, counter, &ext);
        }
    }
}

/// The total size of `files`.
pub open spec fn sizes_sum(files: Seq<MediaFile>) -> int
    decreases files.len(),
{
    if files.len() == 0 {
        0
    } else {
        sizes_sum(files.drop_last()) + files.last().size
    }
}

proof fn lemma_prefix_sizes(files: Seq<MediaFile>, i: int)
    requires
        0 <= i <= files.len(),
    ensures
        0 <= sizes_sum(files.take(i)) <= sizes_sum(files),
    decreases files.len(),
{
    if i == files.len() {
        assert(files.take(i) =~= files);
        if files.len() > 0 {
            lemma_prefix_sizes(files.drop_last(), files.len() - 1);
            assert(files.drop_last().take(files.len() - 1) =~= files.drop_last());
        }
    } else {
        lemma_prefix_sizes(files.drop_last(), i);
        assert(files.drop_last().take(i) =~= files.take(i));
    }
}

proof fn lemma_kept_sizes(files: Seq<MediaFile>, video_beside: Seq<bool>)
    ensures
        sizes_sum(kept_media(files, video_beside)) <= sizes_sum(files),
    decreases files.len(),
{
    lemma_prefix_sizes(files, files.len() as int);
    if files.len() > 0 && video_beside.len() == files.len() {
        lemma_kept_sizes(files.drop_last(), video_beside.drop_last());
        let prev = kept_media(files.drop_last(), video_beside.drop_last());
        assert(prev.push(files.last()).drop_last() =~= prev);
    }
}

/// The state of a scan: the files recorded so far, their total size, the
/// last id given out and the output names given out.
pub struct ScanState {
    pub files: Vec<MediaFile>,
    pub total_size: u64,
    pub id_counter: u64,
    pub used_output_names: Vec<(String, String)>,
}

/// The id given to the `n`-th file of a scan.
pub open spec fn file_id(n: nat) -> Seq<char> {
    seq!['f', 'i', 'l', 'e', '_'] + decimal(n)
}

/// Different counters give different ids, so every file of a scan has an id
/// of its own.
pub proof fn lemma_file_ids_distinct(a: nat, b: nat)
    requires
        a != b,
    ensures
        file_id(a) != file_id(b),
{
    crate::text::lemma_decimal_digits(a);
    crate::text::lemma_decimal_digits(b);
    if file_id(a) == file_id(b) {
        assert(file_id(a).skip(5) =~= decimal(a));
        assert(file_id(b).skip(5) =~= decimal(b));
    }
}

/// The type a scan gives a file from its name (see `determine_file_type`).
pub open spec fn scanned_type(name: Seq<char>) -> Option<Seq<char>> {
    file_type_of(name, has_video_extension(name), seq_ends_with(name, ".aac"@))
}

/// The name a file gets when it asks for `n`: none when `n` was given to its
/// path already, the de-duplicated name when `n` was given to another path,
/// else `n` itself.
pub open spec fn name_given(
    names: Map<Seq<char>, Seq<char>>,
    n: Seq<char>,
    path: Seq<char>,
    entry: Option<JsonValue>,
) -> Option<Seq<char>> {
    if names.dom().contains(n) && names[n] == path {
        None
    } else if names.dom().contains(n) {
        Some(deduplicated_name(names, n, entry))
    } else {
        Some(n)
    }
}

/// What a scan records of a file.
pub open spec fn recorded_as(
    f: MediaFile,
    id: String,
    path: String,
    name: String,
    size: u64,
    file_type: String,
    title: String,
    has_audio: bool,
    output_name: Seq<char>,
) -> bool {
    &&& f.id == id
    &&& f.path == path
    &&& f.name == name
    &&& f.size == size
    &&& f.file_type == file_type
    &&& f.title == title
    &&& f.output_name@ == output_name
    &&& f.has_audio == Some(has_audio)
}

impl ScanState {
    /// The names given out never repeat, and the total size is that of the
    /// files recorded.
    pub open spec fn wf(&self) -> bool {
        &&& distinct_names(self.used_output_names@)
        &&& self.total_size == sizes_sum(self.files@)
    }

    /// The output names given out, with the path each was given to.
    pub open spec fn names(&self) -> Map<Seq<char>, Seq<char>> {
        names_map(self.used_output_names@)
    }

    /// A scan that has seen nothing.
    pub fn new() -> (s: ScanState)
        ensures
            s.wf(),
            s.files@.len() == 0,
            s.total_size == 0,
            s.id_counter == 0,
            s.names() == Map::<Seq<char>, Seq<char>>::empty(),
    {
        ScanState { files: Vec::new(), total_size: 0, id_counter: 0, used_output_names: Vec::new() }
    }

    /// Gives out the next id, `file_N`.
    pub fn next_file_id(&mut self) -> (id: String)
        requires
            old(self).id_counter < u64::MAX,
        ensures
            final(self).id_counter == old(self).id_counter + 1,
            id@ == file_id(final(self).id_counter as nat),
            final(self).files == old(self).files,
            final(self).total_size == old(self).total_size,
            final(self).used_output_names == old(self).used_output_names,
    {
        self.id_counter = self.id_counter + 1;
        let mut v: Vec<char> = Vec::new();
        v.push('f');
        v.push('i');
        v.push('l');
        v.push('e');
        v.push('_');
        push_all(&mut v, &decimal_chars(self.id_counter));
        string_from_chars(&v)
    }

    /// Records a media file under `output_name`. When that name was given to
    /// the same path already, nothing is recorded and `false` is returned.
    /// When it was given to another path, the file gets the name that
    /// `deduplicated_name` picks. The name is then given to the file's path,
    /// and its size counts in the total.
    pub fn add_media_file(
        &mut self,
        id: String,
        path: String,
        name: String,
        size: u64,
        file_type: String,
        title: String,
        has_audio: bool,
        output_name: String,
        entry: Option<&JsonValue>,
    ) -> (added: bool)
        requires
            old(self).wf(),
            old(self).total_size + size <= u64::MAX,
        ensures
            final(self).wf(),
            final(self).total_size == if added {
                old(self).total_size + size
            } else {
                old(self).total_size as int
            },
            final(self).id_counter == old(self).id_counter,
            ({
                let names = old(self).names();
                let n = output_name@;
                if names.dom().contains(n) && names[n] == path@ {
                    &&& !added
                    &&& final(self).files == old(self).files
                    &&& final(self).names() == names
                } else {
                    let given = if names.dom().contains(n) {
                        deduplicated_name(
                            names,
                            n,
                            match entry {
                                Some(j) => Some(*j),
                                None => None,
                            },
                        )
                    } else {
                        n
                    };
                    &&& added
                    &&& final(self).files@.len() == old(self).files@.len() + 1
                    &&& final(self).files@.drop_last() == old(self).files@
                    &&& recorded_as(
                        final(self).files@.last(),
                        id,
                        path,
                        name,
                        size,
                        file_type,
                        title,
                        has_audio,
                        given,
                    )
                    &&& final(self).names() == names.insert(given, path@)
                }
            }),
    {
        proof {
            lemma_names_map(self.used_output_names@);
        }
        let n = chars_of(output_name.as_str());
        let given: Vec<char> = match find_name(&self.used_output_names, &n) {
            Some(i) => {
                if str_eq(self.used_output_names[i].1.as_str(), path.as_str()) {
                    return false;
                }
                deduplicated(&self.used_output_names, &n, entry)
            },
            None => n,
        };
        let given_name = string_from_chars(&given);
        let entry_pair = (given_name.clone(), path.clone());
        match find_name(&self.used_output_names, &given) {
            Some(i) => {
                proof {
                    lemma_names_map_update(self.used_output_names@, i as int, entry_pair);
                }
                self.used_output_names.set(i, entry_pair);
            },
            None => {
                proof {
                    lemma_names_map_push(self.used_output_names@, entry_pair);
                }
                self.used_output_names.push(entry_pair);
            },
        }
        let file = MediaFile {
            id,
            path,
            name,
            size,
            file_type,
            title,
            output_name: given_name,
            has_audio: Some(has_audio),
        };
        self.total_size = self.total_size + size;
        self.files.push(file);
        proof {
            assert(self.files@.drop_last() =~= old(self).files@);
        }
        true
    }

    /// Takes a file that the walk found: a file of no known type, or an audio
    /// file with a `video.m4s` beside it, is passed over; any other file gets
    /// the next id and is recorded (see `add_media_file`) under the output
    /// name from its title and the text of the `entry.json` found for it, and
    /// its size counts in the total. A video file has audio when an
    /// `audio.m4s` lies beside it.
    pub fn scan_file(
        &mut self,
        path: String,
        name: String,
        size: u64,
        title: String,
        video_beside: bool,
        audio_beside: bool,
        entry_text: Option<&str>,
    ) -> (recorded: bool)
        requires
            old(self).wf(),
            old(self).total_size + size <= u64::MAX,
            old(self).id_counter < u64::MAX,
        ensures
            final(self).wf(),
            final(self).total_size == if recorded {
                old(self).total_size + size
            } else {
                old(self).total_size as int
            },
            ({
                let entry_view = parsed_entry(opt_view(entry_text));
                match scanned_type(name@) {
                    Some(t) if !(t == "audio"@ && video_beside) => {
                        &&& final(self).id_counter == old(self).id_counter + 1
                        &&& match name_given(
                            old(self).names(),
                            output_name_with_part(title@, t, entry_view),
                            path@,
                            entry_view,
                        ) {
                            None => {
                                &&& !recorded
                                &&& final(self).files == old(self).files
                                &&& final(self).names() == old(self).names()
                            },
                            Some(g) => {
                                &&& recorded
                                &&& final(self).files@.drop_last() == old(self).files@
                                &&& final(self).files@.len() == old(self).files@.len() + 1
                                &&& final(self).files@.last().id@ == file_id(
                                    final(self).id_counter as nat,
                                )
                                &&& final(self).files@.last().path == path
                                &&& final(self).files@.last().name == name
                                &&& final(self).files@.last().size == size
                                &&& final(self).files@.last().file_type@ == t
                                &&& final(self).files@.last().title == title
                                &&& final(self).files@.last().output_name@ == g
                                &&& final(self).files@.last().has_audio == Some(
                                    t == "video"@ && audio_beside,
                                )
                                &&& final(self).names() == old(self).names().insert(g, path@)
                            },
                        }
                    },
                    _ => {
                        &&& !recorded
                        &&& final(self).files == old(self).files
                        &&& final(self).names() == old(self).names()
                        &&& final(self).id_counter == old(self).id_counter
                    },
                }
            }),
    {
        let entry = match entry_text {
            Some(text) => parse_json(text),
            None => None,
        };
        let t = match determine_file_type(name.as_str()) {
            Some(t) => t,
            None => {
                return false;
            },
        };
        if str_eq(t, "audio") && video_beside {
            return false;
        }
        let id = self.next_file_id();
        let has_audio = str_eq(t, "video") && audio_beside;
        match &entry {
            Some(j) => {
                let output = output_name_from_entry(title.as_str(), t, Some(j));
                self.add_media_file(id, path, name, size, t.to_owned(), title, has_audio, output, Some(j))
            },
            None => {
                let output = output_name_from_entry(title.as_str(), t, None);
                self.add_media_file(id, path, name, size, t.to_owned(), title, has_audio, output, None)
            },
        }
    }

    /// What the scan reports: the files that `dedupe_media_files` keeps of
    /// those recorded, and their total size. `video_beside[i]` says whether a
    /// `video.m4s` lies beside the `i`-th file recorded.
    pub fn scan_result(&self, video_beside: &Vec<bool>) -> (r: ScanResult)
        requires
            self.wf(),
            video_beside@.len() == self.files@.len(),
        ensures
            r.files@ == kept_media(self.files@, video_beside@),
            r.total_size == sizes_sum(r.files@),
    {
        let files = dedupe_media_files(&self.files, video_beside);
        proof {
            lemma_kept_sizes(self.files@, video_beside@);
        }
        let mut total: u64 = 0;
        let mut i: usize = 0;
        while i < files.len()
            invariant
                i <= files@.len(),
                total == sizes_sum(files@.take(i as int)),
                sizes_sum(files@) <= u64::MAX,
            decreases files@.len() - i,
        {
            proof {
                assert(files@.take(i + 1).drop_last() =~= files@.take(i as int));
                lemma_prefix_sizes(files@, i + 1);
            }
            total = total + files[i].size;
            i = i + 1;
        }
        assert(files@.take(files@.len() as int) =~= files@);
        ScanResult { files, total_size: total }
    }
}

// ---------------------------------------------------------------------------
// The final list
// ---------------------------------------------------------------------------

/// Some file of `kept` has path `p`.
pub open spec fn has_path(kept: Seq<MediaFile>, p: Seq<char>) -> bool {
    exists|i: int| 0 <= i < kept.len() && kept[i].path@ == p
}

/// The files a scan reports, in order: each video file whose path was not
/// reported yet, and each audio file with no `video.m4s` beside it whose path
/// was not reported yet. `video_beside[i]` says whether a `video.m4s` lies
/// beside `files[i]`.
pub open spec fn kept_media(files: Seq<MediaFile>, video_beside: Seq<bool>) -> Seq<MediaFile>
    decreases files.len(),
{
    if files.len() == 0 || video_beside.len() != files.len() {
        Seq::empty()
    } else {
        let prev = kept_media(files.drop_last(), video_beside.drop_last());
        let f = files.last();
        let fresh = !has_path(prev, f.path@);
        if f.file_type@ == "video"@ {
            if fresh {
                prev.push(f)
            } else {
                prev
            }
        } else if f.file_type@ == "audio"@ && !video_beside.last() && fresh {
            prev.push(f)
        } else {
            prev
        }
    }
}

fn path_seen(kept: &Vec<MediaFile>, path: &str) -> (b: bool)
    ensures
        b == has_path(kept@, path@),
{
    let mut i: usize = 0;
    while i < kept.len()
        invariant
            i <= kept@.len(),
            forall|j: int| 0 <= j < i ==> kept@[j].path@ != path@,
        decreases kept@.len() - i,
    {
        if str_eq(kept[i].path.as_str(), path) {
            return true;
        }
        i = i + 1;
    }
    false
}

/// The files a scan reports (see `kept_media`).
pub fn dedupe_media_files(files: &Vec<MediaFile>, video_beside: &Vec<bool>) -> (r: Vec<
    MediaFile,
>)
    requires
        files@.len() == video_beside@.len(),
    ensures
        r@ == kept_media(files@, video_beside@),
{
    let mut kept: Vec<MediaFile> = Vec::new();
    let mut i: usize = 0;
    while i < files.len()
        invariant
            i <= files@.len(),
            files@.len() == video_beside@.len(),
            kept@ == kept_media(files@.take(i as int), video_beside@.take(i as int)),
        decreases files@.len() - i,
    {
        proof {
            assert(files@.take(i + 1).drop_last() =~= files@.take(i as int));
            assert(video_beside@.take(i + 1).drop_last() =~= video_beside@.take(i as int));
        }
        let f = &files[i];
        let fresh = !path_seen(&kept, f.path.as_str());
        if str_eq(f.file_type.as_str(), "video") {
            if fresh {
                kept.push(f.duplicate());
            }
        } else if str_eq(f.file_type.as_str(), "audio") && !video_beside[i] && fresh {
            kept.push(f.duplicate());
        }
        i = i + 1;
    }
    proof {
        assert(files@.take(files@.len() as int) =~= files@);
        assert(video_beside@.take(video_beside@.len() as int) =~= video_beside@);
    }
    kept
}

/// No two files that a scan reports share a path.
pub proof fn lemma_kept_media_distinct_paths(files: Seq<MediaFile>, video_beside: Seq<bool>)
    ensures
        forall|i: int, j: int|
            0 <= i < j < kept_media(files, video_beside).len() ==> (#[trigger] kept_media(
                files,
                video_beside,
            )[i]).path@ != (#[trigger] kept_media(files, video_beside)[j]).path@,
    decreases files.len(),
{
    if files.len() > 0 && video_beside.len() == files.len() {
        lemma_kept_media_distinct_paths(files.drop_last(), video_beside.drop_last());
        let prev = kept_media(files.drop_last(), video_beside.drop_last());
        let k = kept_media(files, video_beside);
        assert forall|i: int, j: int| 0 <= i < j < k.len() implies (#[trigger] k[i]).path@
            != (#[trigger] k[j]).path@ by {
            if j < prev.len() {
                assert(k[i] == prev[i] && k[j] == prev[j]);
            } else {
                assert(k[i] == prev[i]);
            }
        }
    }
}

/// Every file that a scan reports is one of the files it found, and is a
/// video file or an audio file with no `video.m4s` beside it.
pub proof fn lemma_kept_media_from_input(files: Seq<MediaFile>, video_beside: Seq<bool>)
    requires
        files.len() == video_beside.len(),
    ensures
        forall|i: int|
            0 <= i < kept_media(files, video_beside).len() ==> exists|j: int|
                0 <= j < files.len() && files[j] == #[trigger] kept_media(files, video_beside)[i]
                    && (files[j].file_type@ == "video"@ || (files[j].file_type@ == "audio"@
                    && !video_beside[j])),
    decreases files.len(),
{
    if files.len() > 0 {
        let d = files.drop_last();
        let dv = video_beside.drop_last();
        lemma_kept_media_from_input(d, dv);
        let prev = kept_media(d, dv);
        let k = kept_media(files, video_beside);
        assert forall|i: int| 0 <= i < k.len() implies exists|j: int|
            0 <= j < files.len() && files[j] == #[trigger] k[i] && (files[j].file_type@
                == "video"@ || (files[j].file_type@ == "audio"@ && !video_beside[j])) by {
            if i < prev.len() {
                assert(k[i] == prev[i]);
                let j = choose|j: int|
                    0 <= j < d.len() && d[j] == prev[i] && (d[j].file_type@ == "video"@ || (
                    d[j].file_type@ == "audio"@ && !dv[j]));
                assert(files[j] == d[j] && video_beside[j] == dv[j]);
            } else {
                assert(k[i] == files[files.len() - 1]);
            }
        }
    }
}

} // verus!
