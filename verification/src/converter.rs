//! What the converter decides: the encoders for a GPU, the GPU that FFmpeg's
//! encoder list reveals, where FFmpeg is looked for, the output name and the
//! FFmpeg arguments of a file, and the checks of a converted file.
use vstd::prelude::*;

use crate::model::{AppSettings, ConversionResult, IntegrityValidation};
use crate::paths::{
    do_simplify_output_path, join_result, joinable, joined_text, joined_under, nt_prefix, path_join,
    plain_file_name, segments, simplified_from, slash_path,
};
use crate::text::{
    chars_of, contains, decimal, decimal_chars, push_all, push_str, seq_contains,
    seq_starts_with, slice_chars, starts_with, str_eq, string_from_chars, last_index_of,
    is_ascii_text,
};

verus! {

/// `std::io::Error`, carried through as it is.
#[verifier::external_type_specification]
#[verifier::external_body]
pub struct ExIoError(std::io::Error);

/// The GPU whose hardware encoder FFmpeg offers.
#[derive(Debug, Clone, Copy, PartialEq, Eq, Structural)]
pub enum GpuType {
    Nvidia,
    Amd,
    Intel,
    NoGpu,
}

/// The encoders of a conversion, and whether the video encoder runs on a GPU.
#[derive(Debug, Clone)]
pub struct EncoderConfig {
    pub video_encoder: &'static str,
    pub audio_encoder: &'static str,
    pub use_gpu: bool,
}

impl Default for EncoderConfig {
    /// `libx264` and `aac` on the CPU.
    fn default() -> (c: Self)
        ensures
            c.video_encoder@ == "libx264"@,
            c.audio_encoder@ == "aac"@,
            !c.use_gpu,
    {
        EncoderConfig { video_encoder: "libx264", audio_encoder: "aac", use_gpu: false }
    }
}

/// Why a conversion could not be done.
#[derive(Debug)]
pub enum ConverterError {
    Io(std::io::Error),
    FfmpegNotFound,
    ConversionFailed(String),
    Cancelled,
}

/// A conversion in flight: whether it was cancelled, and the process id of
/// its FFmpeg.
pub struct ConversionTask {
    pub cancelled: bool,
    pub child_pid: Option<u32>,
}

impl ConversionTask {
    /// A task not cancelled and with no FFmpeg yet.
    pub fn new() -> (t: Self)
        ensures
            !t.cancelled,
            t.child_pid.is_none(),
    {
        ConversionTask { cancelled: false, child_pid: None }
    }
}

/// The H.264 encoder of each GPU kind, `libx264` on the CPU.
pub open spec fn video_encoder_for(gpu: GpuType) -> Seq<char> {
    match gpu {
        GpuType::Nvidia => "h264_nvenc"@,
        GpuType::Amd => "h264_amf"@,
        GpuType::Intel => "h264_qsv"@,
        GpuType::NoGpu => "libx264"@,
    }
}

/// The audio encoder for an output format: `libmp3lame` for `mp3`, `flac`
/// for `flac`, `aac` otherwise.
pub open spec fn audio_encoder_for(output_ext: Seq<char>) -> Seq<char> {
    if output_ext == "mp3"@ {
        "libmp3lame"@
    } else if output_ext == "flac"@ {
        "flac"@
    } else {
        "aac"@
    }
}

/// The encoders for a GPU kind and an output format.
pub fn get_encoder_config(gpu_type: GpuType, output_ext: &str) -> (c: EncoderConfig)
    ensures
        c.video_encoder@ == video_encoder_for(gpu_type),
        c.audio_encoder@ == audio_encoder_for(output_ext@),
        c.use_gpu == (gpu_type != GpuType::NoGpu),
{
    let audio_encoder: &'static str = if str_eq(output_ext, "mp3") {
        "libmp3lame"
    } else if str_eq(output_ext, "flac") {
        "flac"
    } else {
        "aac"
    };
    match gpu_type {
        GpuType::Nvidia => EncoderConfig { video_encoder: "h264_nvenc", audio_encoder, use_gpu: true },
        GpuType::Amd => EncoderConfig { video_encoder: "h264_amf", audio_encoder, use_gpu: true },
        GpuType::Intel => EncoderConfig { video_encoder: "h264_qsv", audio_encoder, use_gpu: true },
        GpuType::NoGpu => EncoderConfig { video_encoder: "libx264", audio_encoder, use_gpu: false },
    }
}

/// The GPU that an FFmpeg encoder list reveals: NVENC first, then AMF, then
/// QSV, by the H.264 or HEVC encoder names.
pub open spec fn gpu_from_encoder_list(text: Seq<char>) -> GpuType {
    if seq_contains(text, "h264_nvenc"@) || seq_contains(text, "hevc_nvenc"@) {
        GpuType::Nvidia
    } else if seq_contains(text, "h264_amf"@) || seq_contains(text, "hevc_amf"@) {
        GpuType::Amd
    } else if seq_contains(text, "h264_qsv"@) || seq_contains(text, "hevc_qsv"@) {
        GpuType::Intel
    } else {
        GpuType::NoGpu
    }
}

/// Whatever else an encoder list names, an NVENC encoder (`h264_nvenc` or
/// `hevc_nvenc`) makes the GPU NVIDIA; without one, an AMF encoder makes it
/// AMD; without either, a Quick Sync encoder makes it Intel; and a list that
/// names none of the six is no GPU.
pub proof fn lemma_gpu_priority(text: Seq<char>)
    ensures
        seq_contains(text, "h264_nvenc"@) || seq_contains(text, "hevc_nvenc"@) ==> gpu_from_encoder_list(
            text,
        ) == GpuType::Nvidia,
        !seq_contains(text, "h264_nvenc"@) && !seq_contains(text, "hevc_nvenc"@) && (seq_contains(
            text,
            "h264_amf"@,
        ) || seq_contains(text, "hevc_amf"@)) ==> gpu_from_encoder_list(text) == GpuType::Amd,
        !seq_contains(text, "h264_nvenc"@) && !seq_contains(text, "hevc_nvenc"@) && !seq_contains(
            text,
            "h264_amf"@,
        ) && !seq_contains(text, "hevc_amf"@) && (seq_contains(text, "h264_qsv"@) || seq_contains(
            text,
            "hevc_qsv"@,
        )) ==> gpu_from_encoder_list(text) == GpuType::Intel,
        gpu_from_encoder_list(text) == GpuType::NoGpu <==> !seq_contains(text, "h264_nvenc"@)
            && !seq_contains(text, "hevc_nvenc"@) && !seq_contains(text, "h264_amf"@)
            && !seq_contains(text, "hevc_amf"@) && !seq_contains(text, "h264_qsv"@)
            && !seq_contains(text, "hevc_qsv"@),
{
}

fn text_contains(text: &[char], word: &str) -> (b: bool)
    ensures
        b == seq_contains(text@, word@),
{
    contains(text, &chars_of(word))
}

/// The GPU that the output of `ffmpeg -encoders` reveals, from its standard
/// output and standard error read together (joined by a newline).
pub fn detect_gpu_from_output(stdout: &str, stderr: &str) -> (g: GpuType)
    ensures
        g == gpu_from_encoder_list(stdout@ + seq!['\n'] + stderr@),
{
    let mut combined = chars_of(stdout);
    combined.push('\n');
    push_str(&mut combined, stderr);
    assert(combined@ =~= stdout@ + seq!['\n'] + stderr@);
    if text_contains(&combined, "h264_nvenc") || text_contains(&combined, "hevc_nvenc") {
        GpuType::Nvidia
    } else if text_contains(&combined, "h264_amf") || text_contains(&combined, "hevc_amf") {
        GpuType::Amd
    } else if text_contains(&combined, "h264_qsv") || text_contains(&combined, "hevc_qsv") {
        GpuType::Intel
    } else {
        GpuType::NoGpu
    }
}

/// The places FFmpeg is looked for after the bundled copy, in order.
pub open spec fn ffmpeg_search_paths_spec() -> Seq<Seq<char>> {
    seq![
        "ffmpeg"@,
        "ffmpeg.exe"@,
        "C:\\ffmpeg\\bin\\ffmpeg.exe"@,
        "C:\\Program Files\\ffmpeg\\bin\\ffmpeg.exe"@,
        "C:\\Program Files (x86)\\ffmpeg\\bin\\ffmpeg.exe"@,
        "D:\\dependencies\\ffmpeg-7.1.1\\bin\\ffmpeg.exe"@,
    ]
}

/// The places FFmpeg is looked for after the bundled copy, in order.
pub fn ffmpeg_search_paths() -> (v: Vec<&'static str>)
    ensures
        v@.len() == ffmpeg_search_paths_spec().len(),
        forall|i: int| 0 <= i < v@.len() ==> v@[i]@ == ffmpeg_search_paths_spec()[i],
{
    let mut v: Vec<&'static str> = Vec::new();
    v.push("ffmpeg");
    v.push("ffmpeg.exe");
    v.push("C:\\ffmpeg\\bin\\ffmpeg.exe");
    v.push("C:\\Program Files\\ffmpeg\\bin\\ffmpeg.exe");
    v.push("C:\\Program Files (x86)\\ffmpeg\\bin\\ffmpeg.exe");
    v.push("D:\\dependencies\\ffmpeg-7.1.1\\bin\\ffmpeg.exe");
    v
}

/// `path` without a leading `\\?\`.
pub open spec fn without_nt_prefix(path: Seq<char>) -> Seq<char> {
    if seq_starts_with(path, nt_prefix()) {
        path.skip(4)
    } else {
        path
    }
}

/// Removes a leading Windows verbatim prefix `\\?\` from a path.
pub fn strip_nt_prefix(path: &str) -> (r: String)
    ensures
        r@ == without_nt_prefix(path@),
{
    let cs = chars_of(path);
    let mut p: Vec<char> = Vec::new();
    p.push('\\');
    p.push('\\');
    p.push('?');
    p.push('\\');
    assert(p@ =~= nt_prefix());
    if starts_with(&cs, &p) {
        let rest = slice_chars(&cs, 4, cs.len());
        assert(rest@ =~= path@.skip(4));
        string_from_chars(&rest)
    } else {
        path.to_owned()
    }
}

/// The output folder of a run: the one the user set, or `result` inside the
/// scanned folder when none is set.
pub fn resolve_output_dir(output_path: &str, base_dir: &str) -> (r: String)
    ensures
        output_path@.len() > 0 ==> r@ == output_path@,
        output_path@.len() == 0 ==> joined_under(base_dir@, "result"@, r@),
{
    if output_path.is_empty() {
        join_result(base_dir)
    } else {
        output_path.to_owned()
    }
}

/// The number of files converted at once: the setting, but at least 1.
pub fn effective_concurrency(settings: &AppSettings) -> (c: usize)
    ensures
        c == if settings.concurrency >= 1 {
            settings.concurrency
        } else {
            1
        },
{
    if settings.concurrency >= 1 {
        settings.concurrency
    } else {
        1
    }
}

/// The output format of a file: the video format for video files, the audio
/// format otherwise.
pub fn output_extension(file_type: &str, settings: &AppSettings) -> (r: String)
    ensures
        r@ == if file_type@ == "video"@ {
            settings.output_format_video@
        } else {
            settings.output_format_audio@
        },
{
    if str_eq(file_type, "video") {
        settings.output_format_video.clone()
    } else {
        settings.output_format_audio.clone()
    }
}

/// `s` with every `..` removed, scanning from the left as `str::replace` does.
pub open spec fn without_double_dots(s: Seq<char>) -> Seq<char>
    decreases s.len(),
{
    if s.len() == 0 {
        Seq::empty()
    } else if s.len() >= 2 && s[0] == '.' && s[1] == '.' {
        without_double_dots(s.skip(2))
    } else {
        seq![s[0]] + without_double_dots(s.drop_first())
    }
}

/// `/`, `\` and `:` replaced by `_`.
pub open spec fn separators_replaced(s: Seq<char>) -> Seq<char> {
    s.map_values(|c: char| if c == '/' || c == '\\' || c == ':' { '_' } else { c })
}

/// The output file stem made safe: `..` removed, then `/`, `\` and `:`
/// replaced by `_`.
pub open spec fn safe_output_stem(stem: Seq<char>) -> Seq<char> {
    separators_replaced(without_double_dots(stem))
}

proof fn lemma_without_double_dots_suffix(s: Seq<char>, i: int)
    requires
        0 <= i <= s.len(),
    ensures
        without_double_dots(s.skip(i)).len() <= s.len() - i,
    decreases s.len() - i,
{
    let t = s.skip(i);
    if t.len() >= 2 && t[0] == '.' && t[1] == '.' {
        assert(t.skip(2) =~= s.skip(i + 2));
        lemma_without_double_dots_suffix(s, i + 2);
    } else if t.len() > 0 {
        assert(t.drop_first() =~= s.skip(i + 1));
        lemma_without_double_dots_suffix(s, i + 1);
    }
}

proof fn lemma_no_double_dots(s: Seq<char>)
    ensures
        ({
            let r = without_double_dots(s);
            &&& forall|k: int| 0 <= k < r.len() - 1 ==> !(#[trigger] r[k] == '.' && r[k + 1] == '.')
            &&& (s.len() > 0 && s[0] != '.') ==> (r.len() > 0 && r[0] == s[0])
        }),
    decreases s.len(),
{
    if s.len() == 0 {
    } else if s.len() >= 2 && s[0] == '.' && s[1] == '.' {
        lemma_no_double_dots(s.skip(2));
        assert(without_double_dots(s) == without_double_dots(s.skip(2)));
    } else {
        let d = s.drop_first();
        lemma_no_double_dots(d);
        let t = without_double_dots(d);
        let r = seq![s[0]] + t;
        assert(without_double_dots(s) == r);
        assert forall|k: int| 0 <= k < r.len() - 1 implies !(#[trigger] r[k] == '.' && r[k + 1]
            == '.') by {
            if k > 0 {
                assert(r[k] == t[k - 1] && r[k + 1] == t[k]);
            } else if s[0] == '.' && t.len() > 0 {
                assert(d.len() > 0 && d[0] == s[1]);
                assert(r[1] == t[0]);
            }
        }
    }
}

/// The stem that `sanitize_output_stem` gives holds no `/`, `\` or `:`, and
/// no two dots in a row, so the output file stays in its folder.
pub proof fn lemma_safe_output_stem_is_safe(stem: Seq<char>)
    ensures
        ({
            let r = safe_output_stem(stem);
            &&& forall|k: int| 0 <= k < r.len() ==> #[trigger] r[k] != '/' && r[k] != '\\' && r[k] != ':'
            &&& forall|k: int| 0 <= k < r.len() - 1 ==> !(#[trigger] r[k] == '.' && r[k + 1] == '.')
        }),
{
    lemma_no_double_dots(stem);
    let w = without_double_dots(stem);
    let r = safe_output_stem(stem);
    assert forall|k: int| 0 <= k < r.len() - 1 implies !(#[trigger] r[k] == '.' && r[k + 1]
        == '.') by {
        assert(w[k] == '.' ==> r[k] == '.');
        assert(r[k] == '.' ==> w[k] == '.');
        assert(r[k + 1] == '.' ==> w[k + 1] == '.');
    }
}

/// Makes an output file stem safe: removes every `..`, then replaces `/`,
/// `\` and `:` with `_`.
pub fn sanitize_output_stem(stem: &str) -> (r: String)
    ensures
        r@ == safe_output_stem(stem@),
{
    let s = chars_of(stem);
    let mut out: Vec<char> = Vec::new();
    let mut i: usize = 0;
    assert(s@.skip(0) =~= s@);
    while i < s.len()
        invariant
            i <= s@.len(),
            separators_replaced(without_double_dots(s@)) == out@ + separators_replaced(
                without_double_dots(s@.skip(i as int)),
            ),
        decreases s@.len() - i,
    {
        let ghost t = s@.skip(i as int);
        if i + 1 < s.len() && s[i] == '.' && s[i + 1] == '.' {
            assert(t.skip(2) =~= s@.skip(i + 2));
            i = i + 2;
        } else {
            let c = s[i];
            let mapped = if c == '/' || c == '\\' || c == ':' {
                '_'
            } else {
                c
            };
            proof {
                assert(t.drop_first() =~= s@.skip(i + 1));
                let rest = without_double_dots(s@.skip(i + 1));
                assert(without_double_dots(t) == seq![c] + rest);
                assert(separators_replaced(seq![c] + rest) =~= seq![mapped] + separators_replaced(
                    rest,
                ));
            }
            out.push(mapped);
            i = i + 1;
        }
    }
    proof {
        assert(s@.skip(i as int) =~= Seq::<char>::empty());
        assert(out@ =~= out@ + separators_replaced(without_double_dots(Seq::<char>::empty())));
    }
    string_from_chars(&out)
}

/// `stem.ext`.
pub fn output_file_name(stem: &str, ext: &str) -> (r: String)
    ensures
        r@ == stem@ + seq!['.'] + ext@,
{
    let mut v = chars_of(stem);
    v.push('.');
    push_str(&mut v, ext);
    string_from_chars(&v)
}

/// The stem of a plain file name, by the rules `Path::file_stem` documents:
/// the whole name when it has no `.` or its only `.` leads it, else the part
/// before the last `.`.
pub open spec fn name_stem(n: Seq<char>) -> Seq<char> {
    match last_index_of(n, '.') {
        Some(k) => if k == 0 {
            n
        } else {
            n.take(k)
        },
        None => n,
    }
}

/// The last piece of `segs` that is neither empty nor `.`.
pub open spec fn last_piece(segs: Seq<Seq<char>>) -> Option<Seq<char>>
    decreases segs.len(),
{
    if segs.len() == 0 {
        None
    } else if segs.last().len() > 0 && segs.last() != seq!['.'] {
        Some(segs.last())
    } else {
        last_piece(segs.drop_last())
    }
}

/// `Path::file_name` of a path that every platform splits alike
/// (`slash_path`): its last component when that is a name, which is its last
/// piece between `/`s that is neither empty nor `.`; none when that piece is
/// `..` or there is none (a bare root, `.` or the empty path).
pub open spec fn slash_file_name(p: Seq<char>) -> Option<Seq<char>> {
    match last_piece(segments(p)) {
        Some(n) => if n == seq!['.', '.'] {
            None
        } else {
            Some(n)
        },
        None => None,
    }
}

/// `Path::file_stem` of `path`, as text: the stem (`name_stem`) of its file
/// name, for a path that every platform splits alike (see
/// `slash_file_name`), such as a plain file name. For paths with `\` or `:`
/// nothing is stated, as separators and prefixes depend on the platform.
#[verifier::external_body]
fn path_file_stem(path: &str) -> (r: Option<String>)
    ensures
        plain_file_name(path@) ==> r.is_some() && r.unwrap()@ == name_stem(path@),
        slash_path(path@) ==> match slash_file_name(path@) {
            Some(n) => r matches Some(s) && s@ == name_stem(n),
            None => r.is_none(),
        },
{
    match std::path::Path::new(path).file_stem() {
        Some(s) => Some(s.to_string_lossy().to_string()),
        None => None,
    }
}

/// The stem under which a file is written: the stem of its output name
/// (`output` when it has none), made safe by `sanitize_output_stem`. Whatever
/// the name, the stem holds no `/`, `\` or `:` and no two dots in a row.
pub fn output_file_stem(output_name: &str) -> (r: String)
    ensures
        plain_file_name(output_name@) ==> r@ == safe_output_stem(name_stem(output_name@)),
        slash_path(output_name@) ==> r@ == safe_output_stem(
            match slash_file_name(output_name@) {
                Some(n) => name_stem(n),
                None => "output"@,
            },
        ),
        forall|k: int| 0 <= k < r@.len() ==> #[trigger] r@[k] != '/' && r@[k] != '\\' && r@[k] != ':',
        forall|k: int| 0 <= k < r@.len() - 1 ==> !(#[trigger] r@[k] == '.' && r@[k + 1] == '.'),
{
    let stem = match path_file_stem(output_name) {
        Some(s) => s,
        None => "output".to_owned(),
    };
    proof {
        lemma_safe_output_stem_is_safe(stem@);
    }
    sanitize_output_stem(stem.as_str())
}

/// Where a converted file goes: `output_dir` joined with the shortened form
/// (see `do_simplify_output_path`) of the folder `rel_dir` that the source
/// file has below the scanned folder (when it has one), and in that folder
/// the file `name`; a leading `\\?\` is removed from the file's path.
/// Returns the folder and the file's path.
pub fn output_path_for(output_dir: &str, rel_dir: Option<&str>, name: &str) -> (r: (
    String,
    String,
))
    ensures
        rel_dir.is_none() ==> r.0@ == output_dir@,
        rel_dir matches Some(rel) ==> exists|s: Seq<char>|
            simplified_from(rel@, s) && (joinable(output_dir@, s) ==> joined_text(output_dir@, s, r.0@)),
        joinable(r.0@, name@) ==> exists|j: Seq<char>|
            joined_text(r.0@, name@, j) && r.1@ == without_nt_prefix(j),
{
    let dir: String = match rel_dir {
        Some(rel) => {
            let simplified = do_simplify_output_path(rel);
            let d = path_join(output_dir, simplified.as_str());
            assert(simplified_from(rel@, simplified@));
            d
        },
        None => output_dir.to_owned(),
    };
    let joined = path_join(dir.as_str(), name);
    let path = strip_nt_prefix(joined.as_str());
    assert(joinable(dir@, name@) ==> joined_text(dir@, name@, joined@) && path@ == without_nt_prefix(
        joined@,
    ));
    (dir, path)
}

/// Whether a video file is converted together with the `audio.m4s` beside it:
/// it is a video file, the scan found audio for it, and the audio file is
/// there.
pub fn should_merge_audio(file_type: &str, has_audio: Option<bool>, audio_file_present: bool) -> (b:
    bool)
    ensures
        b == (file_type@ == "video"@ && has_audio == Some(true) && audio_file_present),
{
    str_eq(file_type, "video") && match has_audio {
        Some(h) => h,
        None => false,
    } && audio_file_present
}

/// The views of a list of strings.
pub open spec fn views(v: Seq<String>) -> Seq<Seq<char>> {
    v.map_values(|s: String| s@)
}

/// The quality options of a video encoding: NVENC-style presets on a GPU,
/// x264 presets on the CPU.
pub open spec fn quality_args(use_gpu: bool) -> Seq<Seq<char>> {
    if use_gpu {
        seq!["-preset"@, "p4"@, "-cq"@, "23"@]
    } else {
        seq!["-preset"@, "medium"@, "-crf"@, "23"@]
    }
}

/// The codec options of a conversion.
pub open spec fn codec_args(
    is_video: bool,
    merge_audio: bool,
    output_ext: Seq<char>,
    config: EncoderConfig,
) -> Seq<Seq<char>> {
    if is_video {
        if merge_audio {
            seq!["-c:v"@, "copy"@, "-c:a"@, "aac"@, "-b:a"@, "128k"@]
        } else if output_ext == "mp4"@ || output_ext == "mkv"@ {
            seq!["-c:v"@, config.video_encoder@] + quality_args(config.use_gpu) + seq![
                "-c:a"@,
                config.audio_encoder@,
                "-b:a"@,
                "128k"@,
            ]
        } else if output_ext == "avi"@ {
            seq!["-c:v"@, config.video_encoder@] + quality_args(config.use_gpu) + seq![
                "-c:a"@,
                "mp3"@,
            ]
        } else {
            Seq::empty()
        }
    } else if output_ext == "mp3"@ {
        seq!["-vn"@, "-c:a"@, "libmp3lame"@, "-b:a"@, "192k"@]
    } else if output_ext == "aac"@ {
        seq!["-vn"@, "-c:a"@, "aac"@, "-b:a"@, "192k"@]
    } else if output_ext == "flac"@ {
        seq!["-vn"@, "-c:a"@, "flac"@]
    } else {
        Seq::empty()
    }
}

/// The FFmpeg arguments of a conversion: the input (and the audio input when
/// merging), overwrite and progress reporting on standard error, the codec
/// options, and the output path.
pub open spec fn ffmpeg_args_spec(
    input: Seq<char>,
    audio_input: Option<Seq<char>>,
    is_video: bool,
    output_ext: Seq<char>,
    config: EncoderConfig,
    output_path: Seq<char>,
) -> Seq<Seq<char>> {
    let inputs = match audio_input {
        Some(a) => seq!["-i"@, input, "-i"@, a],
        None => seq!["-i"@, input],
    };
    inputs + seq!["-y"@, "-progress"@, "pipe:2"@, "-nostats"@] + codec_args(
        is_video,
        audio_input.is_some(),
        output_ext,
        config,
    ) + seq![output_path]
}

/// The audio encoder that FFmpeg is told to use for an audio output format:
/// `libmp3lame` for mp3, `aac` for aac, `flac` for flac.
pub open spec fn audio_codec_for(ext: Seq<char>) -> Seq<char> {
    if ext == "mp3"@ {
        "libmp3lame"@
    } else if ext == "aac"@ {
        "aac"@
    } else {
        "flac"@
    }
}

/// An audio file converted to mp3, aac or flac is read from its input, the
/// video is dropped (`-vn`), and the one audio encoder named is the one of
/// the output format; mp3 and aac are written at 192 kbit/s, flac without a
/// bit rate; the last argument is the output path.
pub proof fn lemma_audio_conversion_args(
    input: Seq<char>,
    ext: Seq<char>,
    config: EncoderConfig,
    output: Seq<char>,
)
    requires
        ext == "mp3"@ || ext == "aac"@ || ext == "flac"@,
    ensures
        ({
            let a = ffmpeg_args_spec(input, None, false, ext, config, output);
            &&& a[0] == "-i"@ && a[1] == input
            &&& a[6] == "-vn"@
            &&& a[7] == "-c:a"@
            &&& a[8] == audio_codec_for(ext)
            &&& ext != "flac"@ ==> a.len() == 12 && a[9] == "-b:a"@ && a[10] == "192k"@
            &&& ext == "flac"@ ==> a.len() == 10
            &&& a.last() == output
        }),
{
    reveal_strlit("mp3");
    reveal_strlit("aac");
    reveal_strlit("flac");
    let a = ffmpeg_args_spec(input, None, false, ext, config, output);
    let head = seq!["-i"@, input, "-y"@, "-progress"@, "pipe:2"@, "-nostats"@];
    if ext == "mp3"@ {
        let c = seq!["-vn"@, "-c:a"@, audio_codec_for(ext), "-b:a"@, "192k"@];
        assert(codec_args(false, false, ext, config) == c);
        assert(a =~= head + c + seq![output]);
        assert("mp3"@.len() != "flac"@.len());
    } else if ext == "aac"@ {
        let c = seq!["-vn"@, "-c:a"@, audio_codec_for(ext), "-b:a"@, "192k"@];
        assert(codec_args(false, false, ext, config) == c);
        assert(a =~= head + c + seq![output]);
        assert("aac"@.len() != "flac"@.len());
    } else {
        let c = seq!["-vn"@, "-c:a"@, audio_codec_for(ext)];
        assert(codec_args(false, false, ext, config) == c);
        assert(a =~= head + c + seq![output]);
    }
}

/// A video merged with the audio beside it reads both inputs, copies the
/// video stream (`-c:v copy`) and encodes the audio to AAC at 128 kbit/s,
/// whatever the output format; the last argument is the output path.
pub proof fn lemma_merge_args(
    input: Seq<char>,
    audio: Seq<char>,
    ext: Seq<char>,
    config: EncoderConfig,
    output: Seq<char>,
)
    ensures
        ({
            let a = ffmpeg_args_spec(input, Some(audio), true, ext, config, output);
            &&& a.len() == 15
            &&& a[0] == "-i"@ && a[1] == input && a[2] == "-i"@ && a[3] == audio
            &&& a[8] == "-c:v"@ && a[9] == "copy"@
            &&& a[10] == "-c:a"@ && a[11] == "aac"@
            &&& a[12] == "-b:a"@ && a[13] == "128k"@
            &&& a[14] == output
        }),
{
}

fn push_arg(args: &mut Vec<String>, a: &str)
    ensures
        views(final(args)@) == views(old(args)@).push(a@),
{
    args.push(a.to_owned());
    assert(views(final(args)@) =~= views(old(args)@).push(a@));
}

fn push_quality(args: &mut Vec<String>, use_gpu: bool)
    ensures
        views(final(args)@) == views(old(args)@) + quality_args(use_gpu),
{
    if use_gpu {
        push_arg(args, "-preset");
        push_arg(args, "p4");
        push_arg(args, "-cq");
        push_arg(args, "23");
    } else {
        push_arg(args, "-preset");
        push_arg(args, "medium");
        push_arg(args, "-crf");
        push_arg(args, "23");
    }
    assert(views(final(args)@) =~= views(old(args)@) + quality_args(use_gpu));
}

/// The FFmpeg arguments of a conversion (see `ffmpeg_args_spec`).
pub fn ffmpeg_args(
    input: &str,
    audio_input: Option<&str>,
    is_video: bool,
    output_ext: &str,
    config: &EncoderConfig,
    output_path: &str,
) -> (args: Vec<String>)
    ensures
        views(args@) == ffmpeg_args_spec(
            input@,
            match audio_input {
                Some(a) => Some(a@),
                None => None,
            },
            is_video,
            output_ext@,
            *config,
            output_path@,
        ),
{
    let mut args: Vec<String> = Vec::new();
    push_arg(&mut args, "-i");
    push_arg(&mut args, input);
    let merge_audio = audio_input.is_some();
    if let Some(a) = audio_input {
        push_arg(&mut args, "-i");
        push_arg(&mut args, a);
    }
    push_arg(&mut args, "-y");
    push_arg(&mut args, "-progress");
    push_arg(&mut args, "pipe:2");
    push_arg(&mut args, "-nostats");
    let ghost before_codec = views(args@);
    if is_video {
        if merge_audio {
            push_arg(&mut args, "-c:v");
            push_arg(&mut args, "copy");
            push_arg(&mut args, "-c:a");
            push_arg(&mut args, "aac");
            push_arg(&mut args, "-b:a");
            push_arg(&mut args, "128k");
        } else if str_eq(output_ext, "mp4") || str_eq(output_ext, "mkv") {
            push_arg(&mut args, "-c:v");
            push_arg(&mut args, config.video_encoder);
            push_quality(&mut args, config.use_gpu);
            push_arg(&mut args, "-c:a");
            push_arg(&mut args, config.audio_encoder);
            push_arg(&mut args, "-b:a");
            push_arg(&mut args, "128k");
        } else if str_eq(output_ext, "avi") {
            push_arg(&mut args, "-c:v");
            push_arg(&mut args, config.video_encoder);
            push_quality(&mut args, config.use_gpu);
            push_arg(&mut args, "-c:a");
            push_arg(&mut args, "mp3");
        }
    } else if str_eq(output_ext, "mp3") {
        push_arg(&mut args, "-vn");
        push_arg(&mut args, "-c:a");
        push_arg(&mut args, "libmp3lame");
        push_arg(&mut args, "-b:a");
        push_arg(&mut args, "192k");
    } else if str_eq(output_ext, "aac") {
        push_arg(&mut args, "-vn");
        push_arg(&mut args, "-c:a");
        push_arg(&mut args, "aac");
        push_arg(&mut args, "-b:a");
        push_arg(&mut args, "192k");
    } else if str_eq(output_ext, "flac") {
        push_arg(&mut args, "-vn");
        push_arg(&mut args, "-c:a");
        push_arg(&mut args, "flac");
    }
    assert(views(args@) =~= before_codec + codec_args(
        is_video,
        merge_audio,
        output_ext@,
        *config,
    ));
    push_arg(&mut args, output_path);
    args
}


// ---------------------------------------------------------------------------
// How a file ended
// ---------------------------------------------------------------------------

/// How the conversion of one file ended.
pub enum FileOutcome {
    /// The run was cancelled before FFmpeg started.
    Cancelled,
    /// The output path lies outside the output folder.
    OutsideOutputFolder,
    /// The output path could not be checked (the error's text).
    PathCheckFailed(String),
    /// FFmpeg could not be started (the error's text).
    StartFailed(String),
    /// FFmpeg finished successfully after writing this path.
    Converted(String),
    /// FFmpeg ended with a failure status (the status as text).
    ExitFailed(String),
    /// Waiting for FFmpeg failed (the error's text).
    WaitFailed(String),
}

/// The error reported for an outcome other than a conversion.
pub open spec fn outcome_error(o: FileOutcome) -> Seq<char> {
    match o {
        FileOutcome::Cancelled => "Conversion cancelled"@,
        FileOutcome::OutsideOutputFolder => "Invalid output path: path traversal detected"@,
        FileOutcome::PathCheckFailed(e) => "Failed to validate output path: "@ + e@,
        FileOutcome::StartFailed(e) => "Failed to start FFmpeg: "@ + e@,
        FileOutcome::Converted(_) => Seq::empty(),
        FileOutcome::ExitFailed(status) => "FFmpeg exited with status: "@ + status@,
        FileOutcome::WaitFailed(e) => e@,
    }
}

/// Whether an outcome counts as a file done in the run's progress: once
/// FFmpeg has run, whether it succeeded or not.
pub open spec fn counts_as_done(o: FileOutcome) -> bool {
    o is Converted || o is ExitFailed || o is WaitFailed
}

/// The result reported for a file, and whether it counts as done in the
/// run's progress (see `outcome_error` and `counts_as_done`).
pub fn file_result(file_id: &str, outcome: FileOutcome) -> (r: (ConversionResult, bool))
    ensures
        r.0.file_id@ == file_id@,
        r.1 == counts_as_done(outcome),
        match outcome {
            FileOutcome::Converted(p) => {
                &&& r.0.success
                &&& r.0.output_path == Some(p)
                &&& r.0.error.is_none()
            },
            _ => {
                &&& !r.0.success
                &&& r.0.output_path.is_none()
                &&& r.0.error matches Some(e) && e@ == outcome_error(outcome)
            },
        },
{
    let id = file_id.to_owned();
    let (error, done): (String, bool) = match outcome {
        FileOutcome::Converted(p) => {
            return (ConversionResult { file_id: id, success: true, output_path: Some(p), error: None }, true);
        },
        FileOutcome::Cancelled => ("Conversion cancelled".to_owned(), false),
        FileOutcome::OutsideOutputFolder => (
            "Invalid output path: path traversal detected".to_owned(),
            false,
        ),
        FileOutcome::PathCheckFailed(e) => (message("Failed to validate output path: ", e.as_str()), false),
        FileOutcome::StartFailed(e) => (message("Failed to start FFmpeg: ", e.as_str()), false),
        FileOutcome::ExitFailed(status) => (message("FFmpeg exited with status: ", status.as_str()), true),
        FileOutcome::WaitFailed(e) => (e, true),
    };
    (ConversionResult { file_id: id, success: false, output_path: None, error: Some(error) }, done)
}

// ---------------------------------------------------------------------------
// Checking a converted file
// ---------------------------------------------------------------------------

/// What was found out about a converted file on disk.
pub struct OutputProbe {
    /// The file exists.
    pub exists: bool,
    /// Its size in bytes, or the text of the error reading its metadata.
    pub size: Result<u64, String>,
    /// The text of the error opening it, if it could not be opened.
    pub open_error: Option<String>,
    /// Its extension, as it stands in the file name.
    pub extension: String,
    /// Opening it once more: `None` when that failed, else whether reading
    /// its metadata through the open file worked (with the error text).
    pub reread: Option<Result<(), String>>,
    /// The difference between its size and the source file's, in percent
    /// of the source file's size, written with one decimal.
    pub size_difference_text: String,
}

/// The lower-case form of a text by the Unicode rules that `str::to_lowercase`
/// follows.
pub uninterp spec fn lowercase(s: Seq<char>) -> Seq<char>;

/// The ASCII lower-case form of a character: `A` to `Z` become `a` to `z`.
pub open spec fn ascii_lower_char(c: char) -> char {
    if 'A' <= c && c <= 'Z' {
        ((c as u32) + 32) as char
    } else {
        c
    }
}

/// The ASCII lower-case form of a text.
pub open spec fn ascii_lower(s: Seq<char>) -> Seq<char> {
    s.map_values(|c: char| ascii_lower_char(c))
}

/// The lower-case form that the check compares: the ASCII one for an ASCII
/// text, else the Unicode one (`lowercase`).
pub open spec fn lower_text(s: Seq<char>) -> Seq<char> {
    if is_ascii_text(s) {
        ascii_lower(s)
    } else {
        lowercase(s)
    }
}

/// `str::to_lowercase`: its result is named by `lowercase`; on an ASCII text
/// it is the ASCII lower-case form (the Unicode mapping of ASCII letters).
#[verifier::external_body]
fn to_lowercase(s: &str) -> (r: String)
    ensures
        r@ == lowercase(s@),
        is_ascii_text(s@) ==> r@ == ascii_lower(s@),
{
    s.to_lowercase()
}

/// The video formats that the check knows.
pub open spec fn is_video_format(ext: Seq<char>) -> bool {
    ext == "mp4"@ || ext == "mkv"@ || ext == "avi"@ || ext == "mov"@ || ext == "wmv"@ || ext
        == "flv"@
}

/// The audio formats that the check knows.
pub open spec fn is_audio_format(ext: Seq<char>) -> bool {
    ext == "mp3"@ || ext == "aac"@ || ext == "m4a"@ || ext == "flac"@ || ext == "wav"@ || ext
        == "ogg"@
}

/// An audio output whose size differs from the source file's by more than half
/// of the source file's size (for sizes below 2^53 this is the same as the
/// difference in percent, computed in `f64`, exceeding 50).
pub open spec fn audio_size_suspicious(output_size: u64, source_size: u64) -> bool {
    let diff = if output_size >= source_size {
        output_size - source_size
    } else {
        source_size - output_size
    };
    source_size > 0 && 2 * diff > source_size
}

/// The verdict and the findings, in order, of checking a converted file of
/// `source_type` converted from a file of `source_size` bytes.
pub open spec fn integrity_findings(source_size: u64, source_type: Seq<char>, p: OutputProbe) -> (
    bool,
    Seq<Seq<char>>,
) {
    if !p.exists {
        (false, seq!["文件不存在"@])
    } else {
        match p.size {
            Err(e) => (false, seq!["无法读取文件元数据: "@ + e@]),
            Ok(size) => {
                let d1 = seq!["输出文件大小: "@ + decimal(size as nat) + " 字节"@];
                let (v2, d2) = if size == 0 {
                    (false, d1.push("文件大小为0,可能转换失败"@))
                } else if size < 1024 {
                    (false, d1.push("文件大小异常小 (<1KB),可能转换不完整"@))
                } else {
                    (true, d1)
                };
                let (v3, d3) = match p.open_error {
                    Some(e) => (false, d2.push("无法打开文件: "@ + e@)),
                    None => (v2, d2),
                };
                let ext = lower_text(p.extension@);
                let (v4, d4) = if is_video_format(ext) {
                    if size < 100 {
                        (false, d3.push("视频文件大小过小,可能损坏"@).push("视频格式校验通过"@))
                    } else {
                        (v3, d3.push("视频格式校验通过"@))
                    }
                } else if is_audio_format(ext) {
                    if size < 100 {
                        (false, d3.push("音频文件大小过小,可能损坏"@).push("音频格式校验通过"@))
                    } else {
                        (v3, d3.push("音频格式校验通过"@))
                    }
                } else {
                    (v3, d3.push("未知文件格式: "@ + ext))
                };
                let (v5, d5) = if source_type == "audio"@ && audio_size_suspicious(
                    size,
                    source_size,
                ) {
                    (false, d4.push("音频文件大小异常 (差异: "@ + p.size_difference_text@ + "%)"@))
                } else {
                    (v4, d4)
                };
                match p.reread {
                    Some(Ok(())) => (v5, d5.push("文件可读取"@)),
                    Some(Err(e)) => (false, d5.push("读取文件元数据失败: "@ + e@)),
                    None => (v5, d5),
                }
            },
        }
    }
}

fn message(a: &str, b: &str) -> (r: String)
    ensures
        r@ == a@ + b@,
{
    let mut v = chars_of(a);
    push_str(&mut v, b);
    string_from_chars(&v)
}

fn note(details: &mut Vec<String>, m: String)
    ensures
        views(final(details)@) == views(old(details)@).push(m@),
{
    details.push(m);
    assert(views(final(details)@) =~= views(old(details)@).push(m@));
}

/// Checks a converted file (see `integrity_findings`): its size, whether it
/// opens, its format, for audio how far its size is from the source file's, and
/// whether it reads.
pub fn validate_file_integrity(
    file_id: &str,
    source_size: u64,
    source_type: &str,
    probe: &OutputProbe,
) -> (v: IntegrityValidation)
    ensures
        v.file_id@ == file_id@,
        v.is_valid == integrity_findings(source_size, source_type@, *probe).0,
        views(v.validation_details@) == integrity_findings(source_size, source_type@, *probe).1,
        v.file_size == match probe.size {
            Ok(s) => if probe.exists {
                s
            } else {
                0
            },
            Err(_) => 0,
        },
        v.expected_size == Some(source_size),
{
    let mut details: Vec<String> = Vec::new();
    if !probe.exists {
        note(&mut details, "文件不存在".to_owned());
        assert(views(details@) =~= seq!["文件不存在"@]);
        return IntegrityValidation {
            file_id: file_id.to_owned(),
            is_valid: false,
            validation_details: details,
            file_size: 0,
            expected_size: Some(source_size),
        };
    }
    let size: u64 = match &probe.size {
        Err(e) => {
            note(&mut details, message("无法读取文件元数据: ", e.as_str()));
            assert(views(details@) =~= seq!["无法读取文件元数据: "@ + e@]);
            return IntegrityValidation {
                file_id: file_id.to_owned(),
                is_valid: false,
                validation_details: details,
                file_size: 0,
                expected_size: Some(source_size),
            };
        },
        Ok(s) => *s,
    };
    let size_text = string_from_chars(&decimal_chars(size));
    let mut v = chars_of("输出文件大小: ");
    push_str(&mut v, size_text.as_str());
    push_str(&mut v, " 字节");
    note(&mut details, string_from_chars(&v));
    assert(views(details@) =~= seq!["输出文件大小: "@ + decimal(size as nat) + " 字节"@]);
    let mut is_valid = true;
    if size == 0 {
        note(&mut details, "文件大小为0,可能转换失败".to_owned());
        is_valid = false;
    } else if size < 1024 {
        note(&mut details, "文件大小异常小 (<1KB),可能转换不完整".to_owned());
        is_valid = false;
    }
    if let Some(e) = &probe.open_error {
        note(&mut details, message("无法打开文件: ", e.as_str()));
        is_valid = false;
    }
    let ext = to_lowercase(probe.extension.as_str());
    let e = ext.as_str();
    if str_eq(e, "mp4") || str_eq(e, "mkv") || str_eq(e, "avi") || str_eq(e, "mov") || str_eq(
        e,
        "wmv",
    ) || str_eq(e, "flv") {
        if size < 100 {
            note(&mut details, "视频文件大小过小,可能损坏".to_owned());
            is_valid = false;
        }
        note(&mut details, "视频格式校验通过".to_owned());
    } else if str_eq(e, "mp3") || str_eq(e, "aac") || str_eq(e, "m4a") || str_eq(e, "flac")
        || str_eq(e, "wav") || str_eq(e, "ogg") {
        if size < 100 {
            note(&mut details, "音频文件大小过小,可能损坏".to_owned());
            is_valid = false;
        }
        note(&mut details, "音频格式校验通过".to_owned());
    } else {
        note(&mut details, message("未知文件格式: ", e));
    }
    if str_eq(source_type, "audio") {
        let diff = if size >= source_size {
            size - source_size
        } else {
            source_size - size
        };
        if source_size > 0 && diff > source_size / 2 {
            let mut m = chars_of("音频文件大小异常 (差异: ");
            push_str(&mut m, probe.size_difference_text.as_str());
            push_str(&mut m, "%)");
            note(&mut details, string_from_chars(&m));
            is_valid = false;
        }
    }
    match &probe.reread {
        Some(Ok(())) => {
            note(&mut details, "文件可读取".to_owned());
        },
        Some(Err(e)) => {
            note(&mut details, message("读取文件元数据失败: ", e.as_str()));
            is_valid = false;
        },
        None => {},
    }
    IntegrityValidation {
        file_id: file_id.to_owned(),
        is_valid,
        validation_details: details,
        file_size: size,
        expected_size: Some(source_size),
    }
}

} // verus!
