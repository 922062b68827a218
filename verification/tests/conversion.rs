use bilibili_converter::calendar::timestamp_from_unix_secs;
use bilibili_converter::control::{
    completion_event, default_concurrency, failed_results, output_dir_results, Gate,
};
use bilibili_converter::converter::{
    detect_gpu_from_output, effective_concurrency, ffmpeg_args, ffmpeg_search_paths,
    file_result, get_encoder_config, output_extension, output_file_name, output_file_stem,
    output_path_for,
    resolve_output_dir, sanitize_output_stem, should_merge_audio, strip_nt_prefix,
    validate_file_integrity, ConversionTask, FileOutcome, GpuType, OutputProbe,
};
use bilibili_converter::paths::{
    check_absolute_path, get_default_output_path, get_suggested_output_path, simplify_parts,
    PathPart,
};
use bilibili_converter::{
    chrono_lite_timestamp, is_leap_year, AppSettings, ConversionControl, ConversionResult,
    MediaFile,
};

fn settings(video: &str, audio: &str, concurrency: usize) -> AppSettings {
    AppSettings {
        sound_enabled: true,
        output_format_video: video.to_string(),
        output_format_audio: audio.to_string(),
        output_path: String::new(),
        concurrency,
    }
}

fn probe(size: u64, ext: &str) -> OutputProbe {
    OutputProbe {
        exists: true,
        size: Ok(size),
        open_error: None,
        extension: ext.to_string(),
        reread: Some(Ok(())),
        size_difference_text: "0.0".to_string(),
    }
}

#[test]
fn intel_encoder_and_unknown_audio_format() {
    let c = get_encoder_config(GpuType::Intel, "wav");
    assert_eq!(c.video_encoder, "h264_qsv");
    assert_eq!(c.audio_encoder, "aac");
    assert!(c.use_gpu);
}

#[test]
fn gpu_from_encoder_list() {
    assert_eq!(detect_gpu_from_output(" V..... h264_nvenc", ""), GpuType::Nvidia);
    assert_eq!(detect_gpu_from_output("", " V..... hevc_amf"), GpuType::Amd);
    assert_eq!(detect_gpu_from_output("h264_qsv", "h264_amf"), GpuType::Amd);
    assert_eq!(detect_gpu_from_output("h264_qsv", ""), GpuType::Intel);
    assert_eq!(detect_gpu_from_output("libx264", "libx265"), GpuType::NoGpu);
    // The two streams are read with a newline between them.
    assert_eq!(detect_gpu_from_output("h264_", "nvenc"), GpuType::NoGpu);
}

#[test]
fn ffmpeg_is_looked_for_in_order() {
    let paths = ffmpeg_search_paths();
    assert_eq!(paths.len(), 6);
    assert_eq!(paths[0], "ffmpeg");
    assert_eq!(paths[1], "ffmpeg.exe");
    assert_eq!(paths[5], "D:\\dependencies\\ffmpeg-7.1.1\\bin\\ffmpeg.exe");
}

#[test]
fn nt_prefix_is_removed() {
    assert_eq!(strip_nt_prefix("\\\\?\\C:\\out\\a.mp4"), "C:\\out\\a.mp4");
    assert_eq!(strip_nt_prefix("C:\\out\\a.mp4"), "C:\\out\\a.mp4");
    assert_eq!(strip_nt_prefix("/tmp/a.mp4"), "/tmp/a.mp4");
}

#[test]
fn output_folder_of_a_run() {
    assert_eq!(resolve_output_dir("/chosen", "/base"), "/chosen");
    let r = resolve_output_dir("", "/base");
    assert!(r.starts_with("/base"));
    assert!(r.ends_with("result"));
    assert!(r.len() <= "/base".len() + 7);
}

#[test]
fn concurrency_and_output_format() {
    assert_eq!(effective_concurrency(&settings("mp4", "mp3", 0)), 1);
    assert_eq!(effective_concurrency(&settings("mp4", "mp3", 6)), 6);
    assert_eq!(output_extension("video", &settings("mkv", "flac", 1)), "mkv");
    assert_eq!(output_extension("audio", &settings("mkv", "flac", 1)), "flac");
    assert_eq!(default_concurrency(0), 1);
    assert_eq!(default_concurrency(1), 1);
    assert_eq!(default_concurrency(3), 2);
    assert_eq!(default_concurrency(5), 4);
    assert_eq!(default_concurrency(7), 6);
    assert_eq!(default_concurrency(64), 8);
    let d = AppSettings::default();
    assert!([1, 2, 4, 6, 8].contains(&d.concurrency));
}

#[test]
fn output_stems_are_safe() {
    assert_eq!(sanitize_output_stem("../a/b:c\\d"), "_a_b_c_d");
    assert_eq!(sanitize_output_stem("x...y"), "x.y");
    assert_eq!(output_file_stem("Show_P1.mp4"), "Show_P1");
    assert_eq!(output_file_stem("T_P2..mp4"), "T_P2.");
    assert_eq!(output_file_stem(".hidden"), ".hidden");
    assert_eq!(output_file_stem("noext"), "noext");
    let weird = output_file_stem("../../x.mp4");
    assert!(!weird.contains("..") && !weird.contains('/'));
    assert_eq!(weird, "x");
    assert_eq!(output_file_stem("a/b.mp4"), "b");
    assert_eq!(output_file_stem("dir/sub/"), "sub");
    assert_eq!(output_file_stem("a/.."), "output");
    assert_eq!(output_file_stem("/"), "output");
    assert_eq!(output_file_stem("x.tar.gz/."), "x.tar");
    assert_eq!(output_file_name("Show_P1", "mkv"), "Show_P1.mkv");
}

#[test]
fn audio_is_merged_only_when_present() {
    assert!(should_merge_audio("video", Some(true), true));
    assert!(!should_merge_audio("video", Some(true), false));
    assert!(!should_merge_audio("video", None, true));
    assert!(!should_merge_audio("audio", Some(true), true));
}

#[test]
fn ffmpeg_arguments_for_each_case() {
    let cpu = get_encoder_config(GpuType::NoGpu, "mp4");
    let gpu = get_encoder_config(GpuType::Nvidia, "mp4");
    assert_eq!(
        ffmpeg_args("in.m4s", None, true, "mp4", &cpu, "out.mp4"),
        vec![
            "-i", "in.m4s", "-y", "-progress", "pipe:2", "-nostats", "-c:v", "libx264", "-preset",
            "medium", "-crf", "23", "-c:a", "aac", "-b:a", "128k", "out.mp4"
        ]
    );
    assert_eq!(
        ffmpeg_args("v.m4s", Some("a.m4s"), true, "mp4", &gpu, "o.mp4"),
        vec![
            "-i", "v.m4s", "-i", "a.m4s", "-y", "-progress", "pipe:2", "-nostats", "-c:v", "copy",
            "-c:a", "aac", "-b:a", "128k", "o.mp4"
        ]
    );
    assert_eq!(
        ffmpeg_args("v.blv", None, true, "avi", &gpu, "o.avi"),
        vec![
            "-i", "v.blv", "-y", "-progress", "pipe:2", "-nostats", "-c:v", "h264_nvenc",
            "-preset", "p4", "-cq", "23", "-c:a", "mp3", "o.avi"
        ]
    );
    assert_eq!(
        ffmpeg_args("a.m4s", None, false, "flac", &cpu, "o.flac"),
        vec!["-i", "a.m4s", "-y", "-progress", "pipe:2", "-nostats", "-vn", "-c:a", "flac", "o.flac"]
    );
    assert_eq!(
        ffmpeg_args("a.m4s", None, false, "mp3", &cpu, "o.mp3"),
        vec![
            "-i", "a.m4s", "-y", "-progress", "pipe:2", "-nostats", "-vn", "-c:a", "libmp3lame",
            "-b:a", "192k", "o.mp3"
        ]
    );
    assert_eq!(
        ffmpeg_args("a.m4s", None, false, "ogg", &cpu, "o.ogg"),
        vec!["-i", "a.m4s", "-y", "-progress", "pipe:2", "-nostats", "o.ogg"]
    );
}

#[test]
fn integrity_of_a_good_video() {
    let v = validate_file_integrity("f1", 5000, "video", &probe(4096, "MP4"));
    assert!(v.is_valid);
    assert_eq!(v.file_id, "f1");
    assert_eq!(v.file_size, 4096);
    assert_eq!(v.expected_size, Some(5000));
    assert_eq!(
        v.validation_details,
        vec!["输出文件大小: 4096 字节", "视频格式校验通过", "文件可读取"]
    );
}

#[test]
fn integrity_findings_for_bad_files() {
    let mut missing = probe(0, "mp4");
    missing.exists = false;
    let v = validate_file_integrity("f", 1, "video", &missing);
    assert!(!v.is_valid);
    assert_eq!(v.validation_details, vec!["文件不存在"]);
    assert_eq!(v.file_size, 0);

    let mut unreadable = probe(0, "mp4");
    unreadable.size = Err("denied".to_string());
    let v = validate_file_integrity("f", 1, "video", &unreadable);
    assert_eq!(v.validation_details, vec!["无法读取文件元数据: denied"]);

    let v = validate_file_integrity("f", 1, "video", &probe(0, "mp4"));
    assert!(!v.is_valid);
    assert_eq!(
        v.validation_details,
        vec!["输出文件大小: 0 字节", "文件大小为0,可能转换失败", "视频文件大小过小,可能损坏", "视频格式校验通过", "文件可读取"]
    );

    let mut odd = probe(2048, "xyz");
    odd.reread = Some(Err("gone".to_string()));
    odd.open_error = Some("busy".to_string());
    let v = validate_file_integrity("f", 1, "video", &odd);
    assert!(!v.is_valid);
    assert_eq!(
        v.validation_details,
        vec!["输出文件大小: 2048 字节", "无法打开文件: busy", "未知文件格式: xyz", "读取文件元数据失败: gone"]
    );
}

#[test]
fn integrity_of_audio_compares_sizes() {
    let mut p = probe(10_000, "mp3");
    p.size_difference_text = "90.0".to_string();
    let v = validate_file_integrity("a", 100_000, "audio", &p);
    assert!(!v.is_valid);
    assert_eq!(v.validation_details[2], "音频文件大小异常 (差异: 90.0%)");
    let v = validate_file_integrity("a", 15_000, "audio", &probe(10_000, "mp3"));
    assert!(v.is_valid);
    let v = validate_file_integrity("a", 100_000, "video", &probe(10_000, "mp4"));
    assert!(v.is_valid);
}

#[test]
fn results_of_each_outcome() {
    let (r, done) = file_result("f1", FileOutcome::Converted("/o/a.mp4".to_string()));
    assert!(r.success && done);
    assert_eq!(r.output_path.as_deref(), Some("/o/a.mp4"));
    assert!(r.error.is_none());
    let (r, done) = file_result("f1", FileOutcome::Cancelled);
    assert!(!r.success && !done);
    assert_eq!(r.error.as_deref(), Some("Conversion cancelled"));
    let (r, done) = file_result("f1", FileOutcome::OutsideOutputFolder);
    assert!(!done);
    assert_eq!(r.error.as_deref(), Some("Invalid output path: path traversal detected"));
    let (r, _) = file_result("f1", FileOutcome::PathCheckFailed("e".to_string()));
    assert_eq!(r.error.as_deref(), Some("Failed to validate output path: e"));
    let (r, done) = file_result("f1", FileOutcome::StartFailed("no such file".to_string()));
    assert!(!done);
    assert_eq!(r.error.as_deref(), Some("Failed to start FFmpeg: no such file"));
    let (r, done) = file_result("f1", FileOutcome::ExitFailed("exit status: 1".to_string()));
    assert!(done);
    assert_eq!(r.error.as_deref(), Some("FFmpeg exited with status: exit status: 1"));
    let (r, done) = file_result("f9", FileOutcome::WaitFailed("broken".to_string()));
    assert!(done && r.file_id == "f9");
    assert_eq!(r.error.as_deref(), Some("broken"));
    assert!(r.output_path.is_none());
}

#[test]
fn task_starts_clean() {
    let t = ConversionTask::new();
    assert!(!t.cancelled);
    assert!(t.child_pid.is_none());
}

#[test]
fn run_commands() {
    let mut c = ConversionControl::new();
    assert!(c.pause().is_err());
    assert!(c.resume().is_err());
    assert_eq!(c.gate(), Gate::Cancelled);
    c.completed_count = 5;
    assert!(c.start(3).is_ok());
    assert_eq!(c.completed_count, 0);
    assert_eq!(c.start(9), Err("Conversion already in progress".to_string()));
    assert_eq!(c.file_count, 3);
    assert_eq!(c.gate(), Gate::Proceed);
    c.file_done();
    assert_eq!(c.start(7), Err("Conversion already in progress".to_string()));
    assert_eq!(c.completed_count, 1);
    assert_eq!(c.file_count, 3);
    let paused = c.pause().unwrap();
    assert_eq!(paused.completed_count, 1);
    assert_eq!(paused.pending_count, 2);
    assert_eq!(c.gate(), Gate::Wait);
    assert!(c.pause().is_err());
    assert!(c.resume().is_ok());
    assert!(!c.is_paused);
    let e = c.cancel();
    assert_eq!(e.completed_count, 1);
    assert_eq!(e.total_count, 3);
    assert!(!c.is_converting);
    assert_eq!(c.file_count, 0);
    assert_eq!(c.gate(), Gate::Cancelled);
}

#[test]
fn pause_then_resume_restores_the_state() {
    let mut c = ConversionControl::new();
    c.start(4).unwrap();
    c.file_done();
    let before = c;
    c.pause().unwrap();
    c.resume().unwrap();
    assert_eq!(c.is_converting, before.is_converting);
    assert_eq!(c.is_paused, before.is_paused);
    assert_eq!(c.completed_count, before.completed_count);
    assert_eq!(c.file_count, before.file_count);
}

#[test]
fn completion_counts_successes() {
    let ok = |id: &str| ConversionResult {
        file_id: id.to_string(),
        success: true,
        output_path: Some("o".to_string()),
        error: None,
    };
    let mut results = vec![ok("1"), ok("2")];
    let files = vec![MediaFile {
        id: "3".to_string(),
        path: "p".to_string(),
        name: "n".to_string(),
        size: 1,
        file_type: "video".to_string(),
        title: "t".to_string(),
        output_name: "t.mp4".to_string(),
        has_audio: None,
    }];
    results.extend(failed_results(&files, "输出路径无效：必须是绝对路径"));
    assert_eq!(results[2].file_id, "3");
    assert_eq!(results[2].error.as_deref(), Some("输出路径无效：必须是绝对路径"));
    let e = completion_event(results);
    assert_eq!(e.success_count, 2);
    assert_eq!(e.total_count, 3);
    assert_eq!(e.results.len(), 3);
}

#[test]
fn kept_folders() {
    let parts = vec![
        PathPart::RootDir,
        PathPart::Normal("download".to_string()),
        PathPart::Normal("12345".to_string()),
        PathPart::Normal("c_987".to_string()),
        PathPart::Normal("80".to_string()),
        PathPart::CurDir,
        PathPart::Normal("1234".to_string()),
    ];
    let (prefix, names) = simplify_parts(&parts);
    assert!(prefix.is_none());
    assert_eq!(names, vec!["download", "12345", "1234"]);
    let (prefix, _) = simplify_parts(&vec![PathPart::Prefix("D:".to_string()), PathPart::RootDir]);
    assert_eq!(prefix.as_deref(), Some("D:"));
}

#[test]
fn output_folder_simplified_here() {
    let r = bilibili_converter::do_simplify_output_path("download/v/c_123/64");
    assert_eq!(r, format!("download{}v", std::path::MAIN_SEPARATOR));
    assert_eq!(
        bilibili_converter::do_simplify_output_path("/data/c_123/video"),
        format!("/data{}video", std::path::MAIN_SEPARATOR)
    );
    assert_eq!(bilibili_converter::simplify_output_path("c_1/80"), "c_1/80");
    let sep = std::path::MAIN_SEPARATOR;
    assert_eq!(
        bilibili_converter::do_simplify_output_path("/download/./v/../c_1//x/"),
        format!("/download{}v{}x", sep, sep)
    );
    assert_eq!(bilibili_converter::do_simplify_output_path(""), "");
}

#[test]
fn civil_timestamps() {
    assert_eq!(timestamp_from_unix_secs(0), "1970-01-01 00:00:00");
    assert_eq!(timestamp_from_unix_secs(86_399), "1970-01-01 23:59:59");
    assert_eq!(timestamp_from_unix_secs(951_782_400), "2000-02-29 00:00:00");
    assert_eq!(timestamp_from_unix_secs(1_709_164_800), "2024-02-29 00:00:00");
    assert_eq!(timestamp_from_unix_secs(4_102_444_800), "2100-01-01 00:00:00");
    assert_eq!(timestamp_from_unix_secs(1_700_000_000), "2023-11-14 22:13:20");
    assert_eq!(chrono_lite_timestamp().len(), 19);
}

#[test]
fn leap_years() {
    assert!(is_leap_year(2000));
    assert!(!is_leap_year(1900));
    assert!(is_leap_year(2024));
    assert!(!is_leap_year(2023));
}

#[test]
fn where_a_converted_file_goes() {
    let sep = std::path::MAIN_SEPARATOR;
    if sep == '/' {
        assert_eq!(
            output_path_for("/out", None, "a.mp4"),
            ("/out".to_string(), "/out/a.mp4".to_string())
        );
        assert_eq!(
            output_path_for("/out", Some("c_1/80/x"), "a.mp4"),
            ("/out/x".to_string(), "/out/x/a.mp4".to_string())
        );
        assert_eq!(
            output_path_for("/out", Some(""), "a.mp4"),
            ("/out/".to_string(), "/out/a.mp4".to_string())
        );
    }
}

#[test]
fn output_paths_for_a_scanned_folder() {
    let sep = std::path::MAIN_SEPARATOR;
    assert_eq!(check_absolute_path("relative/x"), Err("Invalid path: must be absolute path".to_string()));
    assert_eq!(get_default_output_path("relative"), Err("Invalid path: must be absolute path".to_string()));
    assert!(get_suggested_output_path("relative").is_err());
    if sep == '/' {
        assert_eq!(check_absolute_path("/x"), Ok(()));
        assert_eq!(get_default_output_path("/data/x"), Ok(format!("/data/x{}result", sep)));
        assert_eq!(
            get_suggested_output_path("/data/download/c_1/80/x"),
            Ok(format!("/data{}download{}result", sep, sep))
        );
    }
}

#[test]
fn a_relative_output_folder_fails_every_file() {
    let files = vec![
        MediaFile {
            id: "a".to_string(),
            path: "/c/1/video.m4s".to_string(),
            name: "video.m4s".to_string(),
            size: 1,
            file_type: "video".to_string(),
            title: "t".to_string(),
            output_name: "t.mp4".to_string(),
            has_audio: None,
        },
    ];
    assert!(output_dir_results(true, &files).is_none());
    let failed = output_dir_results(false, &files).unwrap();
    assert_eq!(failed.len(), 1);
    assert_eq!(failed[0].file_id, "a");
    assert!(!failed[0].success);
    assert_eq!(failed[0].error.as_deref(), Some("输出路径无效：必须是绝对路径"));
}
