use bilibili_converter::converter::{get_encoder_config, EncoderConfig, GpuType};
use bilibili_converter::logger::{get_timestamp, LogLevel};
use bilibili_converter::{AppSettings, ConversionResult, MediaFile, ScanResult};
use std::str::FromStr;

#[test]
fn test_encoder_config_default() {
    let config = EncoderConfig::default();
    assert_eq!(config.video_encoder, "libx264");
    assert_eq!(config.audio_encoder, "aac");
    assert!(!config.use_gpu);
}

#[test]
fn test_encoder_config_gpu_nvidia() {
    let config = get_encoder_config(GpuType::Nvidia, "mp4");
    assert_eq!(config.video_encoder, "h264_nvenc");
    assert!(config.use_gpu);
}

#[test]
fn test_encoder_config_gpu_amd() {
    let config = get_encoder_config(GpuType::Amd, "mp4");
    assert_eq!(config.video_encoder, "h264_amf");
    assert!(config.use_gpu);
}

#[test]
fn test_encoder_config_cpu() {
    let config = get_encoder_config(GpuType::NoGpu, "mp4");
    assert_eq!(config.video_encoder, "libx264");
    assert!(!config.use_gpu);
}

#[test]
fn test_encoder_config_audio_formats() {
    let config_mp3 = get_encoder_config(GpuType::NoGpu, "mp3");
    assert_eq!(config_mp3.audio_encoder, "libmp3lame");

    let config_aac = get_encoder_config(GpuType::NoGpu, "aac");
    assert_eq!(config_aac.audio_encoder, "aac");

    let config_flac = get_encoder_config(GpuType::NoGpu, "flac");
    assert_eq!(config_flac.audio_encoder, "flac");
}

#[test]
fn test_gpu_type_variants() {
    assert_ne!(GpuType::Nvidia, GpuType::Amd);
    assert_ne!(GpuType::Amd, GpuType::Intel);
    assert_ne!(GpuType::Intel, GpuType::NoGpu);
}

#[test]
fn test_app_settings_default() {
    let settings = AppSettings::default();
    assert!(settings.sound_enabled);
    assert_eq!(settings.output_format_video, "mp4");
    assert_eq!(settings.output_format_audio, "mp3");
    assert!(settings.output_path.is_empty());
}

#[test]
fn test_app_settings_custom() {
    let settings = AppSettings {
        sound_enabled: false,
        output_format_video: "mkv".to_string(),
        output_format_audio: "flac".to_string(),
        output_path: "/custom/path".to_string(),
        concurrency: 8,
    };
    assert!(!settings.sound_enabled);
    assert_eq!(settings.output_format_video, "mkv");
    assert_eq!(settings.output_format_audio, "flac");
    assert_eq!(settings.output_path, "/custom/path");
    assert_eq!(settings.concurrency, 8);
}

#[test]
fn test_media_file_structure() {
    let file = MediaFile {
        id: "test-id".to_string(),
        path: "/test/path.mp4".to_string(),
        name: "test.mp4".to_string(),
        size: 1024,
        file_type: "video".to_string(),
        title: "Test Video".to_string(),
        output_name: "output.mp4".to_string(),
        has_audio: Some(true),
    };
    assert_eq!(file.id, "test-id");
    assert_eq!(file.file_type, "video");
    assert_eq!(file.has_audio, Some(true));
}

#[test]
fn test_scan_result() {
    let files = vec![
        MediaFile {
            id: "1".to_string(),
            path: "/test/1.mp4".to_string(),
            name: "1.mp4".to_string(),
            size: 1024,
            file_type: "video".to_string(),
            title: "Video 1".to_string(),
            output_name: "1.mp4".to_string(),
            has_audio: Some(true),
        },
        MediaFile {
            id: "2".to_string(),
            path: "/test/2.mp3".to_string(),
            name: "2.mp3".to_string(),
            size: 512,
            file_type: "audio".to_string(),
            title: "Audio 1".to_string(),
            output_name: "2.mp3".to_string(),
            has_audio: None,
        },
    ];
    let result = ScanResult {
        files: files.clone(),
        total_size: 1536,
    };
    assert_eq!(result.files.len(), 2);
    assert_eq!(result.total_size, 1536);
}

#[test]
fn test_conversion_result() {
    let success_result = ConversionResult {
        file_id: "test".to_string(),
        success: true,
        output_path: Some("/output/test.mp4".to_string()),
        error: None,
    };
    assert!(success_result.success);
    assert!(success_result.output_path.is_some());

    let failure_result = ConversionResult {
        file_id: "test".to_string(),
        success: false,
        output_path: None,
        error: Some("FFmpeg error".to_string()),
    };
    assert!(!failure_result.success);
    assert!(failure_result.error.is_some());
}

#[test]
fn test_log_level_ordering() {
    assert!(LogLevel::Error > LogLevel::Warn);
    assert!(LogLevel::Warn > LogLevel::Info);
    assert!(LogLevel::Info > LogLevel::Debug);
    assert!(LogLevel::Debug > LogLevel::Trace);
}

#[test]
fn test_log_level_from_str() {
    assert_eq!(LogLevel::from_str("INFO"), Ok(LogLevel::Info));
    assert_eq!(LogLevel::from_str("error"), Ok(LogLevel::Error));
    assert!(LogLevel::from_str("invalid").is_err());
}

#[test]
fn test_timestamp_format() {
    let ts = get_timestamp();
    assert!(ts.len() == 19); // YYYY-MM-DD HH:MM:SS
}
