//! The records that the scanner, the converter and the front end exchange.
use vstd::prelude::*;

verus! {

/// The outcome of checking a converted file.
#[derive(Debug, Clone)]
pub struct IntegrityValidation {
    pub file_id: String,
    pub is_valid: bool,
    pub validation_details: Vec<String>,
    pub file_size: u64,
    pub expected_size: Option<u64>,
}

/// A media file found in the cache folder.
#[derive(Debug, Clone)]
pub struct MediaFile {
    pub id: String,
    pub path: String,
    pub name: String,
    pub size: u64,
    pub file_type: String,
    pub title: String,
    pub output_name: String,
    pub has_audio: Option<bool>,
}

impl MediaFile {
    /// A copy of this record, field by field.
    pub fn duplicate(&self) -> (r: MediaFile)
        ensures
            r == *self,
    {
        MediaFile {
            id: self.id.clone(),
            path: self.path.clone(),
            name: self.name.clone(),
            size: self.size,
            file_type: self.file_type.clone(),
            title: self.title.clone(),
            output_name: self.output_name.clone(),
            has_audio: self.has_audio,
        }
    }
}

/// The outcome of converting one file.
#[derive(Debug, Clone)]
pub struct ConversionResult {
    pub file_id: String,
    pub success: bool,
    pub output_path: Option<String>,
    pub error: Option<String>,
}

/// The files a scan found and their total size in bytes.
#[derive(Debug, Clone)]
pub struct ScanResult {
    pub files: Vec<MediaFile>,
    pub total_size: u64,
}

/// How far a scan has got.
#[derive(Debug, Clone)]
pub struct ScanProgress {
    pub processed: u64,
    pub total: u64,
    pub message: String,
}

/// The user's settings.
#[derive(Debug, Clone)]
pub struct AppSettings {
    pub sound_enabled: bool,
    pub output_format_video: String,
    pub output_format_audio: String,
    pub output_path: String,
    pub concurrency: usize,
}

/// Sent when a conversion run has finished.
#[derive(Debug, Clone)]
pub struct ConversionCompleteEvent {
    pub success_count: usize,
    pub total_count: usize,
    pub results: Vec<ConversionResult>,
}

/// Sent when a conversion run is cancelled.
#[derive(Debug, Clone)]
pub struct ConversionCancelledEvent {
    pub completed_count: usize,
    pub total_count: usize,
}

/// Sent when a conversion run is paused.
#[derive(Debug, Clone)]
pub struct ConversionPausedEvent {
    pub completed_count: usize,
    pub pending_count: usize,
}

/// Sent when a paused conversion run resumes.
#[derive(Debug, Clone)]
pub struct ConversionResumedEvent {
    pub completed_count: usize,
    pub pending_count: usize,
}

} // verus!
