//! The verified core of the Bilibili cache converter: how cache files are
//! recognised and named, how output folders and FFmpeg arguments are chosen,
//! how converted files are checked, how a conversion run is controlled, and
//! how the logger writes, rotates and cleans up its files.
use vstd::prelude::*;

pub mod calendar;
pub mod control;
pub mod converter;
pub mod json;
pub mod logger;
pub mod model;
pub mod naming;
pub mod paths;
pub mod scanner;
pub mod text;

pub use calendar::{chrono_lite_timestamp, is_leap_year};
pub use control::ConversionControl;
pub use model::{
    AppSettings, ConversionCancelledEvent, ConversionCompleteEvent, ConversionPausedEvent,
    ConversionResult, ConversionResumedEvent, IntegrityValidation, MediaFile, ScanProgress,
    ScanResult,
};
pub use paths::{do_simplify_output_path, simplify_output_path};

verus! {

} // verus!
