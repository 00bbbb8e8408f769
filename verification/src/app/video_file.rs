//! A video found in the working directory, and what the application knows of it.

use vstd::prelude::*;
use std::sync::Arc;
use crate::app::frame_data::VideoColorIndexDatabase;
use crate::app::video_indexing_report::VideoIndexingReport;
use crate::ffmpeg::video_metadata::VideoMetadata;

verus! {

pub struct VideoFile {
    pub metadata: VideoMetadata,
    pub is_chosen: bool,
    pub database_path: Option<String>,
    pub indexing_report: Option<VideoIndexingReport>,
    pub database: Option<Arc<VideoColorIndexDatabase>>,
    pub is_loading_database: bool,
    pub total_database_frames_loaded: u32,
    pub total_dropped_frames: u32,
}

impl VideoFile {
    /// A video that is not chosen, has no database and no indexing report.
    pub fn new(video: VideoMetadata) -> (v: VideoFile)
        ensures
            v.metadata == video,
            !v.is_chosen,
            v.database_path is None,
            v.indexing_report is None,
            v.database is None,
            !v.is_loading_database,
            v.total_database_frames_loaded == 0,
            v.total_dropped_frames == 0,
    {
        VideoFile {
            metadata: video,
            is_chosen: false,
            database_path: None,
            indexing_report: None,
            database: None,
            is_loading_database: false,
            total_database_frames_loaded: 0,
            total_dropped_frames: 0,
        }
    }
}

} // verus!
