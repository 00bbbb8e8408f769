pub mod finding_matches;
pub mod video_selection;
