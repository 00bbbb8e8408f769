pub mod app_stage;
pub mod frame_data;
pub mod image_file;
pub mod mosaic_tiling_option;
pub mod print_sizes;
pub mod system_info;
pub mod terminal_theme;
pub mod tile_shape;
pub mod video_file;
pub mod video_indexing_report;

pub use app_stage::AppStage;
pub use image_file::ImageType;
pub use print_sizes::PrintSize;
pub use terminal_theme::{TerminalTheme, TerminalThemeMode};
pub use tile_shape::TileShape;
pub use video_indexing_report::{VideoIndexCore, VideoIndexingReport, VideoIndexStatus};
pub use video_file::VideoFile;
pub use system_info::CoreLimits;
pub use image_file::ImageFile;

use vstd::prelude::*;
use crate::app::frame_data::Color;
use crate::ffmpeg::color_extractor::ColorExtractionAlgorithm;
use crate::ffmpeg::crops::CropLevel;
use crate::text::{digits, push_digits, chars_of, string_from_chars, text_equal};
use crate::color_matcher::{FrameMatch, ImageTile};
use crate::tasks::load_databases::LoadDatabaseProgressReport;
use crate::app::video_indexing_report::frames_sum;
use std::sync::Arc;
use crate::images::{PreviewImage, RgbaImage, tile_bounds, darkened_region, PROGRESS_DARKEN_PERCENTAGE};

verus! {

/// Directory under the working directory that holds the colour databases.
pub const DATABASE_DIR: &'static str = "pmg_data";

/// Directory under the working directory that the mosaics are written to.
pub const MOSAICS_DIR: &'static str = "pmg_mosaics";

/// Colour tiles per mosaic tile, along each side, unless set otherwise.
pub const DEFAULT_COLOR_TILES: u32 = 4;

/// Mosaic tiles along each side unless set otherwise.
pub const DEFAULT_MOSAIC_TILES: u32 = 40;

/// What `Path::join` makes of a directory and a name.
pub uninterp spec fn joined_path(dir: Seq<char>, name: Seq<char>) -> Seq<char>;

/// `Path::join` (std) of a directory and a relative name, as text: the name appended to the
/// directory with a separator where one is needed. It depends on its arguments alone; which
/// text it is, is not stated here.
#[verifier::external_body]
fn path_join(dir: &str, name: &str) -> (r: String)
    ensures
        r@ == joined_path(dir@, name@),
{
    std::path::Path::new(dir).join(name).to_string_lossy().into_owned()
}

/// The name of a video's colour database for `tiles_x` x `tiles_y` colours per tile:
/// `{file name}-{x}x{y}.pmgd`.
pub open spec fn database_name(file_name: Seq<char>, tiles_x: nat, tiles_y: nat) -> Seq<char> {
    file_name + seq!['-'] + digits(tiles_x) + seq!['x'] + digits(tiles_y) + seq!['.', 'p', 'm', 'g', 'd']
}

/// The name of a video's colour database (see `database_name`).
pub fn database_file_name(file_name: &str, tiles_x: u32, tiles_y: u32) -> (r: String)
    ensures
        r@ == database_name(file_name@, tiles_x as nat, tiles_y as nat),
{
    let mut out = chars_of(file_name);
    out.push('-');
    push_digits(&mut out, tiles_x as u64);
    out.push('x');
    push_digits(&mut out, tiles_y as u64);
    out.push('.');
    out.push('p');
    out.push('m');
    out.push('g');
    out.push('d');
    assert(out@ == database_name(file_name@, tiles_x as nat, tiles_y as nat));
    string_from_chars(&out)
}

/// The state of the application: its stage, settings, and the videos and images it found.
pub struct App {
    pub stage: AppStage,
    pub working_dir: String,
    pub database_dir: String,
    pub mosaics_dir: String,
    pub color_tiles_x: u32,
    pub color_tiles_y: u32,
    pub mosaic_tiles_x: u32,
    pub mosaic_tiles_y: u32,
    pub current_video_index: u32,
    pub videos: Vec<VideoFile>,
    pub color_extraction_algorithm: ColorExtractionAlgorithm,
    pub current_image_index: u32,
    pub images: Vec<ImageFile>,
    pub selected_tile_shape: TileShape,
    pub terminal_palette: TerminalTheme,
    pub core_limits: CoreLimits,
    pub srgb_profile: Vec<u8>,
    /// The crop levels whose crops may be matched, in the order they were allowed.
    pub allowed_crops: Vec<CropLevel>,
}

/// Sum of the durations, in seconds, of the chosen videos.
pub open spec fn chosen_duration(videos: Seq<VideoFile>) -> nat
    decreases videos.len(),
{
    if videos.len() == 0 {
        0
    } else {
        chosen_duration(videos.drop_last()) + if videos.last().is_chosen { videos.last().metadata.duration_secs as nat } else { 0 }
    }
}

/// Sum of the frame counts of the chosen videos.
pub open spec fn chosen_frames(videos: Seq<VideoFile>) -> nat
    decreases videos.len(),
{
    if videos.len() == 0 {
        0
    } else {
        chosen_frames(videos.drop_last()) + if videos.last().is_chosen { videos.last().metadata.total_frames as nat } else { 0 }
    }
}

impl App {
    /// The application at its start, working in `working_dir`: 4 x 4 colour tiles, a 40 x 40
    /// mosaic, no videos or images yet, and the terminal's colours when it reported them
    /// (`Some((is_light, foreground, background))`), else white on black.
    pub fn new(working_dir: &str, core_limits: CoreLimits, srgb_profile: Vec<u8>, palette: Option<(bool, Color, Color)>) -> (a: App)
        ensures
            a.stage == AppStage::Initial,
            a.working_dir@ == working_dir@,
            a.database_dir@ == joined_path(working_dir@, DATABASE_DIR@),
            a.mosaics_dir@ == joined_path(working_dir@, MOSAICS_DIR@),
            a.color_tiles_x == DEFAULT_COLOR_TILES,
            a.color_tiles_y == DEFAULT_COLOR_TILES,
            a.mosaic_tiles_x == DEFAULT_MOSAIC_TILES,
            a.mosaic_tiles_y == DEFAULT_MOSAIC_TILES,
            a.current_video_index == 0,
            a.videos@.len() == 0,
            a.color_extraction_algorithm == ColorExtractionAlgorithm::PixelArrayTraversal,
            a.current_image_index == 0,
            a.images@.len() == 0,
            a.selected_tile_shape == TileShape::Landscape16x9,
            a.core_limits == core_limits,
            a.srgb_profile@ == srgb_profile@,
            a.allowed_crops@ == seq![CropLevel::Essential, CropLevel::Moderate, CropLevel::Aggressive],
            match palette {
                Some((is_light, fg, bg)) => {
                    &&& a.terminal_palette.mode == (if is_light { TerminalThemeMode::Light } else { TerminalThemeMode::Dark })
                    &&& a.terminal_palette.foreground_color == fg
                    &&& a.terminal_palette.background_color == bg
                },
                None => {
                    &&& a.terminal_palette.mode == TerminalThemeMode::Dark
                    &&& a.terminal_palette.foreground_color == (Color { r: 255, g: 255, b: 255 })
                    &&& a.terminal_palette.background_color == (Color { r: 0, g: 0, b: 0 })
                },
            },
    {
        let terminal_palette = match palette {
            Some((is_light, fg, bg)) => TerminalTheme::from_palette(is_light, fg, bg),
            None => TerminalTheme::assumed_dark(),
        };
        App {
            stage: AppStage::Initial,
            working_dir: working_dir.to_owned(),
            database_dir: path_join(working_dir, DATABASE_DIR),
            mosaics_dir: path_join(working_dir, MOSAICS_DIR),
            color_tiles_x: DEFAULT_COLOR_TILES,
            color_tiles_y: DEFAULT_COLOR_TILES,
            mosaic_tiles_x: DEFAULT_MOSAIC_TILES,
            mosaic_tiles_y: DEFAULT_MOSAIC_TILES,
            current_video_index: 0,
            videos: Vec::new(),
            color_extraction_algorithm: ColorExtractionAlgorithm::PixelArrayTraversal,
            current_image_index: 0,
            images: Vec::new(),
            selected_tile_shape: TileShape::Landscape16x9,
            terminal_palette,
            core_limits,
            srgb_profile,
            allowed_crops: vec![CropLevel::Essential, CropLevel::Moderate, CropLevel::Aggressive],
        }
    }

    /// Uses `num_x` x `num_y` colour tiles per mosaic tile.
    pub fn set_color_tiles(&mut self, num_x: u32, num_y: u32)
        ensures
            *final(self) == (App { color_tiles_x: num_x, color_tiles_y: num_y, ..*old(self) }),
    {
        self.color_tiles_x = num_x;
        self.color_tiles_y = num_y;
    }

    /// Makes mosaics of `num_x` x `num_y` tiles.
    pub fn set_mosaic_tiles(&mut self, num_x: u32, num_y: u32)
        ensures
            *final(self) == (App { mosaic_tiles_x: num_x, mosaic_tiles_y: num_y, ..*old(self) }),
    {
        self.mosaic_tiles_x = num_x;
        self.mosaic_tiles_y = num_y;
    }

    /// Seconds that the chosen videos last together.
    pub fn total_selected_video_duration(&self) -> (n: u64)
        requires
            chosen_duration(self.videos@) <= u64::MAX,
        ensures
            n == chosen_duration(self.videos@),
    {
        let mut total: u64 = 0;
        let mut i: usize = 0;
        while i < self.videos.len()
            invariant
                i <= self.videos@.len(),
                chosen_duration(self.videos@) <= u64::MAX,
                total == chosen_duration(self.videos@.subrange(0, i as int)),
            decreases self.videos@.len() - i,
        {
            proof {
                assert(self.videos@.subrange(0, i + 1).drop_last() == self.videos@.subrange(0, i as int));
                lemma_chosen_duration_prefix(self.videos@, i + 1);
            }
            if self.videos[i].is_chosen {
                total = total + self.videos[i].metadata.duration_secs;
            }
            i += 1;
        }
        assert(self.videos@.subrange(0, i as int) == self.videos@);
        total
    }

    /// Frames of the chosen videos together.
    pub fn total_selected_video_frames(&self) -> (n: u64)
        requires
            chosen_frames(self.videos@) <= u64::MAX,
        ensures
            n == chosen_frames(self.videos@),
    {
        let mut total: u64 = 0;
        let mut i: usize = 0;
        while i < self.videos.len()
            invariant
                i <= self.videos@.len(),
                chosen_frames(self.videos@) <= u64::MAX,
                total == chosen_frames(self.videos@.subrange(0, i as int)),
            decreases self.videos@.len() - i,
        {
            proof {
                assert(self.videos@.subrange(0, i + 1).drop_last() == self.videos@.subrange(0, i as int));
                lemma_chosen_frames_prefix(self.videos@, i + 1);
            }
            if self.videos[i].is_chosen {
                total = total + self.videos[i].metadata.total_frames;
            }
            i += 1;
        }
        assert(self.videos@.subrange(0, i as int) == self.videos@);
        total
    }

    /// A copy of the colour profile written into the mosaics.
    pub fn get_srgb_profile(&self) -> (p: Vec<u8>)
        ensures
            p@ == self.srgb_profile@,
    {
        let mut p: Vec<u8> = Vec::new();
        let mut i: usize = 0;
        while i < self.srgb_profile.len()
            invariant
                i <= self.srgb_profile@.len(),
                p@ == self.srgb_profile@.subrange(0, i as int),
            decreases self.srgb_profile@.len() - i,
        {
            p.push(self.srgb_profile[i]);
            i += 1;
        }
        assert(p@ == self.srgb_profile@);
        p
    }
}

impl App {
    /// Stops allowing the crops of `crop_level`: its first place in the allowed levels is
    /// removed. The essential crops are always allowed.
    pub fn disallow_crop_level(&mut self, crop_level: CropLevel)
        ensures
            *final(self) == (App { allowed_crops: final(self).allowed_crops, ..*old(self) }),
            crop_level == CropLevel::Essential || !old(self).allowed_crops@.contains(crop_level)
                ==> final(self).allowed_crops@ == old(self).allowed_crops@,
            crop_level != CropLevel::Essential && old(self).allowed_crops@.contains(crop_level) ==> exists|i: int|
                0 <= i < old(self).allowed_crops@.len() && old(self).allowed_crops@[i] == crop_level
                && (forall|j: int| 0 <= j < i ==> old(self).allowed_crops@[j] != crop_level)
                && final(self).allowed_crops@ == old(self).allowed_crops@.remove(i),
    {
        if crop_level == CropLevel::Essential {
            return;
        }
        let mut i: usize = 0;
        while i < self.allowed_crops.len()
            invariant
                *self == *old(self),
                crop_level != CropLevel::Essential,
                i <= self.allowed_crops@.len(),
                forall|j: int| 0 <= j < i ==> self.allowed_crops@[j] != crop_level,
            decreases self.allowed_crops@.len() - i,
        {
            if self.allowed_crops[i] == crop_level {
                assert(old(self).allowed_crops@[i as int] == crop_level);
                assert(old(self).allowed_crops@.contains(crop_level));
                self.allowed_crops.remove(i);
                return;
            }
            i += 1;
        }
    }

    /// Allows the crops of `crop_level`, adding it after the others unless it is allowed already.
    pub fn allow_crop_level(&mut self, crop_level: CropLevel)
        ensures
            *final(self) == (App { allowed_crops: final(self).allowed_crops, ..*old(self) }),
            final(self).allowed_crops@ == (if old(self).allowed_crops@.contains(crop_level) {
                old(self).allowed_crops@
            } else {
                old(self).allowed_crops@.push(crop_level)
            }),
    {
        let mut i: usize = 0;
        while i < self.allowed_crops.len()
            invariant
                *self == *old(self),
                i <= self.allowed_crops@.len(),
                forall|j: int| 0 <= j < i ==> self.allowed_crops@[j] != crop_level,
            decreases self.allowed_crops@.len() - i,
        {
            if self.allowed_crops[i] == crop_level {
                assert(self.allowed_crops@[i as int] == crop_level);
                return;
            }
            i += 1;
        }
        self.allowed_crops.push(crop_level);
    }

    /// The crop levels allowed, in the order they were allowed.
    pub fn allowed_crops(&self) -> (r: &[CropLevel])
        ensures
            r@ == self.allowed_crops@,
    {
        self.allowed_crops.as_slice()
    }
}

proof fn lemma_chosen_duration_prefix(s: Seq<VideoFile>, k: int)
    requires
        0 <= k <= s.len(),
    ensures
        chosen_duration(s.subrange(0, k)) <= chosen_duration(s),
    decreases s.len() - k,
{
    if k < s.len() {
        lemma_chosen_duration_prefix(s, k + 1);
        assert(s.subrange(0, k + 1).drop_last() == s.subrange(0, k));
    } else {
        assert(s.subrange(0, k) == s);
    }
}

proof fn lemma_chosen_frames_prefix(s: Seq<VideoFile>, k: int)
    requires
        0 <= k <= s.len(),
    ensures
        chosen_frames(s.subrange(0, k)) <= chosen_frames(s),
    decreases s.len() - k,
{
    if k < s.len() {
        lemma_chosen_frames_prefix(s, k + 1);
        assert(s.subrange(0, k + 1).drop_last() == s.subrange(0, k));
    } else {
        assert(s.subrange(0, k) == s);
    }
}

/// A key the user pressed, as the application reads it.
#[derive(Clone, Copy, Debug, PartialEq, Eq, Structural)]
pub enum KeyPress {
    Up,
    Down,
    /// The space bar: choose or unchoose.
    Toggle,
    /// `a`: choose every video.
    ChooseAll,
    /// Enter.
    Confirm,
    /// Backspace.
    Back,
    /// `q`.
    Quit,
    Other,
}

/// What the event loop does after a key.
#[derive(Clone, Copy, Debug, PartialEq, Eq, Structural)]
pub enum KeyOutcome {
    /// Leave the loop.
    Quit,
    /// Draw the screen again.
    Redraw,
    /// Load the preview of this image, if it has none, then draw the screen again.
    LoadPreview(usize),
    /// Nothing changed.
    Nothing,
}

/// The video is chosen and has no colour database yet.
pub open spec fn needs_database(v: VideoFile) -> bool {
    v.is_chosen && v.database_path is None
}

/// The video is chosen and its colour database exists but is not loaded.
pub open spec fn needs_loading(v: VideoFile) -> bool {
    v.is_chosen && v.database_path is Some && v.database is None
}

/// The place before `i` in a list of `count`, wrapping from the first to the last.
pub open spec fn previous_in_cycle(i: nat, count: nat) -> nat {
    if i == 0 { (count - 1) as nat } else { (i - 1) as nat }
}

/// The place after `i` in a list of `count`, wrapping from the last to the first.
pub open spec fn next_in_cycle(i: nat, count: nat) -> nat {
    if i == count - 1 { 0 } else { i + 1 }
}

/// The keys that the application cannot take in its present state: moving in an empty list,
/// moving past the largest index, choosing a video that is not there.
pub open spec fn key_unusable(a: App, key: KeyPress) -> bool {
    let videos = listed_count(a.videos@.len());
    let images = listed_count(a.images@.len());
    ||| (a.stage == AppStage::VideoSelect && key != KeyPress::Quit && match key {
        KeyPress::Up => a.current_video_index == 0 && videos == 0,
        KeyPress::Down => videos == 0 || (a.current_video_index != videos - 1 && a.current_video_index == u32::MAX),
        KeyPress::Toggle => a.current_video_index >= a.videos@.len(),
        _ => false,
    })
    ||| (a.stage == AppStage::ImageSelect && key != KeyPress::Quit && match key {
        KeyPress::Up => a.current_image_index == 0 && images == 0,
        KeyPress::Down => images == 0 || (a.current_image_index != images - 1 && a.current_image_index == u32::MAX),
        _ => false,
    })
}

/// The length of a list as the keys count it: its low 32 bits.
pub open spec fn listed_count(len: nat) -> nat {
    len % 0x1_0000_0000
}

/// `b` is `a` but for its videos.
pub open spec fn same_but_videos(a: App, b: App) -> bool {
    b == App { videos: b.videos, ..a }
}

/// `b` is `a` but for its videos and stage.
pub open spec fn same_but_videos_and_stage(a: App, b: App) -> bool {
    b == App { videos: b.videos, stage: b.stage, ..a }
}

/// `b` is `a` but for its images and stage.
pub open spec fn same_but_images_and_stage(a: App, b: App) -> bool {
    b == App { images: b.images, stage: b.stage, ..a }
}

/// The report that starts the indexing of a video.
pub open spec fn fresh_report_for(r: VideoIndexingReport, v: VideoFile) -> bool {
    &&& r.file_name@ == v.metadata.file_name@
    &&& r.total_frames == v.metadata.total_frames
    &&& r.cores@.len() == 0
    &&& r.status == VideoIndexStatus::NotStarted
}

impl App {
    /// Takes a key: `q` quits from any stage; the video and image lists move, choose and
    /// confirm; other stages ignore keys.
    pub fn handle_key(&mut self, key: KeyPress) -> (o: KeyOutcome)
        requires
            !key_unusable(*old(self), key),
        ensures
            key == KeyPress::Quit ==> o == KeyOutcome::Quit && *final(self) == (App { stage: AppStage::Quitting, ..*old(self) }),
            key != KeyPress::Quit && old(self).stage == AppStage::VideoSelect ==> video_key_done(*old(self), *final(self), key, o),
            key != KeyPress::Quit && old(self).stage == AppStage::ImageSelect ==> image_key_done(*old(self), *final(self), key, o),
            key != KeyPress::Quit && old(self).stage != AppStage::VideoSelect && old(self).stage != AppStage::ImageSelect
                ==> o == KeyOutcome::Nothing && *final(self) == *old(self),
    {
        if key == KeyPress::Quit {
            self.stage = AppStage::Quitting;
            return KeyOutcome::Quit;
        }
        match self.stage {
            AppStage::VideoSelect => self.video_select_key(key),
            AppStage::ImageSelect => self.image_select_key(key),
            _ => KeyOutcome::Nothing,
        }
    }

    /// A list length in the 32 bits that the keys count in.
    fn count_of(len: usize) -> (c: u32)
        ensures
            c == listed_count(len as nat),
    {
        ((len as u64) % 0x1_0000_0000) as u32
    }

    fn video_select_key(&mut self, key: KeyPress) -> (o: KeyOutcome)
        requires
            old(self).stage == AppStage::VideoSelect,
            key != KeyPress::Quit,
            !key_unusable(*old(self), key),
        ensures
            video_key_done(*old(self), *final(self), key, o),
    {
        let count = Self::count_of(self.videos.len());
        match key {
            KeyPress::Up => {
                self.current_video_index = if self.current_video_index == 0 { count - 1 } else { self.current_video_index - 1 };
                KeyOutcome::Redraw
            },
            KeyPress::Down => {
                self.current_video_index = if self.current_video_index == count - 1 { 0 } else { self.current_video_index + 1 };
                KeyOutcome::Redraw
            },
            KeyPress::Toggle => {
                let i = self.current_video_index as usize;
                let chosen = self.videos[i].is_chosen;
                self.videos[i].is_chosen = !chosen;
                KeyOutcome::Redraw
            },
            KeyPress::ChooseAll => {
                self.choose_all_videos();
                KeyOutcome::Redraw
            },
            KeyPress::Confirm => {
                if self.confirm_videos() { KeyOutcome::Redraw } else { KeyOutcome::Nothing }
            },
            _ => KeyOutcome::Nothing,
        }
    }

    fn choose_all_videos(&mut self)
        ensures
            same_but_videos(*old(self), *final(self)),
            final(self).videos@.len() == old(self).videos@.len(),
            forall|i: int| 0 <= i < old(self).videos@.len() ==> #[trigger] final(self).videos@[i] == (VideoFile {
                is_chosen: true,
                ..old(self).videos@[i]
            }),
    {
        let mut i: usize = 0;
        while i < self.videos.len()
            invariant
                i <= self.videos@.len(),
                same_but_videos(*old(self), *self),
                self.videos@.len() == old(self).videos@.len(),
                forall|j: int| 0 <= j < i ==> #[trigger] self.videos@[j] == (VideoFile { is_chosen: true, ..old(self).videos@[j] }),
                forall|j: int| i <= j < self.videos@.len() ==> #[trigger] self.videos@[j] == old(self).videos@[j],
            decreases self.videos@.len() - i,
        {
            self.videos[i].is_chosen = true;
            i += 1;
        }
    }

    /// Enter on the video list: with no video chosen nothing happens; else the chosen videos
    /// without a database get a fresh indexing report and indexing starts, or, when all have
    /// one, those not loaded are marked loading and loading starts, or else the image list
    /// comes next.
    fn confirm_videos(&mut self) -> (changed: bool)
        requires
            old(self).stage == AppStage::VideoSelect,
        ensures
            confirm_done(*old(self), *final(self), changed),
    {
        let mut any_chosen = false;
        let mut any_database = false;
        let mut any_loading = false;
        let mut i: usize = 0;
        while i < self.videos.len()
            invariant
                i <= self.videos@.len(),
                any_chosen == exists|j: int| 0 <= j < i && (#[trigger] self.videos@[j]).is_chosen,
                any_database == exists|j: int| 0 <= j < i && needs_database(#[trigger] self.videos@[j]),
                any_loading == exists|j: int| 0 <= j < i && needs_loading(#[trigger] self.videos@[j]),
            decreases self.videos@.len() - i,
        {
            let v = &self.videos[i];
            if v.is_chosen {
                any_chosen = true;
                if v.database_path.is_none() {
                    any_database = true;
                } else if v.database.is_none() {
                    any_loading = true;
                }
            }
            i += 1;
        }
        if !any_chosen {
            return false;
        }
        if any_database {
            let mut k: usize = 0;
            while k < self.videos.len()
                invariant
                    k <= self.videos@.len(),
                    same_but_videos(*old(self), *self),
                    self.videos@.len() == old(self).videos@.len(),
                    forall|j: int| 0 <= j < k ==> #[trigger] started_indexing(old(self).videos@[j], self.videos@[j]),
                    forall|j: int| k <= j < self.videos@.len() ==> #[trigger] self.videos@[j] == old(self).videos@[j],
                decreases self.videos@.len() - k,
            {
                if self.videos[k].is_chosen && self.videos[k].database_path.is_none() {
                    let report = VideoIndexingReport::new(self.videos[k].metadata.file_name.as_str(), self.videos[k].metadata.total_frames);
                    self.videos[k].indexing_report = Some(report);
                }
                k += 1;
            }
            self.stage = AppStage::GenerateMosaicDatabase;
        } else if any_loading {
            let mut k: usize = 0;
            while k < self.videos.len()
                invariant
                    k <= self.videos@.len(),
                    same_but_videos(*old(self), *self),
                    self.videos@.len() == old(self).videos@.len(),
                    forall|j: int| 0 <= j < k ==> #[trigger] started_loading(old(self).videos@[j], self.videos@[j]),
                    forall|j: int| k <= j < self.videos@.len() ==> #[trigger] self.videos@[j] == old(self).videos@[j],
                decreases self.videos@.len() - k,
            {
                if self.videos[k].is_chosen && self.videos[k].database_path.is_some() && self.videos[k].database.is_none() {
                    self.videos[k].is_loading_database = true;
                }
                k += 1;
            }
            self.stage = AppStage::LoadMosaicDatabase;
        } else {
            self.stage = AppStage::ImageSelect;
        }
        true
    }

    fn image_select_key(&mut self, key: KeyPress) -> (o: KeyOutcome)
        requires
            old(self).stage == AppStage::ImageSelect,
            key != KeyPress::Quit,
            !key_unusable(*old(self), key),
        ensures
            image_key_done(*old(self), *final(self), key, o),
    {
        let count = Self::count_of(self.images.len());
        match key {
            KeyPress::Up => {
                self.current_image_index = if self.current_image_index == 0 { count - 1 } else { self.current_image_index - 1 };
                KeyOutcome::Redraw
            },
            KeyPress::Down => {
                self.current_image_index = if self.current_image_index == count - 1 { 0 } else { self.current_image_index + 1 };
                KeyOutcome::Redraw
            },
            KeyPress::Toggle => {
                let chosen = self.current_image_index as usize;
                let mut k: usize = 0;
                while k < self.images.len()
                    invariant
                        k <= self.images@.len(),
                        same_but_images_and_stage(*old(self), *self),
                        self.stage == old(self).stage,
                        self.images@.len() == old(self).images@.len(),
                        chosen == old(self).current_image_index,
                        forall|j: int| 0 <= j < k ==> #[trigger] self.images@[j] == (ImageFile {
                            is_chosen: j == chosen,
                            ..old(self).images@[j]
                        }),
                        forall|j: int| k <= j < self.images@.len() ==> #[trigger] self.images@[j] == old(self).images@[j],
                    decreases self.images@.len() - k,
                {
                    self.images[k].is_chosen = k == chosen;
                    k += 1;
                }
                if chosen < self.images.len() && self.images[chosen].preview.is_none() {
                    KeyOutcome::LoadPreview(chosen)
                } else {
                    KeyOutcome::Redraw
                }
            },
            KeyPress::Confirm => {
                let mut any = false;
                let mut k: usize = 0;
                while k < self.images.len()
                    invariant
                        k <= self.images@.len(),
                        any == exists|j: int| 0 <= j < k && (#[trigger] self.images@[j]).is_chosen,
                    decreases self.images@.len() - k,
                {
                    if self.images[k].is_chosen {
                        any = true;
                    }
                    k += 1;
                }
                if any {
                    self.stage = AppStage::ProcessImage;
                }
                KeyOutcome::Redraw
            },
            KeyPress::Back => {
                self.stage = AppStage::VideoSelect;
                KeyOutcome::Redraw
            },
            _ => KeyOutcome::Nothing,
        }
    }
}

/// `after` is `before` with indexing started, when it needed a database.
pub open spec fn started_indexing(before: VideoFile, after: VideoFile) -> bool {
    if needs_database(before) {
        after.indexing_report matches Some(r) && fresh_report_for(r, before) && after == VideoFile {
            indexing_report: after.indexing_report,
            ..before
        }
    } else {
        after == before
    }
}

/// `after` is `before` marked loading, when its database needed loading.
pub open spec fn started_loading(before: VideoFile, after: VideoFile) -> bool {
    if needs_loading(before) { after == VideoFile { is_loading_database: true, ..before } } else { after == before }
}

/// What Enter on the video list does (see `App::confirm_videos`).
pub open spec fn confirm_done(a: App, b: App, changed: bool) -> bool {
    if !(exists|j: int| 0 <= j < a.videos@.len() && (#[trigger] a.videos@[j]).is_chosen) {
        !changed && b == a
    } else {
        &&& changed
        &&& same_but_videos_and_stage(a, b)
        &&& b.videos@.len() == a.videos@.len()
        &&& if exists|j: int| 0 <= j < a.videos@.len() && needs_database(#[trigger] a.videos@[j]) {
            &&& b.stage == AppStage::GenerateMosaicDatabase
            &&& forall|j: int| 0 <= j < a.videos@.len() ==> #[trigger] started_indexing(a.videos@[j], b.videos@[j])
        } else if exists|j: int| 0 <= j < a.videos@.len() && needs_loading(#[trigger] a.videos@[j]) {
            &&& b.stage == AppStage::LoadMosaicDatabase
            &&& forall|j: int| 0 <= j < a.videos@.len() ==> #[trigger] started_loading(a.videos@[j], b.videos@[j])
        } else {
            &&& b.stage == AppStage::ImageSelect
            &&& b.videos@ == a.videos@
        }
    }
}

/// What a key other than `q` does on the video list.
pub open spec fn video_key_done(a: App, b: App, key: KeyPress, o: KeyOutcome) -> bool {
    match key {
        KeyPress::Up => o == KeyOutcome::Redraw && b == App {
            current_video_index: previous_in_cycle(a.current_video_index as nat, listed_count(a.videos@.len())) as u32,
            ..a
        },
        KeyPress::Down => o == KeyOutcome::Redraw && b == App {
            current_video_index: next_in_cycle(a.current_video_index as nat, listed_count(a.videos@.len())) as u32,
            ..a
        },
        KeyPress::Toggle => o == KeyOutcome::Redraw && same_but_videos(a, b) && b.videos@ == a.videos@.update(
            a.current_video_index as int,
            VideoFile { is_chosen: !a.videos@[a.current_video_index as int].is_chosen, ..a.videos@[a.current_video_index as int] },
        ),
        KeyPress::ChooseAll => o == KeyOutcome::Redraw && same_but_videos(a, b) && b.videos@.len() == a.videos@.len() && forall|i: int|
            0 <= i < a.videos@.len() ==> #[trigger] b.videos@[i] == (VideoFile { is_chosen: true, ..a.videos@[i] }),
        KeyPress::Confirm => exists|changed: bool| confirm_done(a, b, changed) && o == (if changed { KeyOutcome::Redraw } else { KeyOutcome::Nothing }),
        _ => o == KeyOutcome::Nothing && b == a,
    }
}

/// What a key other than `q` does on the image list.
pub open spec fn image_key_done(a: App, b: App, key: KeyPress, o: KeyOutcome) -> bool {
    match key {
        KeyPress::Up => o == KeyOutcome::Redraw && b == App {
            current_image_index: previous_in_cycle(a.current_image_index as nat, listed_count(a.images@.len())) as u32,
            ..a
        },
        KeyPress::Down => o == KeyOutcome::Redraw && b == App {
            current_image_index: next_in_cycle(a.current_image_index as nat, listed_count(a.images@.len())) as u32,
            ..a
        },
        KeyPress::Toggle => {
            let c = a.current_image_index as int;
            &&& same_but_images_and_stage(a, b)
            &&& b.stage == a.stage
            &&& b.images@.len() == a.images@.len()
            &&& forall|j: int| 0 <= j < a.images@.len() ==> #[trigger] b.images@[j] == (ImageFile { is_chosen: j == c, ..a.images@[j] })
            &&& o == (if c < a.images@.len() && a.images@[c].preview is None { KeyOutcome::LoadPreview(c as usize) } else { KeyOutcome::Redraw })
        },
        KeyPress::Confirm => o == KeyOutcome::Redraw && b == App {
            stage: if exists|j: int| 0 <= j < a.images@.len() && (#[trigger] a.images@[j]).is_chosen { AppStage::ProcessImage } else { a.stage },
            ..a
        },
        KeyPress::Back => o == KeyOutcome::Redraw && b == App { stage: AppStage::VideoSelect, ..a },
        _ => o == KeyOutcome::Nothing && b == a,
    }
}

impl App {
    /// The list of videos arrived: the first, if any, is chosen, and the video list shows.
    pub fn receive_videos(&mut self, videos: Vec<VideoFile>)
        ensures
            same_but_videos_and_stage(*old(self), *final(self)),
            final(self).stage == AppStage::VideoSelect,
            final(self).videos@ == (if videos@.len() > 0 {
                videos@.update(0, VideoFile { is_chosen: true, ..videos@[0] })
            } else {
                videos@
            }),
    {
        self.videos = videos;
        if self.videos.len() > 0 {
            self.videos[0].is_chosen = true;
        }
        self.stage = AppStage::VideoSelect;
    }

    /// The first chosen video without a database, which is indexed next; when there is none,
    /// loading the databases comes next.
    pub fn start_next_indexing(&mut self) -> (r: Option<usize>)
        ensures
            match r {
                Some(i) => {
                    &&& *final(self) == *old(self)
                    &&& i < old(self).videos@.len()
                    &&& needs_database(old(self).videos@[i as int])
                    &&& forall|j: int| 0 <= j < i ==> !needs_database(#[trigger] old(self).videos@[j])
                },
                None => {
                    &&& *final(self) == (App { stage: AppStage::LoadMosaicDatabase, ..*old(self) })
                    &&& forall|j: int| 0 <= j < old(self).videos@.len() ==> !needs_database(#[trigger] old(self).videos@[j])
                },
            },
    {
        let mut i: usize = 0;
        while i < self.videos.len()
            invariant
                i <= self.videos@.len(),
                *self == *old(self),
                forall|j: int| 0 <= j < i ==> !needs_database(#[trigger] self.videos@[j]),
            decreases self.videos@.len() - i,
        {
            if self.videos[i].is_chosen && self.videos[i].database_path.is_none() {
                return Some(i);
            }
            i += 1;
        }
        self.stage = AppStage::LoadMosaicDatabase;
        None
    }

    /// The first video named `file_name`, if any.
    pub fn find_video(&self, file_name: &str) -> (r: Option<usize>)
        ensures
            match r {
                Some(i) => i < self.videos@.len() && self.videos@[i as int].metadata.file_name@ == file_name@
                    && forall|j: int| 0 <= j < i ==> (#[trigger] self.videos@[j]).metadata.file_name@ != file_name@,
                None => forall|j: int| 0 <= j < self.videos@.len() ==> (#[trigger] self.videos@[j]).metadata.file_name@ != file_name@,
            },
    {
        let mut i: usize = 0;
        while i < self.videos.len()
            invariant
                i <= self.videos@.len(),
                forall|j: int| 0 <= j < i ==> (#[trigger] self.videos@[j]).metadata.file_name@ != file_name@,
            decreases self.videos@.len() - i,
        {
            if text_equal(self.videos[i].metadata.file_name.as_str(), file_name) {
                return Some(i);
            }
            i += 1;
        }
        None
    }

    /// An indexing report arrived: it is kept on the video it names; when that video is
    /// finished, its database is `{database dir}/{file name}-{x}x{y}.pmgd`. Returns whether the
    /// named video was found and finished.
    pub fn record_indexing_report(&mut self, report: VideoIndexingReport) -> (finished: bool)
        ensures
            same_but_videos(*old(self), *final(self)),
            final(self).videos@.len() == old(self).videos@.len(),
            match first_video_named(old(self).videos@, report.file_name@) {
                None => !finished && final(self).videos@ == old(self).videos@,
                Some(i) => {
                    let v = old(self).videos@[i];
                    &&& finished == (report.status == VideoIndexStatus::Finished)
                    &&& final(self).videos@ == old(self).videos@.update(i, VideoFile {
                        indexing_report: Some(report),
                        database_path: if finished { final(self).videos@[i].database_path } else { v.database_path },
                        ..v
                    })
                    &&& finished ==> (final(self).videos@[i].database_path matches Some(path) && path@ == joined_path(
                        old(self).database_dir@,
                        database_name(v.metadata.file_name@, old(self).color_tiles_x as nat, old(self).color_tiles_y as nat),
                    ))
                },
            },
    {
        let found = self.find_video(report.file_name.as_str());
        proof {
            lemma_first_video_named(old(self).videos@, report.file_name@, found);
        }
        match found {
            None => false,
            Some(i) => {
                let finished = report.status == VideoIndexStatus::Finished;
                self.videos[i].indexing_report = Some(report);
                if finished {
                    let name = database_file_name(self.videos[i].metadata.file_name.as_str(), self.color_tiles_x, self.color_tiles_y);
                    let path = path_join(self.database_dir.as_str(), name.as_str());
                    self.videos[i].database_path = Some(path);
                }
                finished
            },
        }
    }
}

/// Index of the first video named `name`, if any.
pub open spec fn first_video_named(videos: Seq<VideoFile>, name: Seq<char>) -> Option<int> {
    if exists|i: int| 0 <= i < videos.len() && (#[trigger] videos[i]).metadata.file_name@ == name {
        Some(choose|i: int| 0 <= i < videos.len() && (#[trigger] videos[i]).metadata.file_name@ == name && forall|j: int|
            0 <= j < i ==> (#[trigger] videos[j]).metadata.file_name@ != name)
    } else {
        None
    }
}

proof fn lemma_first_video_named(videos: Seq<VideoFile>, name: Seq<char>, found: Option<usize>)
    requires
        match found {
            Some(i) => i < videos.len() && videos[i as int].metadata.file_name@ == name
                && forall|j: int| 0 <= j < i ==> (#[trigger] videos[j]).metadata.file_name@ != name,
            None => forall|j: int| 0 <= j < videos.len() ==> (#[trigger] videos[j]).metadata.file_name@ != name,
        },
    ensures
        first_video_named(videos, name) == match found {
            Some(i) => Some(i as int),
            None => None::<int>,
        },
{
    if let Some(i) = found {
        let k = choose|k: int| 0 <= k < videos.len() && (#[trigger] videos[k]).metadata.file_name@ == name && forall|j: int|
            0 <= j < k ==> (#[trigger] videos[j]).metadata.file_name@ != name;
        assert(videos[i as int].metadata.file_name@ == name);
        if k < i {
        } else if k > i {
            assert(videos[i as int].metadata.file_name@ != name);
        }
    }
}

impl App {
    /// Whether a chosen video's database waits to be loaded; when none does, the image list
    /// comes next.
    pub fn start_loading(&mut self) -> (needed: bool)
        ensures
            needed == exists|j: int| 0 <= j < old(self).videos@.len() && needs_loading(#[trigger] old(self).videos@[j]),
            *final(self) == (if needed { *old(self) } else { App { stage: AppStage::ImageSelect, ..*old(self) } }),
    {
        if self.any_needs_loading() {
            true
        } else {
            self.stage = AppStage::ImageSelect;
            false
        }
    }

    fn any_needs_loading(&self) -> (r: bool)
        ensures
            r == exists|j: int| 0 <= j < self.videos@.len() && needs_loading(#[trigger] self.videos@[j]),
    {
        let mut i: usize = 0;
        while i < self.videos.len()
            invariant
                i <= self.videos@.len(),
                forall|j: int| 0 <= j < i ==> !needs_loading(#[trigger] self.videos@[j]),
            decreases self.videos@.len() - i,
        {
            let v = &self.videos[i];
            if v.is_chosen && v.database_path.is_some() && v.database.is_none() {
                assert(needs_loading(self.videos@[i as int]));
                return true;
            }
            i += 1;
        }
        false
    }

    /// A report of loading a database arrived: the video it names records the frames read and
    /// dropped and is loading; when the report holds the database, the video keeps it and is
    /// no longer loading, and when no chosen video waits for its database any more, the image
    /// list comes next. Returns whether that happened.
    pub fn record_load_report(&mut self, report: LoadDatabaseProgressReport) -> (all_loaded: bool)
        ensures
            same_but_videos_and_stage(*old(self), *final(self)),
            final(self).videos@.len() == old(self).videos@.len(),
            match first_video_named(old(self).videos@, report.video_file_name@) {
                None => !all_loaded && *final(self) == *old(self),
                Some(i) => {
                    let v = old(self).videos@[i];
                    &&& final(self).videos@ == old(self).videos@.update(i, VideoFile {
                        total_database_frames_loaded: report.total_frames_processed,
                        total_dropped_frames: report.dropped_frames,
                        is_loading_database: report.database is None,
                        database: if report.database is Some { final(self).videos@[i].database } else { v.database },
                        ..v
                    })
                    &&& (report.database matches Some(d) ==> (final(self).videos@[i].database matches Some(a) && *a == d))
                    &&& all_loaded == (report.database is Some && forall|j: int|
                        0 <= j < final(self).videos@.len() ==> !needs_loading(#[trigger] final(self).videos@[j]))
                    &&& final(self).stage == (if all_loaded { AppStage::ImageSelect } else { old(self).stage })
                },
            },
    {
        let found = self.find_video(report.video_file_name.as_str());
        proof {
            lemma_first_video_named(old(self).videos@, report.video_file_name@, found);
        }
        match found {
            None => false,
            Some(i) => {
                let has_database = report.database.is_some();
                self.videos[i].total_database_frames_loaded = report.total_frames_processed;
                self.videos[i].total_dropped_frames = report.dropped_frames;
                self.videos[i].is_loading_database = true;
                match report.database {
                    Some(database) => {
                        self.videos[i].database = Some(Arc::new(database));
                        self.videos[i].is_loading_database = false;
                        if !self.any_needs_loading() {
                            self.stage = AppStage::ImageSelect;
                            return true;
                        }
                        false
                    },
                    None => false,
                }
            },
        }
    }

    /// The list of images arrived: the first, if any, is chosen, and its preview is to be
    /// loaded.
    pub fn receive_images(&mut self, images: Vec<ImageFile>) -> (preview: Option<usize>)
        ensures
            *final(self) == (App { images: final(self).images, ..*old(self) }),
            final(self).images@ == (if images@.len() > 0 {
                images@.update(0, ImageFile { is_chosen: true, ..images@[0] })
            } else {
                images@
            }),
            preview == (if images@.len() > 0 { Some(0usize) } else { None }),
    {
        self.images = images;
        if self.images.len() > 0 {
            self.images[0].is_chosen = true;
            Some(0)
        } else {
            None
        }
    }

    /// Index of the first chosen image, if any.
    pub fn chosen_image(&self) -> (r: Option<usize>)
        ensures
            match r {
                Some(i) => i < self.images@.len() && self.images@[i as int].is_chosen && forall|j: int|
                    0 <= j < i ==> !(#[trigger] self.images@[j]).is_chosen,
                None => forall|j: int| 0 <= j < self.images@.len() ==> !(#[trigger] self.images@[j]).is_chosen,
            },
    {
        let mut i: usize = 0;
        while i < self.images.len()
            invariant
                i <= self.images@.len(),
                forall|j: int| 0 <= j < i ==> !(#[trigger] self.images@[j]).is_chosen,
            decreases self.images@.len() - i,
        {
            if self.images[i].is_chosen {
                return Some(i);
            }
            i += 1;
        }
        None
    }

    /// The colours of the chosen image's tiles arrived: the first chosen image keeps them, its
    /// preview gets a progress view for the mosaic's grid, and finding matches comes next.
    /// Returns whether there was a chosen image.
    pub fn receive_image_tiles(&mut self, tiles: Vec<ImageTile>) -> (taken: bool)
        ensures
            same_but_images_and_stage(*old(self), *final(self)),
            final(self).images@.len() == old(self).images@.len(),
            match first_chosen_image(old(self).images@) {
                None => !taken && *final(self) == *old(self),
                Some(i) => {
                    let im = old(self).images@[i];
                    let after = final(self).images@[i];
                    &&& taken
                    &&& final(self).stage == AppStage::FindingMatches
                    &&& final(self).images@ == old(self).images@.update(i, ImageFile {
                        image_tiles: after.image_tiles,
                        preview: after.preview,
                        ..im
                    })
                    &&& after.image_tiles matches Some(t) && *t == tiles
                    &&& match im.preview {
                        None => after.preview is None,
                        Some(p) => after.preview matches Some(q) && q.preview() == p.preview() && q.grid() == (
                            old(self).mosaic_tiles_x,
                            old(self).mosaic_tiles_y,
                        ) && q.progress() is Some,
                    }
                },
            },
    {
        let found = self.chosen_image();
        proof {
            lemma_first_chosen_image(old(self).images@, found);
        }
        match found {
            None => false,
            Some(i) => {
                self.images[i].image_tiles = Some(Arc::new(tiles));
                let tiles_x = self.mosaic_tiles_x;
                let tiles_y = self.mosaic_tiles_y;
                let mut preview: Option<PreviewImage> = None;
                std::mem::swap(&mut preview, &mut self.images[i].preview);
                match preview {
                    None => {},
                    Some(mut p) => {
                        p.generate_progress_image(tiles_x, tiles_y);
                        self.images[i].preview = Some(p);
                    },
                }
                self.stage = AppStage::FindingMatches;
                true
            },
        }
    }
}

/// Index of the first chosen image, if any.
pub open spec fn first_chosen_image(images: Seq<ImageFile>) -> Option<int> {
    if exists|i: int| 0 <= i < images.len() && (#[trigger] images[i]).is_chosen {
        Some(choose|i: int| 0 <= i < images.len() && (#[trigger] images[i]).is_chosen && forall|j: int|
            0 <= j < i ==> !(#[trigger] images[j]).is_chosen)
    } else {
        None
    }
}

proof fn lemma_first_chosen_image(images: Seq<ImageFile>, found: Option<usize>)
    requires
        match found {
            Some(i) => i < images.len() && images[i as int].is_chosen && forall|j: int| 0 <= j < i ==> !(#[trigger] images[j]).is_chosen,
            None => forall|j: int| 0 <= j < images.len() ==> !(#[trigger] images[j]).is_chosen,
        },
    ensures
        first_chosen_image(images) == match found {
            Some(i) => Some(i as int),
            None => None::<int>,
        },
{
    if let Some(i) = found {
        let k = choose|k: int| 0 <= k < images.len() && (#[trigger] images[k]).is_chosen && forall|j: int|
            0 <= j < k ==> !(#[trigger] images[j]).is_chosen;
        assert(images[i as int].is_chosen);
        if k > i {
            assert(!images[i as int].is_chosen);
        }
    }
}

/// Index of the first chosen image that has its tile colours, if any.
pub open spec fn first_image_with_tiles(images: Seq<ImageFile>) -> Option<int> {
    if exists|i: int| 0 <= i < images.len() && (#[trigger] images[i]).is_chosen && images[i].image_tiles is Some {
        Some(choose|i: int| 0 <= i < images.len() && (#[trigger] images[i]).is_chosen && images[i].image_tiles is Some && forall|j: int|
            0 <= j < i ==> !((#[trigger] images[j]).is_chosen && images[j].image_tiles is Some))
    } else {
        None
    }
}

/// The progress view `data` (`w` x `h`, grid `gx` x `gy`) with the tiles of `ms` darkened in
/// turn: tile `i` of the mosaic is drawn at column `i % tiles_x` of row `i / tiles_x`.
pub open spec fn progress_marked(data: Seq<u8>, w: nat, h: nat, gx: nat, gy: nat, ms: Seq<FrameMatch>, tiles_x: nat, tiles_y: nat) -> Seq<u8>
    decreases ms.len(),
{
    if ms.len() == 0 {
        data
    } else {
        let prev = progress_marked(data, w, h, gx, gy, ms.drop_last(), tiles_x, tiles_y);
        let m = ms.last();
        if gx == 0 || gy == 0 {
            prev
        } else {
            let (l, r, t, b) = tile_bounds(w, h, gx, gy, (m.tile_index as nat % tiles_x) as nat, (m.tile_index as nat / tiles_x) as nat);
            darkened_region(prev, w, l, r, t, b, PROGRESS_DARKEN_PERCENTAGE)
        }
    }
}

/// `q` is the preview `p` with the tiles of `ms` marked in its progress view.
pub open spec fn preview_marked(p: PreviewImage, q: PreviewImage, ms: Seq<FrameMatch>, tiles_x: nat, tiles_y: nat) -> bool {
    &&& q.preview() == p.preview()
    &&& q.grid() == p.grid()
    &&& match p.progress() {
        None => q.progress() is None,
        Some(v) => q.progress() matches Some(u) && u.width == v.width && u.height == v.height && u.data@ == progress_marked(
            v.data@,
            v.width as nat,
            v.height as nat,
            p.grid().0 as nat,
            p.grid().1 as nat,
            ms,
            tiles_x,
            tiles_y,
        ),
    }
}

impl App {
    fn image_with_tiles(&self) -> (r: Option<usize>)
        ensures
            match r {
                Some(i) => i < self.images@.len() && self.images@[i as int].is_chosen && self.images@[i as int].image_tiles is Some
                    && forall|j: int| 0 <= j < i ==> !((#[trigger] self.images@[j]).is_chosen && self.images@[j].image_tiles is Some),
                None => forall|j: int| 0 <= j < self.images@.len() ==> !((#[trigger] self.images@[j]).is_chosen && self.images@[j].image_tiles is Some),
            },
    {
        let mut i: usize = 0;
        while i < self.images.len()
            invariant
                i <= self.images@.len(),
                forall|j: int| 0 <= j < i ==> !((#[trigger] self.images@[j]).is_chosen && self.images@[j].image_tiles is Some),
            decreases self.images@.len() - i,
        {
            if self.images[i].is_chosen && self.images[i].image_tiles.is_some() {
                return Some(i);
            }
            i += 1;
        }
        None
    }

    /// Matches arrived: the first chosen image with tile colours keeps them after those it
    /// has, and their tiles are marked in its progress view; when it has a match for every
    /// tile of the mosaic, generating the mosaic comes next. Returns whether that happened.
    pub fn receive_matches(&mut self, matches: Vec<FrameMatch>) -> (finished: bool)
        requires
            old(self).mosaic_tiles_x > 0,
            old(self).mosaic_tiles_y > 0,
            old(self).mosaic_tiles_x * old(self).mosaic_tiles_y <= u32::MAX,
        ensures
            same_but_images_and_stage(*old(self), *final(self)),
            final(self).images@.len() == old(self).images@.len(),
            match (if matches@.len() > 0 { first_image_with_tiles(old(self).images@) } else { None }) {
                None => !finished && *final(self) == *old(self),
                Some(i) => {
                    let im = old(self).images@[i];
                    let after = final(self).images@[i];
                    let before_matches = match im.matched_tiles { Some(t) => t@, None => Seq::empty() };
                    &&& final(self).images@ == old(self).images@.update(i, ImageFile {
                        matched_tiles: after.matched_tiles,
                        preview: after.preview,
                        ..im
                    })
                    &&& after.matched_tiles matches Some(t) && t@ == before_matches + matches@
                    &&& match im.preview {
                        None => after.preview is None,
                        Some(p) => after.preview matches Some(q) && preview_marked(
                            p,
                            q,
                            matches@,
                            old(self).mosaic_tiles_x as nat,
                            old(self).mosaic_tiles_y as nat,
                        ),
                    }
                    &&& finished == (before_matches.len() + matches@.len() == old(self).mosaic_tiles_x * old(self).mosaic_tiles_y)
                    &&& final(self).stage == (if finished { AppStage::GeneratingMosaic } else { old(self).stage })
                },
            },
    {
        if matches.len() == 0 {
            return false;
        }
        let found = self.image_with_tiles();
        proof {
            if let Some(i) = found {
                let k = choose|k: int| 0 <= k < self.images@.len() && (#[trigger] self.images@[k]).is_chosen
                    && self.images@[k].image_tiles is Some && forall|j: int|
                    0 <= j < k ==> !((#[trigger] self.images@[j]).is_chosen && self.images@[j].image_tiles is Some);
                if k > i {
                    assert(!(self.images@[i as int].is_chosen && self.images@[i as int].image_tiles is Some));
                }
                assert(first_image_with_tiles(self.images@) == Some(i as int));
            } else {
                assert(first_image_with_tiles(self.images@) is None);
            }
        }
        let i = match found {
            None => return false,
            Some(i) => i,
        };
        let tiles_x = self.mosaic_tiles_x;
        let tiles_y = self.mosaic_tiles_y;
        let mut preview: Option<PreviewImage> = None;
        std::mem::swap(&mut preview, &mut self.images[i].preview);
        let ghost original_preview = preview;
        let mut k: usize = 0;
        while k < matches.len()
            invariant
                k <= matches@.len(),
                tiles_x > 0,
                tiles_y > 0,
                match original_preview {
                    None => preview is None,
                    Some(p) => preview matches Some(q) && preview_marked(p, q, matches@.subrange(0, k as int), tiles_x as nat, tiles_y as nat),
                },
            decreases matches@.len() - k,
        {
            let index = matches[k].tile_index;
            let row = index / tiles_x;
            let col = index % tiles_x;
            match preview {
                None => {},
                Some(ref mut p) => {
                    p.add_progress_tile(col, row);
                },
            }
            proof {
                assert(matches@.subrange(0, k + 1).drop_last() =~= matches@.subrange(0, k as int));
            }
            k += 1;
        }
        assert(matches@.subrange(0, k as int) =~= matches@);
        self.images[i].preview = preview;
        let mut previous: Option<Vec<FrameMatch>> = None;
        std::mem::swap(&mut previous, &mut self.images[i].matched_tiles);
        let mut taken = match previous {
            Some(t) => t,
            None => Vec::new(),
        };
        let mut matches = matches;
        taken.append(&mut matches);
        let completed = taken.len();
        self.images[i].matched_tiles = Some(taken);
        let total = (tiles_x * tiles_y) as usize;
        if completed == total {
            self.stage = AppStage::GeneratingMosaic;
            true
        } else {
            false
        }
    }
}

/// Frames processed so far over the videos with an indexing report.
pub open spec fn indexed_frames(videos: Seq<VideoFile>) -> nat
    decreases videos.len(),
{
    if videos.len() == 0 {
        0
    } else {
        indexed_frames(videos.drop_last()) + match videos.last().indexing_report {
            Some(r) => frames_sum(r.cores@),
            None => 0,
        }
    }
}

/// Frames to process over the videos with an indexing report.
pub open spec fn frames_to_index(videos: Seq<VideoFile>) -> nat
    decreases videos.len(),
{
    if videos.len() == 0 {
        0
    } else {
        frames_to_index(videos.drop_last()) + match videos.last().indexing_report {
            Some(r) => r.total_frames as nat,
            None => 0,
        }
    }
}

proof fn lemma_indexing_sums_prefix(s: Seq<VideoFile>, k: int)
    requires
        0 <= k <= s.len(),
    ensures
        indexed_frames(s.subrange(0, k)) <= indexed_frames(s),
        frames_to_index(s.subrange(0, k)) <= frames_to_index(s),
    decreases s.len() - k,
{
    if k < s.len() {
        lemma_indexing_sums_prefix(s, k + 1);
        assert(s.subrange(0, k + 1).drop_last() == s.subrange(0, k));
    } else {
        assert(s.subrange(0, k) == s);
    }
}

impl App {
    /// The frames processed and the frames to process over the videos being indexed, when
    /// both sums fit in `u64`.
    pub fn checked_indexing_totals(&self) -> (r: Option<(u64, u64)>)
        ensures
            r == (if indexed_frames(self.videos@) <= u64::MAX && frames_to_index(self.videos@) <= u64::MAX {
                Some((indexed_frames(self.videos@) as u64, frames_to_index(self.videos@) as u64))
            } else {
                None
            }),
    {
        let mut done: u128 = 0;
        let mut total: u128 = 0;
        let mut i: usize = 0;
        while i < self.videos.len()
            invariant
                i <= self.videos@.len(),
                done == indexed_frames(self.videos@.subrange(0, i as int)),
                total == frames_to_index(self.videos@.subrange(0, i as int)),
                done <= i * 0xffff_ffff_ffff_ffff,
                total <= i * 0xffff_ffff_ffff_ffff,
            decreases self.videos@.len() - i,
        {
            proof {
                assert(self.videos@.subrange(0, i + 1).drop_last() == self.videos@.subrange(0, i as int));
                lemma_indexing_sums_prefix(self.videos@, i + 1);
                assert((i + 1) * 0xffff_ffff_ffff_ffff <= 0xffff_ffff_ffff_ffff * 0xffff_ffff_ffff_ffff) by (nonlinear_arith)
                    requires i < 0xffff_ffff_ffff_ffff;
                assert(i * 0xffff_ffff_ffff_ffff + 0xffff_ffff_ffff_ffff == (i + 1) * 0xffff_ffff_ffff_ffff) by (nonlinear_arith);
            }
            match &self.videos[i].indexing_report {
                Some(report) => {
                    let (frames, _) = report.wide_totals();
                    if frames > u64::MAX as u128 {
                        return None;
                    }
                    done = done + frames;
                    total = total + report.total_frames as u128;
                },
                None => {},
            }
            i += 1;
        }
        assert(self.videos@.subrange(0, i as int) == self.videos@);
        if done <= u64::MAX as u128 && total <= u64::MAX as u128 {
            Some((done as u64, total as u64))
        } else {
            None
        }
    }

    /// Seconds and frames of the chosen videos together, when both sums fit in `u64`.
    pub fn checked_selected_totals(&self) -> (r: Option<(u64, u64)>)
        ensures
            r == (if chosen_duration(self.videos@) <= u64::MAX && chosen_frames(self.videos@) <= u64::MAX {
                Some((chosen_duration(self.videos@) as u64, chosen_frames(self.videos@) as u64))
            } else {
                None
            }),
    {
        let mut seconds: u128 = 0;
        let mut frames: u128 = 0;
        let mut i: usize = 0;
        while i < self.videos.len()
            invariant
                i <= self.videos@.len(),
                seconds == chosen_duration(self.videos@.subrange(0, i as int)),
                frames == chosen_frames(self.videos@.subrange(0, i as int)),
                seconds <= i * 0xffff_ffff_ffff_ffff,
                frames <= i * 0xffff_ffff_ffff_ffff,
            decreases self.videos@.len() - i,
        {
            proof {
                assert(self.videos@.subrange(0, i + 1).drop_last() == self.videos@.subrange(0, i as int));
                assert((i + 1) * 0xffff_ffff_ffff_ffff <= 0xffff_ffff_ffff_ffff * 0xffff_ffff_ffff_ffff) by (nonlinear_arith)
                    requires i < 0xffff_ffff_ffff_ffff;
                assert(i * 0xffff_ffff_ffff_ffff + 0xffff_ffff_ffff_ffff == (i + 1) * 0xffff_ffff_ffff_ffff) by (nonlinear_arith);
            }
            if self.videos[i].is_chosen {
                seconds = seconds + self.videos[i].metadata.duration_secs as u128;
                frames = frames + self.videos[i].metadata.total_frames as u128;
            }
            i += 1;
        }
        assert(self.videos@.subrange(0, i as int) == self.videos@);
        if seconds <= u64::MAX as u128 && frames <= u64::MAX as u128 {
            Some((seconds as u64, frames as u64))
        } else {
            None
        }
    }

    /// The frames processed and the frames to process, over the videos being indexed; the
    /// share done is the first over the second.
    pub fn video_indexing_totals(&self) -> (r: (u64, u64))
        requires
            indexed_frames(self.videos@) <= u64::MAX,
            frames_to_index(self.videos@) <= u64::MAX,
        ensures
            r.0 == indexed_frames(self.videos@),
            r.1 == frames_to_index(self.videos@),
    {
        let mut done: u64 = 0;
        let mut total: u64 = 0;
        let mut i: usize = 0;
        while i < self.videos.len()
            invariant
                i <= self.videos@.len(),
                indexed_frames(self.videos@) <= u64::MAX,
                frames_to_index(self.videos@) <= u64::MAX,
                done == indexed_frames(self.videos@.subrange(0, i as int)),
                total == frames_to_index(self.videos@.subrange(0, i as int)),
            decreases self.videos@.len() - i,
        {
            proof {
                assert(self.videos@.subrange(0, i + 1).drop_last() == self.videos@.subrange(0, i as int));
                lemma_indexing_sums_prefix(self.videos@, i + 1);
            }
            match &self.videos[i].indexing_report {
                Some(report) => {
                    done = done + report.frames_processed();
                    total = total + report.total_frames;
                },
                None => {},
            }
            i += 1;
        }
        assert(self.videos@.subrange(0, i as int) == self.videos@);
        (done, total)
    }
}

/// Moving up the list and then down again comes back to the same place; up and down wrap
/// around: from place `i` of `count` they lead to `(i + count - 1) % count` and
/// `(i + 1) % count`, which are places of the list again.
pub proof fn lemma_up_then_down(i: nat, count: nat)
    requires
        i < count,
    ensures
        next_in_cycle(previous_in_cycle(i, count), count) == i,
        previous_in_cycle(next_in_cycle(i, count), count) == i,
        previous_in_cycle(i, count) == ((i + count - 1) as nat) % count,
        next_in_cycle(i, count) == (i + 1) % count,
        previous_in_cycle(i, count) < count,
        next_in_cycle(i, count) < count,
{
    if i == 0 {
        vstd::arithmetic::div_mod::lemma_small_mod((count - 1) as nat, count);
    } else {
        vstd::arithmetic::div_mod::lemma_mod_add_multiples_vanish((i - 1) as int, count as int);
        vstd::arithmetic::div_mod::lemma_small_mod((i - 1) as nat, count);
    }
    if i == count - 1 {
        vstd::arithmetic::div_mod::lemma_mod_self_0(count as int);
    } else {
        vstd::arithmetic::div_mod::lemma_small_mod((i + 1) as nat, count);
    }
}

/// A list of at most `u32::MAX` entries is counted whole by the keys.
pub proof fn lemma_short_list_counted_whole(len: nat)
    requires
        len <= u32::MAX,
    ensures
        listed_count(len) == len,
{
    vstd::arithmetic::div_mod::lemma_small_mod(len, 0x1_0000_0000);
}

} // verus!
