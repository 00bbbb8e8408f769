//! Reading the colour database written while indexing a video: one line per
//! frame crop, `frame resize pos_x pos_y level r,g,b r,g,b ...`.
//!
//! A line that does not read as a crop of a frame of the video, with the
//! expected number of colours, is dropped and counted.

use vstd::prelude::*;
use std::collections::HashMap;
use crate::app::frame_data::{Color, FrameCrop, FrameData, VideoColorIndexDatabase};
use crate::text::{split_on, first_index, views, split_at_char, find_char, lemma_first_index_range,
    lemma_first_index_prefix, lemma_split_len, lemma_split_append, all_digits, digits_value, is_digit, parse_unsigned, parsed_unsigned, pow10, chars_of, lemma_pow10_bound,
    digits, fixed_point_text, padded_digits, strip_trailing_zeros, lemma_digits_read_back, lemma_parsed_digits,
    lemma_padded_digits_read_back, lemma_strip_trailing_zeros};
use crate::decimal::{decimal_thousandths, parse_percentage_thousandths, lemma_plain_decimal};
use crate::ffmpeg::crops::{CropLevel, CropSetting, CropTile, crop_level_of_code};
use crate::ffmpeg::color_extractor::{crop_line, line_prefix, tiles_text, color_text, tile_average};
use crate::ffmpeg::pixels::{rect_sum, lemma_rect_sum_bounds};

verus! {

broadcast use vstd::std_specs::hash::group_hash_axioms;

pub open spec fn is_ascii_whitespace(c: char) -> bool {
    c == ' ' || c == '\t' || c == '\n' || c == '\x0C' || c == '\r'
}

/// The whitespace-separated words of `s`, as `str::split_ascii_whitespace` gives them.
pub open spec fn tokens(s: Seq<char>) -> Seq<Seq<char>>
    decreases s.len(),
{
    if s.len() == 0 {
        Seq::empty()
    } else if is_ascii_whitespace(s.last()) {
        tokens(s.drop_last())
    } else {
        let prev = tokens(s.drop_last());
        if s.len() >= 2 && !is_ascii_whitespace(s[s.len() - 2]) && prev.len() > 0 {
            prev.update(prev.len() - 1, prev.last().push(s.last()))
        } else {
            prev.push(seq![s.last()])
        }
    }
}

/// The colour written as `r,g,b` (further parts ignored), when all three are bytes.
pub open spec fn color_of_token(t: Seq<char>) -> Option<Color> {
    let parts = split_on(t, ',');
    if parts.len() >= 3 && parsed_unsigned(parts[0], 255) is Some && parsed_unsigned(parts[1], 255) is Some
        && parsed_unsigned(parts[2], 255) is Some {
        Some(Color {
            r: parsed_unsigned(parts[0], 255)->0 as u8,
            g: parsed_unsigned(parts[1], 255)->0 as u8,
            b: parsed_unsigned(parts[2], 255)->0 as u8,
        })
    } else {
        None
    }
}

/// The colours of the words that read as colours, in order; other words are skipped.
pub open spec fn colors_of_tokens(ts: Seq<Seq<char>>) -> Seq<Color>
    decreases ts.len(),
{
    if ts.len() == 0 {
        Seq::empty()
    } else {
        let prev = colors_of_tokens(ts.drop_last());
        match color_of_token(ts.last()) {
            Some(c) => prev.push(c),
            None => prev,
        }
    }
}

/// The crop level that the words of a line record after the position, and where its colours
/// start. Where the fifth word is a colour, or there is none, the line records no level and
/// its colours start at the fifth word, as the extractors write them. Otherwise the fifth word
/// must be a byte that is the code of a level, and the colours follow it; any other fifth word
/// drops the line (`None`).
pub open spec fn level_field(t: Seq<Seq<char>>) -> Option<(Option<CropLevel>, int)> {
    if t.len() < 5 || color_of_token(t[4]) is Some {
        Some((None, 4))
    } else {
        match parsed_unsigned(t[4], 255) {
            Some(code) => match crop_level_of_code(code) {
                Some(level) => Some((Some(level), 5)),
                None => None,
            },
            None => None,
        }
    }
}

/// What a database line says: frame index, crop size and position in thousandths of a
/// percent, crop level if it records one, and the colours; `None` when the line is dropped.
pub open spec fn parse_line(line: Seq<char>, total_frames: nat, total_colors: nat) -> Option<(nat, nat, nat, nat, Option<CropLevel>, Seq<Color>)> {
    let t = tokens(line);
    if t.len() >= 4 {
        let frame = parsed_unsigned(t[0], u32::MAX as nat);
        let resize = decimal_thousandths(t[1]);
        let pos_x = decimal_thousandths(t[2]);
        let pos_y = decimal_thousandths(t[3]);
        let level = level_field(t);
        let field = level->0;
        let colors = colors_of_tokens(t.subrange(field.1, t.len() as int));
        if frame is Some && frame->0 < total_frames && resize is Some && 1000 <= resize->0 <= 100000 && pos_x is Some
            && pos_x->0 <= 100000 && pos_y is Some && pos_y->0 <= 100000 && level is Some && colors.len() == total_colors {
            Some((frame->0, resize->0, pos_x->0, pos_y->0, field.0, colors))
        } else {
            None
        }
    } else {
        None
    }
}

fn is_whitespace_char(c: char) -> (b: bool)
    ensures
        b == is_ascii_whitespace(c),
{
    c == ' ' || c == '\t' || c == '\n' || c == '\x0C' || c == '\r'
}

/// The whitespace-separated words of `s`.
pub fn tokenize(s: &[char]) -> (v: Vec<Vec<char>>)
    ensures
        views(v@) == tokens(s@),
{
    let mut done: Vec<Vec<char>> = Vec::new();
    let mut current: Vec<char> = Vec::new();
    let mut i: usize = 0;
    while i < s.len()
        invariant
            i <= s@.len(),
            tokens(s@.subrange(0, i as int)) == (if current@.len() > 0 { views(done@).push(current@) } else { views(done@) }),
            current@.len() > 0 <==> (i > 0 && !is_ascii_whitespace(s@[i - 1])),
        decreases s@.len() - i,
    {
        let c = s[i];
        let ghost pre = s@.subrange(0, i as int);
        let ghost next = s@.subrange(0, i + 1);
        assert(next.drop_last() == pre);
        assert(next.last() == c);
        if is_whitespace_char(c) {
            if current.len() > 0 {
                let ghost d = views(done@);
                done.push(current);
                assert(views(done@) =~= d.push(current@));
                current = Vec::new();
            }
        } else {
            let ghost d = views(done@);
            let ghost cur = current@;
            if current.len() > 0 {
                assert(next[next.len() - 2] == s@[i - 1]);
                assert(d.push(cur).update(d.len() as int, cur.push(c)) =~= d.push(cur.push(c)));
            } else {
                assert(cur.push(c) =~= seq![c]);
            }
            current.push(c);
        }
        i += 1;
    }
    assert(s@.subrange(0, s@.len() as int) == s@);
    if current.len() > 0 {
        done.push(current);
    }
    done
}

/// The colour written in a word.
pub fn parse_color(t: &[char]) -> (c: Option<Color>)
    ensures
        c == color_of_token(t@),
{
    let parts = split_at_char(t, ',');
    assert(views(parts@).len() == parts@.len());
    if parts.len() < 3 {
        return None;
    }
    assert(views(parts@)[0] == parts@[0]@);
    assert(views(parts@)[1] == parts@[1]@);
    assert(views(parts@)[2] == parts@[2]@);
    let r = parse_unsigned(&parts[0], 255);
    let g = parse_unsigned(&parts[1], 255);
    let b = parse_unsigned(&parts[2], 255);
    match (r, g, b) {
        (Some(r), Some(g), Some(b)) => Some(Color { r: r as u8, g: g as u8, b: b as u8 }),
        _ => None,
    }
}

/// The frame index and crop that a database line records, `None` when the line is dropped.
pub fn parse_database_line(line: &str, total_frames: u32, color_tiles_x: u32, total_colors: usize) -> (r: Option<(u32, FrameCrop)>)
    ensures
        match parse_line(line@, total_frames as nat, total_colors as nat) {
            None => r is None,
            Some(p) => r matches Some(fc) && fc.0 == p.0 && fc.1.resize_thousandths == p.1 && fc.1.pos_x_thousandths == p.2
                && fc.1.pos_y_thousandths == p.3 && fc.1.crop_level == p.4 && fc.1.colors@ == p.5 && fc.1.tiles_x == color_tiles_x,
        },
{
    let chars = chars_of(line);
    let words = tokenize(&chars);
    let ghost t = tokens(line@);
    assert(views(words@) == t);
    if words.len() < 4 {
        return None;
    }
    assert(t[0] == words@[0]@ && t[1] == words@[1]@ && t[2] == words@[2]@ && t[3] == words@[3]@);
    let frame_index = match parse_unsigned(&words[0], u32::MAX as u64) {
        Some(f) => f as u32,
        None => return None,
    };
    if frame_index >= total_frames {
        return None;
    }
    let resize = match parse_percentage_thousandths(&words[1]) {
        Some(v) => v,
        None => return None,
    };
    if resize < 1000 {
        return None;
    }
    let pos_x = match parse_percentage_thousandths(&words[2]) {
        Some(v) => v,
        None => return None,
    };
    let pos_y = match parse_percentage_thousandths(&words[3]) {
        Some(v) => v,
        None => return None,
    };
    let mut crop_level: Option<CropLevel> = None;
    let mut first: usize = 4;
    if words.len() >= 5 {
        assert(t[4] == words@[4]@);
        if parse_color(&words[4]).is_none() {
            match parse_unsigned(&words[4], 255) {
                Some(code) => match CropLevel::from_code(code as u8) {
                    Some(level) => {
                        crop_level = Some(level);
                        first = 5;
                    },
                    None => return None,
                },
                None => return None,
            }
        }
    }
    assert(level_field(t) == Some((crop_level, first as int)));
    let mut colors: Vec<Color> = Vec::new();
    let mut k: usize = first;
    assert(t.subrange(first as int, first as int) =~= Seq::<Seq<char>>::empty());
    while k < words.len()
        invariant
            first <= k <= words@.len(),
            views(words@) == t,
            colors@ == colors_of_tokens(t.subrange(first as int, k as int)),
        decreases words@.len() - k,
    {
        assert(t.subrange(first as int, k + 1).drop_last() == t.subrange(first as int, k as int));
        assert(t.subrange(first as int, k + 1).last() == words@[k as int]@);
        match parse_color(&words[k]) {
            Some(c) => colors.push(c),
            None => {},
        }
        k += 1;
    }
    assert(t.subrange(first as int, words@.len() as int) == t.subrange(first as int, t.len() as int));
    if colors.len() != total_colors {
        return None;
    }
    let mut crop = FrameCrop::init(color_tiles_x, resize, pos_x, pos_y, CropLevel::Essential);
    crop.crop_level = crop_level;
    crop.colors = colors;
    Some((frame_index, crop))
}

/// Progress of loading one video's colour database; the database once it is read.
pub struct LoadDatabaseProgressReport {
    pub video_file_name: String,
    pub total_frames_processed: u32,
    pub dropped_frames: u32,
    pub database: Option<VideoColorIndexDatabase>,
}

/// Lines read between two progress reports of loading a database.
pub const REPORT_PROGRESS_AFTER_FRAMES: u32 = 1234;

/// Collects the crops of a video's database, frame by frame, counting dropped lines.
pub struct DatabaseLoader {
    color_tiles_x: u32,
    color_tiles_y: u32,
    total_frames: u32,
    total_colors: usize,
    frames: Vec<FrameData>,
    positions: HashMap<u32, usize>,
    frames_added: u32,
    dropped_frames: u32,
}

impl DatabaseLoader {
    /// The frames read so far, in the order of their first line.
    pub closed spec fn frames(&self) -> Seq<FrameData> {
        self.frames@
    }

    pub closed spec fn dropped(&self) -> nat {
        self.dropped_frames as nat
    }

    pub closed spec fn settings(&self) -> (u32, u32, u32, usize) {
        (self.color_tiles_x, self.color_tiles_y, self.total_frames, self.total_colors)
    }

    /// Every frame index read appears once, and the index map finds it.
    pub closed spec fn wf(&self) -> bool {
        &&& self.frames@.len() == self.frames_added
        &&& self.total_colors == self.color_tiles_x * self.color_tiles_y
        &&& forall|p: int, q: int| 0 <= p < q < self.frames@.len() ==> self.frames@[p].frame_index != self.frames@[q].frame_index
        &&& forall|f: u32| #[trigger] self.positions@.contains_key(f) <==> exists|p: int| 0 <= p < self.frames@.len()
            && self.frames@[p].frame_index == f
        &&& forall|f: u32| #[trigger] self.positions@.contains_key(f) ==> self.positions@[f] < self.frames@.len()
            && self.frames@[self.positions@[f] as int].frame_index == f
    }

    /// A loader for a video of `total_frames` frames indexed with `color_tiles_x` x `color_tiles_y`
    /// colours per crop.
    pub fn new(color_tiles_x: u32, color_tiles_y: u32, total_frames: u32) -> (l: Self)
        requires
            color_tiles_x * color_tiles_y <= usize::MAX,
        ensures
            l.wf(),
            l.frames().len() == 0,
            l.dropped() == 0,
            l.settings() == (color_tiles_x, color_tiles_y, total_frames, (color_tiles_x * color_tiles_y) as usize),
    {
        DatabaseLoader {
            color_tiles_x,
            color_tiles_y,
            total_frames,
            total_colors: (color_tiles_x as usize) * (color_tiles_y as usize),
            frames: Vec::new(),
            positions: HashMap::new(),
            frames_added: 0,
            dropped_frames: 0,
        }
    }

    /// Frames read so far.
    pub fn total_frames_added(&self) -> (n: u32)
        requires
            self.wf(),
        ensures
            n == self.frames().len(),
    {
        self.frames_added
    }

    /// Lines dropped so far.
    pub fn dropped_frames(&self) -> (n: u32)
        ensures
            n == self.dropped(),
    {
        self.dropped_frames
    }

    /// Reads one line: its crop joins the frame it names, a new frame when none was read yet;
    /// a line that does not read is dropped. Returns whether a new frame was started.
    pub fn add_line(&mut self, line: &str) -> (new_frame: bool)
        requires
            old(self).wf(),
            old(self).frames().len() < u32::MAX,
        ensures
            final(self).wf(),
            final(self).settings() == old(self).settings(),
            match parse_line(line@, old(self).settings().2 as nat, old(self).settings().3 as nat) {
                None => !new_frame && final(self).frames() == old(self).frames()
                    && final(self).dropped() == (if old(self).dropped() < u32::MAX { old(self).dropped() + 1 } else { old(self).dropped() }),
                Some(p) => final(self).dropped() == old(self).dropped() && records_crop(old(self).frames(), final(self).frames(), p,
                    old(self).settings().0, new_frame),
            },
    {
        let parsed = parse_database_line(line, self.total_frames, self.color_tiles_x, self.total_colors);
        match parsed {
            None => {
                if self.dropped_frames < u32::MAX {
                    self.dropped_frames += 1;
                }
                false
            },
            Some((frame_index, crop)) => {
                match self.positions.get(&frame_index) {
                    Some(position) => {
                        let position = *position;
                        let ghost before = self.frames@;
                        let ghost new_crop = crop;
                        let mut frame = FrameData::new(frame_index);
                        std::mem::swap(&mut frame, &mut self.frames[position]);
                        frame.crops.push(crop);
                        std::mem::swap(&mut frame, &mut self.frames[position]);
                        proof {
                            let q = position as int;
                            assert(before[q].frame_index == frame_index);
                            assert(self.frames@.len() == before.len());
                            assert(self.frames@[q].frame_index == frame_index);
                            assert(self.frames@[q].crops@ == before[q].crops@.push(new_crop));
                            assert(self.frames@[q].crops@.subrange(0, before[q].crops@.len() as int) =~= before[q].crops@);
                            assert(forall|o: int| 0 <= o < before.len() && o != q ==> self.frames@[o] == before[o]);
                            assert forall|f: u32| #[trigger] self.positions@.contains_key(f) <==> exists|p: int| 0 <= p < self.frames@.len()
                                && self.frames@[p].frame_index == f by {
                                if self.positions@.contains_key(f) {
                                    let p = choose|p: int| 0 <= p < before.len() && before[p].frame_index == f;
                                    assert(self.frames@[p].frame_index == f);
                                }
                                if exists|p: int| 0 <= p < self.frames@.len() && self.frames@[p].frame_index == f {
                                    let p = choose|p: int| 0 <= p < self.frames@.len() && self.frames@[p].frame_index == f;
                                    assert(before[p].frame_index == f);
                                }
                            }
                        }
                        false
                    },
                    None => {
                        let ghost before = self.frames@;
                        let mut frame = FrameData::new(frame_index);
                        frame.crops.push(crop);
                        let position = self.frames.len();
                        self.frames.push(frame);
                        self.positions.insert(frame_index, position);
                        self.frames_added += 1;
                        proof {
                            assert(self.frames@.subrange(0, before.len() as int) =~= before);
                            assert(!exists|q: int| 0 <= q < before.len() && before[q].frame_index == frame_index);
                            assert forall|f: u32| #[trigger] self.positions@.contains_key(f) <==> exists|p: int| 0 <= p < self.frames@.len()
                                && self.frames@[p].frame_index == f by {
                                if f != frame_index && self.positions@.contains_key(f) {
                                    let p = choose|p: int| 0 <= p < before.len() && before[p].frame_index == f;
                                    assert(self.frames@[p].frame_index == f);
                                }
                                if f == frame_index {
                                    assert(self.frames@[position as int].frame_index == f);
                                }
                                if exists|p: int| 0 <= p < self.frames@.len() && self.frames@[p].frame_index == f {
                                    let p = choose|p: int| 0 <= p < self.frames@.len() && self.frames@[p].frame_index == f;
                                    if p < before.len() {
                                        assert(before[p].frame_index == f);
                                    }
                                }
                            }
                        }
                        true
                    },
                }
            },
        }
    }

    /// The database of the frames read.
    pub fn finish(self) -> (d: VideoColorIndexDatabase)
        ensures
            d.tiles_x == self.settings().0,
            d.tiles_y == self.settings().1,
            d.frames@ == self.frames(),
    {
        VideoColorIndexDatabase::new(self.color_tiles_x, self.color_tiles_y, self.frames)
    }
}

/// `after` is `before` with the crop of `p` recorded under its frame: appended to that frame's
/// crops when the frame was read before, else as a new last frame (`new_frame`).
pub open spec fn records_crop(before: Seq<FrameData>, after: Seq<FrameData>, p: (nat, nat, nat, nat, Option<CropLevel>, Seq<Color>),
    tiles_x: u32, new_frame: bool) -> bool {
    let is_crop = |c: FrameCrop| c.resize_thousandths == p.1 && c.pos_x_thousandths == p.2 && c.pos_y_thousandths == p.3
        && c.crop_level == p.4 && c.colors@ == p.5 && c.tiles_x == tiles_x;
    if exists|q: int| 0 <= q < before.len() && before[q].frame_index == p.0 {
        &&& !new_frame
        &&& after.len() == before.len()
        &&& exists|q: int| {
            &&& 0 <= q < before.len()
            &&& before[q].frame_index == p.0
            &&& after[q].frame_index == p.0
            &&& after[q].crops@.len() == before[q].crops@.len() + 1
            &&& after[q].crops@.subrange(0, before[q].crops@.len() as int) == before[q].crops@
            &&& is_crop(after[q].crops@.last())
            &&& forall|o: int| 0 <= o < before.len() && o != q ==> after[o] == before[o]
        }
    } else {
        &&& new_frame
        &&& after.len() == before.len() + 1
        &&& after.subrange(0, before.len() as int) == before
        &&& after.last().frame_index == p.0
        &&& after.last().crops@.len() == 1
        &&& is_crop(after.last().crops@[0])
    }
}


proof fn lemma_pow10_small()
    ensures
        pow10(0) == 1,
        pow10(1) == 10,
        pow10(2) == 100,
        pow10(3) == 1000,
{
    reveal_with_fuel(pow10, 4);
}




/// The colour of a tile as the colour lines record it.
pub open spec fn tile_color(p: Seq<u8>, w: int, t: CropTile) -> Color {
    Color { r: tile_average(p, w, t, 0) as u8, g: tile_average(p, w, t, 1) as u8, b: tile_average(p, w, t, 2) as u8 }
}

/// The colours of the tiles, in order.
pub open spec fn tile_colors(p: Seq<u8>, w: int, tiles: Seq<CropTile>) -> Seq<Color> {
    tiles.map_values(|t: CropTile| tile_color(p, w, t))
}

/// Every tile spans its columns and rows from start to end.
pub open spec fn tiles_ordered(tiles: Seq<CropTile>) -> bool {
    forall|j: int| 0 <= j < tiles.len() ==> #[trigger] tiles[j].start_x <= tiles[j].end_x && tiles[j].start_y <= tiles[j].end_y
}

/// The code that a database records for a crop level.
pub open spec fn level_code(level: CropLevel) -> nat {
    match level {
        CropLevel::Essential => 0,
        CropLevel::Moderate => 1,
        CropLevel::Aggressive => 2,
    }
}

/// The line written for a crop of a frame with the code of its crop level after its
/// position: `frame resize pos_x pos_y level r,g,b ...`.
pub open spec fn leveled_crop_line(frame_number: nat, crop: CropSetting, level: CropLevel, p: Seq<u8>, w: int) -> Seq<char> {
    line_prefix(frame_number, crop) + seq![' '] + digits(level_code(level)) + tiles_text(p, w, crop.tiles@) + seq!['\n']
}

/// A crop line with its level reads back as that crop: the frame index, the crop's size and
/// position, its level, and the colours of its tiles in order.
pub proof fn lemma_crop_line_reads_back(frame_number: nat, crop: CropSetting, level: CropLevel, p: Seq<u8>, w: int, total_frames: nat)
    requires
        frame_number < total_frames,
        frame_number <= u32::MAX,
        1000 <= crop.resize_thousandths <= 100000,
        crop.pos_x_thousandths <= 100000,
        crop.pos_y_thousandths <= 100000,
        tiles_ordered(crop.tiles@),
    ensures
        parse_line(leveled_crop_line(frame_number, crop, level, p, w), total_frames, crop.tiles@.len()) == Some(
            (
                frame_number,
                crop.resize_thousandths as nat,
                crop.pos_x_thousandths as nat,
                crop.pos_y_thousandths as nat,
                Some(level),
                tile_colors(p, w, crop.tiles@),
            ),
        ),
{
    let tiles = crop.tiles@;
    let code = level_code(level);
    let fw = digits(frame_number);
    let rw = fixed_point_text(crop.resize_thousandths as nat, 3);
    let xw = fixed_point_text(crop.pos_x_thousandths as nat, 3);
    let yw = fixed_point_text(crop.pos_y_thousandths as nat, 3);
    let cw = digits(code);
    lemma_digits_read_back(frame_number);
    lemma_digit_word(fw);
    lemma_digits_read_back(code);
    lemma_digit_word(cw);
    lemma_fixed_point_reads_back(crop.resize_thousandths as nat);
    lemma_fixed_point_reads_back(crop.pos_x_thousandths as nat);
    lemma_fixed_point_reads_back(crop.pos_y_thousandths as nat);
    let s1 = fw.push(' ');
    let s2 = (s1 + rw).push(' ');
    let s3 = (s2 + xw).push(' ');
    let s4 = (s3 + yw).push(' ');
    let prefix = s4 + cw;
    assert(line_prefix(frame_number, crop) + seq![' '] + cw =~= prefix);
    assert(fw =~= Seq::<char>::empty() + fw);
    lemma_tokens_append_word(Seq::<char>::empty(), fw);
    lemma_tokens_after_whitespace(fw, ' ');
    lemma_tokens_append_word(s1, rw);
    lemma_tokens_after_whitespace(s1 + rw, ' ');
    lemma_tokens_append_word(s2, xw);
    lemma_tokens_after_whitespace(s2 + xw, ' ');
    lemma_tokens_append_word(s3, yw);
    lemma_tokens_after_whitespace(s3 + yw, ' ');
    lemma_tokens_append_word(s4, cw);
    let head = seq![fw, rw, xw, yw, cw];
    assert(tokens(prefix) =~= head);
    lemma_tokens_of_tiles(prefix, head, p, w, tiles);
    let body = prefix + tiles_text(p, w, tiles);
    assert(leveled_crop_line(frame_number, crop, level, p, w) =~= body.push('\n'));
    lemma_tokens_after_whitespace(body, '\n');
    let words = tiles.map_values(|t: CropTile| tile_word(p, w, t));
    let t = tokens(leveled_crop_line(frame_number, crop, level, p, w));
    assert(t == head + words);
    assert(t.subrange(5, t.len() as int) =~= words);
    lemma_parsed_digits(frame_number, u32::MAX as nat);
    lemma_parsed_digits(code, 255);
    assert(t[4] == cw);
    lemma_no_comma(cw);
    lemma_split_single(cw);
    assert(color_of_token(cw) is None);
    assert(level_field(t) == Some((Some(level), 5int)));
    lemma_colors_of_words(p, w, tiles);
}

/// A line the extractors write for a crop of a frame reads back as that crop: the frame
/// index, the crop's size and position, no crop level, and the colours of its tiles in order.
pub proof fn lemma_written_line_reads_back(frame_number: nat, crop: CropSetting, p: Seq<u8>, w: int, total_frames: nat)
    requires
        frame_number < total_frames,
        frame_number <= u32::MAX,
        1000 <= crop.resize_thousandths <= 100000,
        crop.pos_x_thousandths <= 100000,
        crop.pos_y_thousandths <= 100000,
        tiles_ordered(crop.tiles@),
    ensures
        parse_line(crop_line(frame_number, crop, p, w), total_frames, crop.tiles@.len()) == Some(
            (
                frame_number,
                crop.resize_thousandths as nat,
                crop.pos_x_thousandths as nat,
                crop.pos_y_thousandths as nat,
                None::<CropLevel>,
                tile_colors(p, w, crop.tiles@),
            ),
        ),
{
    let tiles = crop.tiles@;
    let fw = digits(frame_number);
    let rw = fixed_point_text(crop.resize_thousandths as nat, 3);
    let xw = fixed_point_text(crop.pos_x_thousandths as nat, 3);
    let yw = fixed_point_text(crop.pos_y_thousandths as nat, 3);
    lemma_digits_read_back(frame_number);
    lemma_digit_word(fw);
    lemma_fixed_point_reads_back(crop.resize_thousandths as nat);
    lemma_fixed_point_reads_back(crop.pos_x_thousandths as nat);
    lemma_fixed_point_reads_back(crop.pos_y_thousandths as nat);
    let s1 = fw.push(' ');
    let s2 = (s1 + rw).push(' ');
    let s3 = (s2 + xw).push(' ');
    let prefix = s3 + yw;
    assert(line_prefix(frame_number, crop) =~= prefix);
    assert(fw =~= Seq::<char>::empty() + fw);
    lemma_tokens_append_word(Seq::<char>::empty(), fw);
    lemma_tokens_after_whitespace(fw, ' ');
    lemma_tokens_append_word(s1, rw);
    lemma_tokens_after_whitespace(s1 + rw, ' ');
    lemma_tokens_append_word(s2, xw);
    lemma_tokens_after_whitespace(s2 + xw, ' ');
    lemma_tokens_append_word(s3, yw);
    let head = seq![fw, rw, xw, yw];
    assert(tokens(prefix) =~= head);
    lemma_tokens_of_tiles(prefix, head, p, w, tiles);
    let body = prefix + tiles_text(p, w, tiles);
    assert(crop_line(frame_number, crop, p, w) =~= body.push('\n'));
    lemma_tokens_after_whitespace(body, '\n');
    let words = tiles.map_values(|t: CropTile| tile_word(p, w, t));
    let t = tokens(crop_line(frame_number, crop, p, w));
    assert(t == head + words);
    if tiles.len() > 0 {
        let t0 = tiles[0];
        assert(t[4] == words[0]);
        assert(words[0] == tile_word(p, w, t0));
        lemma_colors_of_words(p, w, tiles);
        assert(tiles_ordered(tiles));
        assert(t0.start_x <= t0.end_x && t0.start_y <= t0.end_y);
        lemma_tile_average_byte(p, w, t0, 0);
        lemma_tile_average_byte(p, w, t0, 1);
        lemma_tile_average_byte(p, w, t0, 2);
        let (r, g, b) = (tile_average(p, w, t0, 0) as nat, tile_average(p, w, t0, 1) as nat, tile_average(p, w, t0, 2) as nat);
        lemma_color_word(r, g, b);
        lemma_parsed_digits(r, 255);
        lemma_parsed_digits(g, 255);
        lemma_parsed_digits(b, 255);
        assert(color_of_token(words[0]) is Some);
    }
    assert(level_field(t) == Some((None::<CropLevel>, 4int)));
    assert(t.subrange(4, t.len() as int) =~= words);
    lemma_parsed_digits(frame_number, u32::MAX as nat);
    lemma_colors_of_words(p, w, tiles);
}


/// The word written for a tile's colour, `r,g,b`.
pub open spec fn tile_word(p: Seq<u8>, w: int, t: CropTile) -> Seq<char> {
    color_text(tile_average(p, w, t, 0) as nat, tile_average(p, w, t, 1) as nat, tile_average(p, w, t, 2) as nat).drop_first()
}

pub open spec fn no_whitespace(s: Seq<char>) -> bool {
    forall|i: int| 0 <= i < s.len() ==> !is_ascii_whitespace(#[trigger] s[i])
}

proof fn lemma_digit_word(s: Seq<char>)
    requires
        all_digits(s),
    ensures
        no_whitespace(s),
        first_index(s, '.') == -1,
    decreases s.len(),
{
    assert forall|i: int| 0 <= i < s.len() implies !is_ascii_whitespace(#[trigger] s[i]) by {
        assert(is_digit(s[i]));
    }
    if s.len() > 0 {
        assert(all_digits(s.drop_last()));
        lemma_digit_word(s.drop_last());
        assert(is_digit(s.last()));
    }
}

/// A word appended after whitespace (or at the start) becomes the last token.
proof fn lemma_tokens_append_word(s: Seq<char>, w: Seq<char>)
    requires
        w.len() >= 1,
        no_whitespace(w),
        s.len() == 0 || is_ascii_whitespace(s.last()),
    ensures
        tokens(s + w) == tokens(s).push(w),
    decreases w.len(),
{
    if w.len() == 1 {
        assert((s + w).drop_last() =~= s);
        assert(w =~= seq![w[0]]);
        assert(!is_ascii_whitespace(w[0]));
        if s.len() > 0 {
            assert((s + w)[(s + w).len() - 2] == s.last());
        }
    } else {
        let v = w.drop_last();
        assert(no_whitespace(v));
        lemma_tokens_append_word(s, v);
        assert((s + w).drop_last() =~= s + v);
        assert((s + w)[(s + w).len() - 2] == v.last());
        assert(!is_ascii_whitespace(w.last()));
        assert(!is_ascii_whitespace(v.last()));
        assert(v.push(w.last()) =~= w);
        assert(tokens(s).push(v).update(tokens(s).len() as int, v.push(w.last())) =~= tokens(s).push(w));
    }
}

proof fn lemma_tokens_after_whitespace(s: Seq<char>, c: char)
    requires
        is_ascii_whitespace(c),
    ensures
        tokens(s.push(c)) == tokens(s),
{
    assert(s.push(c).drop_last() =~= s);
}

/// The tokens of the tile colours that follow a prefix are the tile words.
#[verifier::rlimit(60)]
#[verifier::spinoff_prover]
proof fn lemma_tokens_of_tiles(prefix: Seq<char>, head: Seq<Seq<char>>, p: Seq<u8>, w: int, tiles: Seq<CropTile>)
    requires
        tokens(prefix) == head,
    ensures
        tokens(prefix + tiles_text(p, w, tiles)) == head + tiles.map_values(|t: CropTile| tile_word(p, w, t)),
    decreases tiles.len(),
{
    let words = tiles.map_values(|t: CropTile| tile_word(p, w, t));
    if tiles.len() == 0 {
        assert(prefix + tiles_text(p, w, tiles) =~= prefix);
        assert(head + words =~= head);
    } else {
        let rest = tiles.drop_last();
        lemma_tokens_of_tiles(prefix, head, p, w, rest);
        let t = tiles.last();
        let word = tile_word(p, w, t);
        let ct = color_text(tile_average(p, w, t, 0) as nat, tile_average(p, w, t, 1) as nat, tile_average(p, w, t, 2) as nat);
        assert(ct =~= seq![' '] + word);
        lemma_color_word(tile_average(p, w, t, 0) as nat, tile_average(p, w, t, 1) as nat, tile_average(p, w, t, 2) as nat);
        let before = prefix + tiles_text(p, w, rest);
        assert(prefix + tiles_text(p, w, tiles) =~= before.push(' ') + word);
        lemma_tokens_after_whitespace(before, ' ');
        lemma_tokens_append_word(before.push(' '), word);
        assert(rest.map_values(|t: CropTile| tile_word(p, w, t)).push(word) =~= words);
        assert(head + words =~= (head + rest.map_values(|t: CropTile| tile_word(p, w, t))).push(word));
    }
}

/// A colour word `r,g,b` has no whitespace and splits into the three numbers.
proof fn lemma_color_word(r: nat, g: nat, b: nat)
    ensures
        color_text(r, g, b).drop_first().len() >= 1,
        no_whitespace(color_text(r, g, b).drop_first()),
        split_on(color_text(r, g, b).drop_first(), ',') == seq![digits(r), digits(g), digits(b)],
{
    let word = color_text(r, g, b).drop_first();
    let (dr, dg, db) = (digits(r), digits(g), digits(b));
    lemma_digits_read_back(r);
    lemma_digits_read_back(g);
    lemma_digits_read_back(b);
    assert(word =~= (dr.push(',') + dg).push(',') + db);
    lemma_three_parts_no_whitespace(dr, dg, db);
    lemma_no_comma(dr);
    lemma_no_comma(dg);
    lemma_no_comma(db);
    lemma_three_parts_split(dr, dg, db);
}

proof fn lemma_three_parts_no_whitespace(a: Seq<char>, b: Seq<char>, c: Seq<char>)
    requires
        all_digits(a),
        all_digits(b),
        all_digits(c),
    ensures
        no_whitespace((a.push(',') + b).push(',') + c),
{
    lemma_digit_word(a);
    lemma_digit_word(b);
    lemma_digit_word(c);
    let word = (a.push(',') + b).push(',') + c;
    assert forall|i: int| 0 <= i < word.len() implies !is_ascii_whitespace(#[trigger] word[i]) by {
        if i < a.len() {
            assert(word[i] == a[i]);
        } else if i == a.len() {
        } else if i < a.len() + 1 + b.len() {
            assert(word[i] == b[i - a.len() - 1]);
        } else if i == a.len() + 1 + b.len() {
        } else {
            assert(word[i] == c[i - a.len() - 2 - b.len()]);
        }
    }
}

proof fn lemma_three_parts_split(a: Seq<char>, b: Seq<char>, c: Seq<char>)
    requires
        forall|i: int| 0 <= i < a.len() ==> #[trigger] a[i] != ',',
        forall|i: int| 0 <= i < b.len() ==> #[trigger] b[i] != ',',
        forall|i: int| 0 <= i < c.len() ==> #[trigger] c[i] != ',',
    ensures
        split_on((a.push(',') + b).push(',') + c, ',') == seq![a, b, c],
{
    let e = Seq::<char>::empty();
    lemma_split_append(e, a, ',');
    assert(e + a =~= a);
    assert(split_on(e, ',') =~= seq![e]);
    assert(split_on(a, ',') =~= seq![a]);
    assert(a.push(',').drop_last() =~= a);
    assert(split_on(a.push(','), ',') =~= seq![a, e]);
    lemma_split_append(a.push(','), b, ',');
    assert(split_on(a.push(',') + b, ',') =~= seq![a, b]);
    let ab = a.push(',') + b;
    assert(ab.push(',').drop_last() =~= ab);
    assert(split_on(ab.push(','), ',') =~= seq![a, b, e]);
    lemma_split_append(ab.push(','), c, ',');
    assert(split_on(ab.push(',') + c, ',') =~= seq![a, b, c]);
}

/// A word without commas splits into itself alone.
proof fn lemma_split_single(s: Seq<char>)
    requires
        forall|i: int| 0 <= i < s.len() ==> #[trigger] s[i] != ',',
    ensures
        split_on(s, ',').len() == 1,
    decreases s.len(),
{
    if s.len() > 0 {
        let t = s.drop_last();
        assert forall|i: int| 0 <= i < t.len() implies #[trigger] t[i] != ',' by {
            assert(t[i] == s[i]);
        }
        lemma_split_single(t);
        assert(s.last() != ',');
    }
}

proof fn lemma_no_comma(s: Seq<char>)
    requires
        all_digits(s),
    ensures
        forall|i: int| 0 <= i < s.len() ==> #[trigger] s[i] != ',',
{
    assert forall|i: int| 0 <= i < s.len() implies #[trigger] s[i] != ',' by {
        assert(is_digit(s[i]));
    }
}

/// The colour words read back as the tile colours.
proof fn lemma_colors_of_words(p: Seq<u8>, w: int, tiles: Seq<CropTile>)
    requires
        tiles_ordered(tiles),
    ensures
        colors_of_tokens(tiles.map_values(|t: CropTile| tile_word(p, w, t))) == tile_colors(p, w, tiles),
    decreases tiles.len(),
{
    let words = tiles.map_values(|t: CropTile| tile_word(p, w, t));
    if tiles.len() > 0 {
        let rest = tiles.drop_last();
        assert(tiles_ordered(rest));
        lemma_colors_of_words(p, w, rest);
        assert(words.drop_last() =~= rest.map_values(|t: CropTile| tile_word(p, w, t)));
        let t = tiles.last();
        assert(t == tiles[tiles.len() - 1]);
        lemma_tile_average_byte(p, w, t, 0);
        lemma_tile_average_byte(p, w, t, 1);
        lemma_tile_average_byte(p, w, t, 2);
        let (r, g, b) = (tile_average(p, w, t, 0) as nat, tile_average(p, w, t, 1) as nat, tile_average(p, w, t, 2) as nat);
        lemma_color_word(r, g, b);
        lemma_parsed_digits(r, 255);
        lemma_parsed_digits(g, 255);
        lemma_parsed_digits(b, 255);
        assert(words.last() == tile_word(p, w, t));
        assert(color_of_token(words.last()) == Some(tile_color(p, w, t)));
        assert(tile_colors(p, w, rest).push(tile_color(p, w, t)) =~= tile_colors(p, w, tiles));
    } else {
        assert(tile_colors(p, w, tiles) =~= Seq::<Color>::empty());
    }
}

/// A tile's mean channel value is a byte.
proof fn lemma_tile_average_byte(p: Seq<u8>, w: int, t: CropTile, c: int)
    requires
        t.start_x <= t.end_x,
        t.start_y <= t.end_y,
    ensures
        0 <= tile_average(p, w, t, c) <= 255,
{
    let count = (t.end_x - t.start_x) * (t.end_y - t.start_y);
    if count != 0 {
        let sum = rect_sum(p, w, c, t.start_x as int, t.start_y as int, t.end_x as int, t.end_y as int);
        lemma_rect_sum_bounds(p, w, c, t.start_x as int, t.start_y as int, t.end_x as int, t.end_y as int);
        assert(count > 0) by (nonlinear_arith)
            requires count == (t.end_x - t.start_x) * (t.end_y - t.start_y), count != 0, t.start_x <= t.end_x, t.start_y <= t.end_y;
        assert(0 <= (sum + count / 2) / count <= 255) by (nonlinear_arith)
            requires 0 <= sum <= 255 * count, count > 0;
    }
}

/// The shortest decimal text of `v` thousandths reads back as `v`.
#[verifier::spinoff_prover]
proof fn lemma_fixed_point_reads_back(v: nat)
    ensures
        decimal_thousandths(fixed_point_text(v, 3)) == Some(v),
        fixed_point_text(v, 3).len() >= 1,
        no_whitespace(fixed_point_text(v, 3)),
{
    lemma_pow10_small();
    let ip = v / 1000;
    let fr = v % 1000;
    let d = digits(ip);
    lemma_digits_read_back(ip);
    lemma_digit_word(d);
    assert(is_digit(d[0]));
    let text = fixed_point_text(v, 3);
    if fr == 0 {
        assert(text == d);
        lemma_plain_decimal(d, Seq::<char>::empty());
        assert(v == ip * 1000) by (nonlinear_arith)
            requires ip == v / 1000, v % 1000 == 0;
    } else {
        let pd = padded_digits(fr, 3);
        lemma_padded_digits_read_back(fr, 3);
        let s = strip_trailing_zeros(pd);
        lemma_strip_trailing_zeros(pd);
        lemma_digit_word(s);
        assert(text =~= d + seq!['.'] + s);
        assert(fr % pow10(3) == fr);
        assert(pd.len() == 3);
        if s.len() == 0 {
            assert(digits_value(s) == 0);
            assert(digits_value(pd) == 0 * pow10((pd.len() - s.len()) as nat));
            assert(fr == 0);
        }
        lemma_plain_decimal(d, s);
        assert(v == ip * 1000 + fr);
        assert forall|i: int| 0 <= i < text.len() implies !is_ascii_whitespace(#[trigger] text[i]) by {
            if i < d.len() {
                assert(text[i] == d[i]);
            } else if i > d.len() {
                assert(text[i] == s[i - d.len() - 1]);
            }
        }
    }
}

} // verus!
