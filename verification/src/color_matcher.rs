//! Finding, for each tile of an image, the video frame crop whose colours are
//! nearest.

use vstd::prelude::*;
use crate::app::frame_data::{flipped_colors, Color, FrameCrop, VideoColorIndexDatabase};
use crate::tasks::work_split::{share_of, split_work};

verus! {

/// The colours of one mosaic tile of the image, row by row.
pub struct ImageTile {
    pub colors: Vec<Color>,
}

/// The frame crop chosen for a mosaic tile. Crop size and position are in thousandths
/// of a percent.
pub struct FrameMatch {
    pub tile_index: u32,
    pub video_filename: String,
    pub frame_index: u32,
    pub crop_resize: u32,
    pub crop_pos_x: u32,
    pub crop_pos_y: u32,
    pub is_flipped: bool,
}

/// Squared difference of two channel values.
pub open spec fn sq_diff(a: u8, b: u8) -> int {
    (a - b) * (a - b)
}

/// Weighted squared distance between two colours.
pub open spec fn weighted_distance(biases: (u64, u64, u64), f: Color, c: Color) -> int {
    biases.0 * sq_diff(f.r, c.r) + biases.1 * sq_diff(f.g, c.g) + biases.2 * sq_diff(f.b, c.b)
}

/// Sum of the weighted distances of the first `n` colour pairs.
pub open spec fn distance_prefix(biases: (u64, u64, u64), frame: Seq<Color>, cand: Seq<Color>, n: int) -> int
    decreases n,
{
    if n <= 0 {
        0
    } else {
        distance_prefix(biases, frame, cand, n - 1) + weighted_distance(biases, frame[n - 1], cand[n - 1])
    }
}

/// Distance between a crop's colours and a tile's: the sum over the tile's colours, or the
/// largest `u64` when the crop has fewer colours than the tile.
pub open spec fn color_distance(biases: (u64, u64, u64), frame: Seq<Color>, cand: Seq<Color>) -> int {
    if frame.len() < cand.len() {
        u64::MAX as int
    } else {
        distance_prefix(biases, frame, cand, cand.len() as int)
    }
}

/// Each channel's squared difference is weighted by that channel's own bias: a crop colour
/// and a tile colour that differ only in red by `d` are `biases.0 * d^2` apart, only in green
/// `biases.1 * d^2`, only in blue `biases.2 * d^2`; and the distance of several colours is
/// the sum of theirs, so a crop colour more to a tile colour adds to the distance.
pub proof fn lemma_each_channel_weighted_by_its_bias(biases: (u64, u64, u64), f: Color, c: Color, frame: Seq<Color>, cand: Seq<Color>)
    requires
        frame.len() == cand.len(),
    ensures
        f.g == c.g && f.b == c.b ==> color_distance(biases, seq![f], seq![c]) == biases.0 * ((f.r - c.r) * (f.r - c.r)),
        f.r == c.r && f.b == c.b ==> color_distance(biases, seq![f], seq![c]) == biases.1 * ((f.g - c.g) * (f.g - c.g)),
        f.r == c.r && f.g == c.g ==> color_distance(biases, seq![f], seq![c]) == biases.2 * ((f.b - c.b) * (f.b - c.b)),
        f == c ==> color_distance(biases, seq![f], seq![c]) == 0,
        color_distance(biases, frame.push(f), cand.push(c)) == color_distance(biases, frame, cand)
            + color_distance(biases, seq![f], seq![c]),
{
    let one = color_distance(biases, seq![f], seq![c]);
    assert(distance_prefix(biases, seq![f], seq![c], 0) == 0);
    assert(one == weighted_distance(biases, f, c));
    let n = cand.len() as int;
    lemma_prefix_of_longer(biases, frame, cand, f, c, n);
    assert(frame.push(f)[n] == f);
    assert(cand.push(c)[n] == c);
    assert(sq_diff(f.r, f.r) == 0 && sq_diff(f.g, f.g) == 0 && sq_diff(f.b, f.b) == 0);
    if f.r == c.r {
        assert(biases.0 * sq_diff(f.r, c.r) == 0);
    }
    if f.g == c.g {
        assert(biases.1 * sq_diff(f.g, c.g) == 0);
    }
    if f.b == c.b {
        assert(biases.2 * sq_diff(f.b, c.b) == 0);
    }
}

/// Appending a pair of colours at place `n` adds its weighted distance.
proof fn lemma_prefix_of_longer(biases: (u64, u64, u64), frame: Seq<Color>, cand: Seq<Color>, f: Color, c: Color, n: int)
    requires
        0 <= n <= cand.len(),
        frame.len() >= cand.len(),
    ensures
        distance_prefix(biases, frame.push(f), cand.push(c), n) == distance_prefix(biases, frame, cand, n),
    decreases n,
{
    if n > 0 {
        lemma_prefix_of_longer(biases, frame, cand, f, c, n - 1);
        assert(frame.push(f)[n - 1] == frame[n - 1]);
        assert(cand.push(c)[n - 1] == cand[n - 1]);
    }
}

/// The matcher's default weights: a colour off by `d` in red only is `3 d^2` away, in green
/// only `6 d^2`, in blue only `d^2`; so of two crops, one off by 10 in green and one off by 15
/// in blue, the second is the nearer.
pub proof fn lemma_default_channel_weights(f: Color, c: Color)
    ensures
        f.g == c.g && f.b == c.b ==> color_distance((3u64, 6u64, 1u64), seq![f], seq![c]) == 3 * ((f.r - c.r) * (f.r - c.r)),
        f.r == c.r && f.b == c.b ==> color_distance((3u64, 6u64, 1u64), seq![f], seq![c]) == 6 * ((f.g - c.g) * (f.g - c.g)),
        f.r == c.r && f.g == c.g ==> color_distance((3u64, 6u64, 1u64), seq![f], seq![c]) == (f.b - c.b) * (f.b - c.b),
{
    lemma_each_channel_weighted_by_its_bias((3u64, 6u64, 1u64), f, c, Seq::<Color>::empty(), Seq::<Color>::empty());
}

/// The distance can be computed without overflowing `u64`.
pub open spec fn distance_fits(biases: (u64, u64, u64), frame: Seq<Color>, cand: Seq<Color>) -> bool {
    distance_prefix(biases, frame, cand, if frame.len() < cand.len() { frame.len() as int } else { cand.len() as int }) <= u64::MAX
}

pub proof fn lemma_distance_prefix_monotone(biases: (u64, u64, u64), frame: Seq<Color>, cand: Seq<Color>, m: int, n: int)
    requires
        0 <= m <= n,
    ensures
        0 <= distance_prefix(biases, frame, cand, m) <= distance_prefix(biases, frame, cand, n),
    decreases n,
{
    if n > m {
        lemma_distance_prefix_monotone(biases, frame, cand, m, n - 1);
        assert(weighted_distance(biases, frame[n - 1], cand[n - 1]) >= 0) by (nonlinear_arith);
    } else if n > 0 {
        lemma_distance_prefix_monotone(biases, frame, cand, n - 1, n - 1);
        assert(weighted_distance(biases, frame[n - 1], cand[n - 1]) >= 0) by (nonlinear_arith);
    }
}

/// A place in the search: database `i`, frame `j`, crop `k`, mirrored when `f` is 1.
pub open spec fn lex_before(a: (int, int, int, int), b: (int, int, int, int)) -> bool {
    a.0 < b.0 || (a.0 == b.0 && (a.1 < b.1 || (a.1 == b.1 && (a.2 < b.2 || (a.2 == b.2 && a.3 < b.3)))))
}

pub struct ColorMatcher<'database> {
    pub red_bias: u64,
    pub green_bias: u64,
    pub blue_bias: u64,
    pub mosaic_tiles_x: u32,
    pub mosaic_tiles_y: u32,
    num_workers: u32,
    databases: Vec<(String, &'database VideoColorIndexDatabase)>,
}

impl<'database> ColorMatcher<'database> {
    pub closed spec fn biases(&self) -> (u64, u64, u64) {
        (self.red_bias, self.green_bias, self.blue_bias)
    }

    pub closed spec fn tiles(&self) -> (u32, u32) {
        (self.mosaic_tiles_x, self.mosaic_tiles_y)
    }

    pub closed spec fn workers(&self) -> u32 {
        self.num_workers
    }

    /// The databases searched, with the names of their videos, in the order they were added.
    pub closed spec fn databases(&self) -> Seq<(Seq<char>, VideoColorIndexDatabase)> {
        self.databases@.map_values(|e: (String, &'database VideoColorIndexDatabase)| (e.0@, *e.1))
    }

    /// Crop `k` of frame `j` of database `i`.
    pub open spec fn crop_at(&self, i: int, j: int, k: int) -> FrameCrop {
        self.databases()[i].1.frames@[j].crops@[k]
    }

    /// Whether `(i, j, k, f)` names a crop of a frame of a database, plain or mirrored.
    pub open spec fn is_place(&self, a: (int, int, int, int)) -> bool {
        &&& 0 <= a.0 < self.databases().len()
        &&& 0 <= a.1 < self.databases()[a.0].1.frames@.len()
        &&& 0 <= a.2 < self.databases()[a.0].1.frames@[a.1].crops@.len()
        &&& 0 <= a.3 < 2
    }

    /// The colours compared at a place.
    pub open spec fn colors_at(&self, a: (int, int, int, int)) -> Seq<Color> {
        let crop = self.crop_at(a.0, a.1, a.2);
        if a.3 == 0 { crop.colors@ } else { flipped_colors(crop.colors@, crop.tiles_x as int) }
    }

    /// Distance between the tile and the colours at a place.
    pub open spec fn distance_at(&self, cand: Seq<Color>, a: (int, int, int, int)) -> int {
        color_distance(self.biases(), self.colors_at(a), cand)
    }

    /// Every crop can be mirrored and every distance to the tile fits in `u64`.
    pub open spec fn can_match(&self, cand: Seq<Color>) -> bool {
        forall|a: (int, int, int, int)| #[trigger] self.is_place(a) ==> self.crop_at(a.0, a.1, a.2).tiles_x > 0
            && distance_fits(self.biases(), self.colors_at(a), cand)
    }

    /// `m` is the match for tile `tile_index` at place `a`.
    pub open spec fn is_match_at(&self, m: FrameMatch, tile_index: u32, a: (int, int, int, int)) -> bool {
        let crop = self.crop_at(a.0, a.1, a.2);
        &&& m.tile_index == tile_index
        &&& m.video_filename@ == self.databases()[a.0].0
        &&& m.frame_index == self.databases()[a.0].1.frames@[a.1].frame_index
        &&& m.crop_resize == crop.resize_thousandths
        &&& m.crop_pos_x == crop.pos_x_thousandths
        &&& m.crop_pos_y == crop.pos_y_thousandths
        &&& m.is_flipped == (a.3 == 1)
    }

    /// The match reported when no crop is nearer than the largest distance.
    pub open spec fn is_default_match(m: FrameMatch, tile_index: u32) -> bool {
        &&& m.tile_index == tile_index
        &&& m.video_filename@ == Seq::<char>::empty()
        &&& m.frame_index == 0
        &&& m.crop_resize == 100000
        &&& m.crop_pos_x == 0
        &&& m.crop_pos_y == 0
        &&& !m.is_flipped
    }

    /// `m` names the first place, in search order, with the least distance to the tile; or,
    /// when every distance is the largest `u64`, the default match.
    pub open spec fn is_nearest_match(&self, m: FrameMatch, cand: Seq<Color>, tile_index: u32) -> bool {
        if exists|a: (int, int, int, int)| #[trigger] self.is_place(a) && self.distance_at(cand, a) < u64::MAX {
            exists|a: (int, int, int, int)| {
                &&& #[trigger] self.is_place(a)
                &&& self.is_match_at(m, tile_index, a)
                &&& forall|b: (int, int, int, int)| #[trigger] self.is_place(b) ==> self.distance_at(cand, a) <= self.distance_at(cand, b)
                &&& forall|b: (int, int, int, int)| #[trigger] self.is_place(b) && lex_before(b, a) ==> self.distance_at(cand, a) < self.distance_at(cand, b)
            }
        } else {
            Self::is_default_match(m, tile_index)
        }
    }

    /// A matcher for a `mosaic_tiles_x` x `mosaic_tiles_y` mosaic with no databases, one worker,
    /// and channel weights red 3, green 6, blue 1.
    pub fn new(mosaic_tiles_x: u32, mosaic_tiles_y: u32) -> (m: Self)
        ensures
            m.biases() == (3u64, 6u64, 1u64),
            m.tiles() == (mosaic_tiles_x, mosaic_tiles_y),
            m.workers() == 1,
            m.databases().len() == 0,
    {
        let m = Self {
            red_bias: 3,
            green_bias: 6,
            blue_bias: 1,
            mosaic_tiles_x,
            mosaic_tiles_y,
            num_workers: 1,
            databases: Vec::new(),
        };
        assert(m.databases() =~= Seq::empty());
        m
    }

    pub fn thread_count(&self) -> (n: u32)
        ensures
            n == self.workers(),
    {
        self.num_workers
    }

    /// Sets the number of workers, at least one.
    pub fn set_thread_count(&mut self, threads: u32)
        ensures
            final(self).workers() == (if threads >= 1 { threads } else { 1 }),
            final(self).biases() == old(self).biases(),
            final(self).tiles() == old(self).tiles(),
            final(self).databases() == old(self).databases(),
    {
        self.num_workers = if threads >= 1 { threads } else { 1 };
    }

    /// Adds the database of a video; a database already added under the same name is replaced
    /// in its place.
    pub fn add_database(&mut self, video_file_name: &str, database: &'database VideoColorIndexDatabase)
        ensures
            final(self).biases() == old(self).biases(),
            final(self).tiles() == old(self).tiles(),
            final(self).workers() == old(self).workers(),
            (exists|i: int| 0 <= i < old(self).databases().len() && old(self).databases()[i].0 == video_file_name@)
                ==> exists|i: int| 0 <= i < old(self).databases().len() && old(self).databases()[i].0 == video_file_name@
                    && (forall|q: int| 0 <= q < i ==> old(self).databases()[q].0 != video_file_name@)
                    && final(self).databases() == old(self).databases().update(i, (video_file_name@, *database)),
            (forall|i: int| 0 <= i < old(self).databases().len() ==> old(self).databases()[i].0 != video_file_name@)
                ==> final(self).databases() == old(self).databases().push((video_file_name@, *database)),
    {
        let name = String::from_str(video_file_name);
        let ghost before = self.databases();
        let mut i: usize = 0;
        while i < self.databases.len()
            invariant
                i <= self.databases@.len(),
                before == self.databases(),
                self.biases() == old(self).biases(),
                self.tiles() == old(self).tiles(),
                self.workers() == old(self).workers(),
                before == old(self).databases(),
                name@ == video_file_name@,
                forall|q: int| 0 <= q < i ==> before[q].0 != video_file_name@,
            decreases self.databases@.len() - i,
        {
            if self.databases[i].0 == name {
                assert(before[i as int].0 == video_file_name@);
                self.databases.set(i, (name, database));
                assert(self.databases() =~= before.update(i as int, (video_file_name@, *database)));
                return;
            }
            i += 1;
        }
        self.databases.push((name, database));
        assert(self.databases() =~= before.push((video_file_name@, *database)));
    }

    /// `m` is the match for tile `tile_index` at place `a`, except perhaps for the video name.
    pub open spec fn matches_place_fields(&self, m: FrameMatch, tile_index: u32, a: (int, int, int, int)) -> bool {
        let crop = self.crop_at(a.0, a.1, a.2);
        &&& m.tile_index == tile_index
        &&& m.frame_index == self.databases()[a.0].1.frames@[a.1].frame_index
        &&& m.crop_resize == crop.resize_thousandths
        &&& m.crop_pos_x == crop.pos_x_thousandths
        &&& m.crop_pos_y == crop.pos_y_thousandths
        &&& m.is_flipped == (a.3 == 1)
    }

    /// The search state before place `pos`: `smallest` is the least distance seen, and `best`
    /// the first place where it was seen.
    pub open spec fn search_state(&self, cand: Seq<Color>, tile_index: u32, pos: (int, int, int, int), smallest: u64,
        best: (int, int, int, int), m: FrameMatch) -> bool {
        &&& forall|a: (int, int, int, int)| #[trigger] self.is_place(a) && lex_before(a, pos) ==> smallest <= self.distance_at(cand, a)
        &&& smallest < u64::MAX ==> {
            &&& self.is_place(best)
            &&& lex_before(best, pos)
            &&& self.distance_at(cand, best) == smallest
            &&& forall|b: (int, int, int, int)| #[trigger] self.is_place(b) && lex_before(b, best) ==> smallest < self.distance_at(cand, b)
            &&& self.matches_place_fields(m, tile_index, best)
        }
        &&& smallest == u64::MAX ==> {
            &&& m.tile_index == tile_index
            &&& m.frame_index == 0
            &&& m.crop_resize == 100000
            &&& m.crop_pos_x == 0
            &&& m.crop_pos_y == 0
            &&& !m.is_flipped
        }
    }

    /// The crop colours nearest to a tile: see [`Self::is_nearest_match`].
    pub fn find_nearest_color(&self, candidate: &ImageTile, tile_index: u32) -> (m: FrameMatch)
        requires
            self.can_match(candidate.colors@),
        ensures
            self.is_nearest_match(m, candidate.colors@, tile_index),
    {
        let ghost cand = candidate.colors@;
        let mut nearest = FrameMatch {
            tile_index,
            video_filename: String::new(),
            frame_index: 0,
            crop_resize: 100000,
            crop_pos_x: 0,
            crop_pos_y: 0,
            is_flipped: false,
        };
        let mut smallest: u64 = u64::MAX;
        let ghost mut best: (int, int, int, int) = (0, 0, 0, 0);
        let ghost dbs = self.databases();

        let mut i: usize = 0;
        while i < self.databases.len()
            invariant
                dbs == self.databases(),
                cand == candidate.colors@,
                self.can_match(cand),
                i <= dbs.len(),
                self.search_state(cand, tile_index, (i as int, 0, 0, 0), smallest, best, nearest),
                smallest < u64::MAX ==> nearest.video_filename@ == dbs[best.0].0,
                smallest == u64::MAX ==> nearest.video_filename@ == Seq::<char>::empty(),
            decreases dbs.len() - i,
        {
            let entry = &self.databases[i];
            let database: &VideoColorIndexDatabase = entry.1;
            assert(dbs[i as int].1 == *database);
            let frames = database.frames();
            let mut found_here = false;
            let mut j: usize = 0;
            while j < frames.len()
                invariant
                    dbs == self.databases(),
                    cand == candidate.colors@,
                    self.can_match(cand),
                    i < dbs.len(),
                    dbs[i as int].1.frames@ == frames@,
                    j <= frames@.len(),
                    self.search_state(cand, tile_index, (i as int, j as int, 0, 0), smallest, best, nearest),
                    found_here ==> smallest < u64::MAX && best.0 == i,
                    !found_here && smallest < u64::MAX ==> nearest.video_filename@ == dbs[best.0].0,
                    !found_here && smallest == u64::MAX ==> nearest.video_filename@ == Seq::<char>::empty(),
                decreases frames@.len() - j,
            {
                let frame = &frames[j];
                let mut k: usize = 0;
                while k < frame.crops.len()
                    invariant
                        dbs == self.databases(),
                        cand == candidate.colors@,
                        self.can_match(cand),
                        i < dbs.len(),
                        dbs[i as int].1.frames@ == frames@,
                        j < frames@.len(),
                        *frame == frames@[j as int],
                        k <= frame.crops@.len(),
                        self.search_state(cand, tile_index, (i as int, j as int, k as int, 0), smallest, best, nearest),
                        found_here ==> smallest < u64::MAX && best.0 == i,
                        !found_here && smallest < u64::MAX ==> nearest.video_filename@ == dbs[best.0].0,
                        !found_here && smallest == u64::MAX ==> nearest.video_filename@ == Seq::<char>::empty(),
                    decreases frame.crops@.len() - k,
                {
                    let crop = &frame.crops[k];
                    let ghost here = (i as int, j as int, k as int, 0int);
                    let ghost here_flipped = (i as int, j as int, k as int, 1int);
                    assert(self.is_place(here));
                    assert(self.is_place(here_flipped));
                    assert(self.crop_at(i as int, j as int, k as int) == *crop);
                    let distance = self.check_distance(&crop.colors, candidate);
                    assert(distance == self.distance_at(cand, here));
                    if distance < smallest {
                        nearest.tile_index = tile_index;
                        nearest.frame_index = frame.frame_index;
                        nearest.crop_resize = crop.resize_thousandths;
                        nearest.crop_pos_x = crop.pos_x_thousandths;
                        nearest.crop_pos_y = crop.pos_y_thousandths;
                        nearest.is_flipped = false;
                        smallest = distance;
                        proof {
                            best = here;
                        }
                        found_here = true;
                    }
                    assert(self.search_state(cand, tile_index, here_flipped, smallest, best, nearest));
                    let flipped = crop.colors_flipped();
                    let flipped_distance = self.check_distance(&flipped, candidate);
                    assert(flipped_distance == self.distance_at(cand, here_flipped));
                    if flipped_distance < smallest {
                        nearest.tile_index = tile_index;
                        nearest.frame_index = frame.frame_index;
                        nearest.crop_resize = crop.resize_thousandths;
                        nearest.crop_pos_x = crop.pos_x_thousandths;
                        nearest.crop_pos_y = crop.pos_y_thousandths;
                        nearest.is_flipped = true;
                        smallest = flipped_distance;
                        proof {
                            best = here_flipped;
                        }
                        found_here = true;
                    }
                    assert(self.search_state(cand, tile_index, (i as int, j as int, k + 1, 0), smallest, best, nearest));
                    k += 1;
                }
                assert(self.search_state(cand, tile_index, (i as int, j + 1, 0, 0), smallest, best, nearest));
                j += 1;
            }
            if found_here {
                nearest.video_filename = entry.0.clone();
            }
            assert(self.search_state(cand, tile_index, (i + 1, 0, 0, 0), smallest, best, nearest));
            i += 1;
        }
        proof {
            let end = (dbs.len() as int, 0int, 0int, 0int);
            assert forall|a: (int, int, int, int)| #[trigger] self.is_place(a) implies lex_before(a, end) by {}
            assert forall|a: (int, int, int, int)| #[trigger] self.is_place(a) implies self.distance_at(cand, a) <= u64::MAX by {}
            if smallest < u64::MAX {
                assert(self.is_place(best) && self.is_match_at(nearest, tile_index, best));
            }
        }
        nearest
    }

    /// The ranges of mosaic tiles that the workers match, one range per worker.
    pub fn worker_ranges(&self) -> (r: Vec<(u64, u64)>)
        requires
            self.workers() > 0,
        ensures
            r@.len() == self.workers(),
            forall|w: int| 0 <= w < self.workers() ==> (#[trigger] r@[w]).0 == share_of(self.tiles().0 * self.tiles().1, self.workers() as int, w).0
                && r@[w].1 == share_of(self.tiles().0 * self.tiles().1, self.workers() as int, w).1,
    {
        assert(self.mosaic_tiles_x as u64 * self.mosaic_tiles_y as u64 <= 4294967295 * 4294967295) by (nonlinear_arith);
        split_work(self.mosaic_tiles_x as u64 * self.mosaic_tiles_y as u64, self.num_workers as u64)
    }

    /// The nearest matches for the tiles `start..end` of the image, tile `t` matched as tile
    /// number `t`.
    pub fn match_tile_range(&self, image_tiles: &Vec<ImageTile>, start: usize, end: usize) -> (v: Vec<FrameMatch>)
        requires
            start <= end <= image_tiles@.len(),
            end <= u32::MAX,
            forall|t: int| start <= t < end ==> self.can_match((#[trigger] image_tiles@[t]).colors@),
        ensures
            v@.len() == end - start,
            forall|o: int| 0 <= o < v@.len() ==> self.is_nearest_match(#[trigger] v@[o], image_tiles@[start + o].colors@, (start + o) as u32),
    {
        let mut matches: Vec<FrameMatch> = Vec::new();
        let mut t = start;
        while t < end
            invariant
                start <= t <= end,
                end <= image_tiles@.len(),
                end <= u32::MAX,
                forall|q: int| start <= q < end ==> self.can_match((#[trigger] image_tiles@[q]).colors@),
                matches@.len() == t - start,
                forall|o: int| 0 <= o < matches@.len() ==> self.is_nearest_match(#[trigger] matches@[o], image_tiles@[start + o].colors@, (start + o) as u32),
            decreases end - t,
        {
            let m = self.find_nearest_color(&image_tiles[t], t as u32);
            matches.push(m);
            t += 1;
        }
        matches
    }

    /// Weighted squared distance between a crop's colours and a tile's.
    fn check_distance(&self, frame_colors: &Vec<Color>, candidate: &ImageTile) -> (d: u64)
        requires
            distance_fits(self.biases(), frame_colors@, candidate.colors@),
        ensures
            d == color_distance(self.biases(), frame_colors@, candidate.colors@),
    {
        let ghost b = self.biases();
        let ghost f = frame_colors@;
        let ghost c = candidate.colors@;
        let mut distance: u64 = 0;
        let mut i: usize = 0;
        while i < candidate.colors.len()
            invariant
                b == self.biases(),
                f == frame_colors@,
                c == candidate.colors@,
                i <= c.len(),
                i <= f.len(),
                distance_fits(b, f, c),
                distance == distance_prefix(b, f, c, i as int),
            decreases c.len() - i,
        {
            if i >= frame_colors.len() {
                return u64::MAX;
            }
            let frame_color = frame_colors[i];
            let image_color = candidate.colors[i];
            let red_dist = if frame_color.r >= image_color.r { frame_color.r - image_color.r } else { image_color.r - frame_color.r } as u64;
            let green_dist = if frame_color.g >= image_color.g { frame_color.g - image_color.g } else { image_color.g - frame_color.g } as u64;
            let blue_dist = if frame_color.b >= image_color.b { frame_color.b - image_color.b } else { image_color.b - frame_color.b } as u64;
            proof {
                let n = if f.len() < c.len() { f.len() as int } else { c.len() as int };
                lemma_distance_prefix_monotone(b, f, c, i + 1, n);
                assert(red_dist * red_dist == sq_diff(frame_color.r, image_color.r)) by (nonlinear_arith)
                    requires red_dist == (if frame_color.r >= image_color.r { frame_color.r - image_color.r } else { image_color.r - frame_color.r });
                assert(green_dist * green_dist == sq_diff(frame_color.g, image_color.g)) by (nonlinear_arith)
                    requires green_dist == (if frame_color.g >= image_color.g { frame_color.g - image_color.g } else { image_color.g - frame_color.g });
                assert(blue_dist * blue_dist == sq_diff(frame_color.b, image_color.b)) by (nonlinear_arith)
                    requires blue_dist == (if frame_color.b >= image_color.b { frame_color.b - image_color.b } else { image_color.b - frame_color.b });
                assert(red_dist * red_dist <= 65025 && green_dist * green_dist <= 65025 && blue_dist * blue_dist <= 65025) by (nonlinear_arith)
                    requires red_dist <= 255, green_dist <= 255, blue_dist <= 255;
                assert(self.red_bias * (red_dist * red_dist) >= 0 && self.green_bias * (green_dist * green_dist) >= 0
                    && self.blue_bias * (blue_dist * blue_dist) >= 0) by (nonlinear_arith);
            }
            distance += self.red_bias * (red_dist * red_dist) + self.green_bias * (green_dist * green_dist)
                + self.blue_bias * (blue_dist * blue_dist);
            i += 1;
        }
        distance
    }
}

} // verus!
