//! Progress of indexing the frames of videos, per video and per worker.

use vstd::prelude::*;
use crate::numeric::round_div;

verus! {

/// Progress of indexing a video, or one worker's share of it.
#[derive(PartialEq, Eq, Structural, Clone, Copy, Debug)]
pub enum VideoIndexStatus {
    NotStarted,
    Initialising,
    Running,
    Finished,
}

/// One worker indexing a range of a video's frames.
#[derive(Clone, Copy, Debug, PartialEq, Eq, Structural)]
pub struct VideoIndexCore {
    pub instance_id: u32,
    pub frames_processed: u64,
    pub total_frames: u64,
    /// Frames per second, in hundredths.
    pub average_fps_hundredths: u64,
    pub memory_usage: u64,
    pub status: VideoIndexStatus,
}

/// Sum of the frames the workers processed.
pub open spec fn frames_sum(cores: Seq<VideoIndexCore>) -> nat
    decreases cores.len(),
{
    if cores.len() == 0 { 0 } else { frames_sum(cores.drop_last()) + cores.last().frames_processed as nat }
}

/// Sum of the memory the workers use.
pub open spec fn memory_sum(cores: Seq<VideoIndexCore>) -> nat
    decreases cores.len(),
{
    if cores.len() == 0 { 0 } else { memory_sum(cores.drop_last()) + cores.last().memory_usage as nat }
}

/// Sum of the workers' frame rates, in hundredths.
pub open spec fn fps_sum(cores: Seq<VideoIndexCore>) -> nat
    decreases cores.len(),
{
    if cores.len() == 0 { 0 } else { fps_sum(cores.drop_last()) + cores.last().average_fps_hundredths as nat }
}

impl VideoIndexCore {
    /// A worker that has not started on its `total_frames` frames.
    pub fn new(instance_id: u32, total_frames: u64) -> (c: VideoIndexCore)
        ensures
            c == (VideoIndexCore {
                instance_id,
                frames_processed: 0,
                total_frames,
                average_fps_hundredths: 0,
                memory_usage: 0,
                status: VideoIndexStatus::NotStarted,
            }),
    {
        VideoIndexCore {
            instance_id,
            frames_processed: 0,
            total_frames,
            average_fps_hundredths: 0,
            memory_usage: 0,
            status: VideoIndexStatus::NotStarted,
        }
    }

    /// How far the worker is, in thousandths of a percent: all when finished, none before it
    /// runs, and while it runs its processed frames over its total, rounded to nearest with
    /// halves up (none when it has no frames).
    pub fn percentage_complete_thousandths(&self) -> (p: u64)
        requires
            self.frames_processed <= self.total_frames,
        ensures
            p == match self.status {
                VideoIndexStatus::Finished => 100_000,
                VideoIndexStatus::Initialising | VideoIndexStatus::NotStarted => 0,
                VideoIndexStatus::Running => if self.total_frames == 0 {
                    0
                } else {
                    round_div(100_000 * self.frames_processed, self.total_frames as int)
                },
            },
    {
        match self.status {
            VideoIndexStatus::Finished => 100_000,
            VideoIndexStatus::Initialising | VideoIndexStatus::NotStarted => 0,
            VideoIndexStatus::Running => {
                if self.total_frames == 0 {
                    0
                } else {
                    let n = 100_000 * (self.frames_processed as u128);
                    let d = self.total_frames as u128;
                    proof {
                        assert((2 * n + d) / (2 * d) <= 100_000) by (nonlinear_arith)
                            requires n == 100_000 * self.frames_processed, self.frames_processed <= d, d > 0;
                    }
                    ((2 * n + d) / (2 * d)) as u64
                }
            },
        }
    }
}

/// Progress of indexing one video.
#[derive(Clone, Debug)]
pub struct VideoIndexingReport {
    pub file_name: String,
    pub total_frames: u64,
    pub cores: Vec<VideoIndexCore>,
    pub status: VideoIndexStatus,
}

impl VideoIndexingReport {
    /// A report for a video of `total_frames` frames that has not started.
    pub fn new(file_name: &str, total_frames: u64) -> (r: VideoIndexingReport)
        ensures
            r.file_name@ == file_name@,
            r.total_frames == total_frames,
            r.cores@.len() == 0,
            r.status == VideoIndexStatus::NotStarted,
    {
        VideoIndexingReport { file_name: file_name.to_owned(), total_frames, cores: Vec::new(), status: VideoIndexStatus::NotStarted }
    }

    /// Frames processed by all workers, and their frame rates in hundredths, summed without
    /// a bound.
    pub fn wide_totals(&self) -> (r: (u128, u128))
        ensures
            r.0 == frames_sum(self.cores@),
            r.1 == fps_sum(self.cores@),
    {
        let mut frames: u128 = 0;
        let mut fps: u128 = 0;
        let mut i: usize = 0;
        while i < self.cores.len()
            invariant
                i <= self.cores@.len(),
                frames == frames_sum(self.cores@.subrange(0, i as int)),
                fps == fps_sum(self.cores@.subrange(0, i as int)),
                frames <= i * 0xffff_ffff_ffff_ffff,
                fps <= i * 0xffff_ffff_ffff_ffff,
            decreases self.cores@.len() - i,
        {
            proof {
                assert(self.cores@.subrange(0, i + 1).drop_last() == self.cores@.subrange(0, i as int));
                assert((i + 1) * 0xffff_ffff_ffff_ffff <= 0xffff_ffff_ffff_ffff * 0xffff_ffff_ffff_ffff) by (nonlinear_arith)
                    requires i < 0xffff_ffff_ffff_ffff;
                assert(i * 0xffff_ffff_ffff_ffff + 0xffff_ffff_ffff_ffff == (i + 1) * 0xffff_ffff_ffff_ffff) by (nonlinear_arith);
            }
            frames = frames + self.cores[i].frames_processed as u128;
            fps = fps + self.cores[i].average_fps_hundredths as u128;
            i += 1;
        }
        assert(self.cores@.subrange(0, i as int) == self.cores@);
        (frames, fps)
    }

    /// Frames processed by all workers and their frame rates in hundredths, when both sums fit
    /// in `u64`.
    pub fn checked_totals(&self) -> (r: Option<(u64, u64)>)
        ensures
            r == (if frames_sum(self.cores@) <= u64::MAX && fps_sum(self.cores@) <= u64::MAX {
                Some((frames_sum(self.cores@) as u64, fps_sum(self.cores@) as u64))
            } else {
                None
            }),
    {
        let (frames, fps) = self.wide_totals();
        if frames <= u64::MAX as u128 && fps <= u64::MAX as u128 {
            Some((frames as u64, fps as u64))
        } else {
            None
        }
    }

    /// Frames processed by all workers.
    pub fn frames_processed(&self) -> (n: u64)
        requires
            frames_sum(self.cores@) <= u64::MAX,
        ensures
            n == frames_sum(self.cores@),
    {
        let mut total: u64 = 0;
        let mut i: usize = 0;
        while i < self.cores.len()
            invariant
                i <= self.cores@.len(),
                frames_sum(self.cores@) <= u64::MAX,
                total == frames_sum(self.cores@.subrange(0, i as int)),
            decreases self.cores@.len() - i,
        {
            proof {
                assert(self.cores@.subrange(0, i + 1).drop_last() == self.cores@.subrange(0, i as int));
                lemma_frames_sum_prefix(self.cores@, i + 1);
            }
            total = total + self.cores[i].frames_processed;
            i += 1;
        }
        assert(self.cores@.subrange(0, i as int) == self.cores@);
        total
    }

    /// Memory used by all workers.
    pub fn total_memory_usage(&self) -> (n: u64)
        requires
            memory_sum(self.cores@) <= u64::MAX,
        ensures
            n == memory_sum(self.cores@),
    {
        let mut total: u64 = 0;
        let mut i: usize = 0;
        while i < self.cores.len()
            invariant
                i <= self.cores@.len(),
                memory_sum(self.cores@) <= u64::MAX,
                total == memory_sum(self.cores@.subrange(0, i as int)),
            decreases self.cores@.len() - i,
        {
            proof {
                assert(self.cores@.subrange(0, i + 1).drop_last() == self.cores@.subrange(0, i as int));
                lemma_memory_sum_prefix(self.cores@, i + 1);
            }
            total = total + self.cores[i].memory_usage;
            i += 1;
        }
        assert(self.cores@.subrange(0, i as int) == self.cores@);
        total
    }

    /// Frames per second of all workers together, in hundredths.
    pub fn average_fps_hundredths(&self) -> (n: u64)
        requires
            fps_sum(self.cores@) <= u64::MAX,
        ensures
            n == fps_sum(self.cores@),
    {
        let mut total: u64 = 0;
        let mut i: usize = 0;
        while i < self.cores.len()
            invariant
                i <= self.cores@.len(),
                fps_sum(self.cores@) <= u64::MAX,
                total == fps_sum(self.cores@.subrange(0, i as int)),
            decreases self.cores@.len() - i,
        {
            proof {
                assert(self.cores@.subrange(0, i + 1).drop_last() == self.cores@.subrange(0, i as int));
                lemma_fps_sum_prefix(self.cores@, i + 1);
            }
            total = total + self.cores[i].average_fps_hundredths;
            i += 1;
        }
        assert(self.cores@.subrange(0, i as int) == self.cores@);
        total
    }
}

proof fn lemma_frames_sum_prefix(s: Seq<VideoIndexCore>, k: int)
    requires
        0 <= k <= s.len(),
    ensures
        frames_sum(s.subrange(0, k)) <= frames_sum(s),
    decreases s.len() - k,
{
    if k < s.len() {
        lemma_frames_sum_prefix(s, k + 1);
        assert(s.subrange(0, k + 1).drop_last() == s.subrange(0, k));
    } else {
        assert(s.subrange(0, k) == s);
    }
}

proof fn lemma_memory_sum_prefix(s: Seq<VideoIndexCore>, k: int)
    requires
        0 <= k <= s.len(),
    ensures
        memory_sum(s.subrange(0, k)) <= memory_sum(s),
    decreases s.len() - k,
{
    if k < s.len() {
        lemma_memory_sum_prefix(s, k + 1);
        assert(s.subrange(0, k + 1).drop_last() == s.subrange(0, k));
    } else {
        assert(s.subrange(0, k) == s);
    }
}

proof fn lemma_fps_sum_prefix(s: Seq<VideoIndexCore>, k: int)
    requires
        0 <= k <= s.len(),
    ensures
        fps_sum(s.subrange(0, k)) <= fps_sum(s),
    decreases s.len() - k,
{
    if k < s.len() {
        lemma_fps_sum_prefix(s, k + 1);
        assert(s.subrange(0, k + 1).drop_last() == s.subrange(0, k));
    } else {
        assert(s.subrange(0, k) == s);
    }
}

} // verus!
