//! Indexing a video: its frames split between workers, each worker's progress gathered into
//! one report, and the workers' files named.

use vstd::prelude::*;
use crate::app::video_indexing_report::{VideoIndexCore, VideoIndexingReport, VideoIndexStatus};
use crate::tasks::work_split::{share_of, split_work};
use crate::text::{digits, push_digits, chars_of, string_from_chars};

verus! {

/// Threads each ffmpeg process uses while indexing.
pub const FFMPEG_THREADS_PER_WORKER: u32 = 1;

/// `{video}_core-{i}_temp.pmgd`, the file worker `i` writes its lines to.
pub open spec fn core_file_name(video_file_name: Seq<char>, worker: nat) -> Seq<char> {
    video_file_name + seq!['_', 'c', 'o', 'r', 'e', '-'] + digits(worker) + seq!['_', 't', 'e', 'm', 'p', '.', 'p', 'm', 'g', 'd']
}

/// The file a worker writes its lines to (see `core_file_name`).
pub fn core_temp_file_name(video_file_name: &str, worker: u32) -> (s: String)
    ensures
        s@ == core_file_name(video_file_name@, worker as nat),
{
    let mut out = chars_of(video_file_name);
    out.push('_');
    out.push('c');
    out.push('o');
    out.push('r');
    out.push('e');
    out.push('-');
    push_digits(&mut out, worker as u64);
    out.push('_');
    out.push('t');
    out.push('e');
    out.push('m');
    out.push('p');
    out.push('.');
    out.push('p');
    out.push('m');
    out.push('g');
    out.push('d');
    assert(out@ == core_file_name(video_file_name@, worker as nat));
    string_from_chars(&out)
}

/// The report at the start of indexing a video of `total_frames` frames with one worker for
/// each range: all initialising, worker `i` on range `i`.
pub fn initial_report(video_file_name: &str, total_frames: u64, ranges: &Vec<(u64, u64)>) -> (r: VideoIndexingReport)
    requires
        forall|w: int| 0 <= w < ranges@.len() ==> (#[trigger] ranges@[w]).0 <= ranges@[w].1,
        ranges@.len() <= u32::MAX,
    ensures
        r.file_name@ == video_file_name@,
        r.total_frames == total_frames,
        r.status == VideoIndexStatus::Initialising,
        r.cores@.len() == ranges@.len(),
        forall|w: int| 0 <= w < ranges@.len() ==> #[trigger] r.cores@[w] == (VideoIndexCore {
            instance_id: w as u32,
            frames_processed: 0,
            total_frames: (ranges@[w].1 - ranges@[w].0) as u64,
            average_fps_hundredths: 0,
            memory_usage: 0,
            status: VideoIndexStatus::Initialising,
        }),
{
    let mut report = VideoIndexingReport::new(video_file_name, total_frames);
    report.status = VideoIndexStatus::Initialising;
    let mut w: usize = 0;
    while w < ranges.len()
        invariant
            w <= ranges@.len(),
            ranges@.len() <= u32::MAX,
            forall|v: int| 0 <= v < ranges@.len() ==> (#[trigger] ranges@[v]).0 <= ranges@[v].1,
            report.file_name@ == video_file_name@,
            report.total_frames == total_frames,
            report.status == VideoIndexStatus::Initialising,
            report.cores@.len() == w,
            forall|v: int| 0 <= v < w ==> #[trigger] report.cores@[v] == (VideoIndexCore {
                instance_id: v as u32,
                frames_processed: 0,
                total_frames: (ranges@[v].1 - ranges@[v].0) as u64,
                average_fps_hundredths: 0,
                memory_usage: 0,
                status: VideoIndexStatus::Initialising,
            }),
        decreases ranges@.len() - w,
    {
        let (start, end) = ranges[w];
        let mut core = VideoIndexCore::new(w as u32, end - start);
        core.status = VideoIndexStatus::Initialising;
        report.cores.push(core);
        w += 1;
    }
    report
}

/// `after` is `before` with the progress of worker `instance_id` recorded: the report runs,
/// the first worker with that id takes the frames, rate and memory reported and is finished
/// when all its frames are done, and the report is finished when every worker is.
pub open spec fn progress_recorded(
    before: VideoIndexingReport,
    after: VideoIndexingReport,
    instance_id: u32,
    frames_processed: u64,
    average_fps_hundredths: u64,
    memory_usage: u64,
) -> bool {
    &&& after.file_name@ == before.file_name@
    &&& after.total_frames == before.total_frames
    &&& after.cores@.len() == before.cores@.len()
    &&& forall|c: int| 0 <= c < before.cores@.len() ==> #[trigger] after.cores@[c] == (if before.cores@[c].instance_id == instance_id
        && forall|d: int| 0 <= d < c ==> (#[trigger] before.cores@[d]).instance_id != instance_id {
        VideoIndexCore {
            frames_processed,
            average_fps_hundredths,
            memory_usage,
            status: if before.cores@[c].total_frames == frames_processed { VideoIndexStatus::Finished } else { VideoIndexStatus::Running },
            ..before.cores@[c]
        }
    } else {
        before.cores@[c]
    })
    &&& after.status == (if forall|c: int| 0 <= c < after.cores@.len() ==> (#[trigger] after.cores@[c]).status == VideoIndexStatus::Finished {
        VideoIndexStatus::Finished
    } else {
        VideoIndexStatus::Running
    })
}

impl VideoIndexingReport {
    /// The first worker with id `instance_id`, if any.
    fn find_core(&self, instance_id: u32) -> (r: Option<usize>)
        ensures
            match r {
                Some(c) => c < self.cores@.len() && self.cores@[c as int].instance_id == instance_id && forall|d: int|
                    0 <= d < c ==> (#[trigger] self.cores@[d]).instance_id != instance_id,
                None => forall|d: int| 0 <= d < self.cores@.len() ==> (#[trigger] self.cores@[d]).instance_id != instance_id,
            },
    {
        let mut c: usize = 0;
        while c < self.cores.len()
            invariant
                c <= self.cores@.len(),
                forall|d: int| 0 <= d < c ==> (#[trigger] self.cores@[d]).instance_id != instance_id,
            decreases self.cores@.len() - c,
        {
            if self.cores[c].instance_id == instance_id {
                return Some(c);
            }
            c += 1;
        }
        None
    }

    /// Records the progress a worker reported (see `progress_recorded`).
    pub fn apply_progress(&mut self, instance_id: u32, frames_processed: u64, average_fps_hundredths: u64, memory_usage: u64)
        ensures
            progress_recorded(*old(self), *final(self), instance_id, frames_processed, average_fps_hundredths, memory_usage),
    {
        self.status = VideoIndexStatus::Running;
        let found = self.find_core(instance_id);
        if let Some(c) = found {
            let finished = self.cores[c].total_frames == frames_processed;
            self.cores[c].frames_processed = frames_processed;
            self.cores[c].average_fps_hundredths = average_fps_hundredths;
            self.cores[c].memory_usage = memory_usage;
            self.cores[c].status = if finished { VideoIndexStatus::Finished } else { VideoIndexStatus::Running };
        }
        proof {
            assert forall|e: int| 0 <= e < old(self).cores@.len() implies #[trigger] self.cores@[e] == (if old(self).cores@[e].instance_id
                == instance_id && forall|d: int| 0 <= d < e ==> (#[trigger] old(self).cores@[d]).instance_id != instance_id {
                VideoIndexCore {
                    frames_processed,
                    average_fps_hundredths,
                    memory_usage,
                    status: if old(self).cores@[e].total_frames == frames_processed {
                        VideoIndexStatus::Finished
                    } else {
                        VideoIndexStatus::Running
                    },
                    ..old(self).cores@[e]
                }
            } else {
                old(self).cores@[e]
            }) by {
                if let Some(c) = found {
                    if e > c {
                        assert(old(self).cores@[c as int].instance_id == instance_id);
                    }
                }
            }
        }
        let mut all_finished = true;
        let mut k: usize = 0;
        while k < self.cores.len()
            invariant
                k <= self.cores@.len(),
                all_finished == forall|d: int| 0 <= d < k ==> (#[trigger] self.cores@[d]).status == VideoIndexStatus::Finished,
            decreases self.cores@.len() - k,
        {
            if self.cores[k].status != VideoIndexStatus::Finished {
                all_finished = false;
            }
            k += 1;
        }
        if all_finished {
            self.status = VideoIndexStatus::Finished;
        }
    }
}

/// The frame ranges of the workers that index `total_frames` frames: one worker per allowed
/// core, each with an equal share and the last with the rest.
pub fn worker_frame_ranges(total_frames: u64, max_allowed_cores: u32) -> (ranges: Vec<(u64, u64)>)
    requires
        max_allowed_cores > 0,
    ensures
        ranges@.len() == max_allowed_cores,
        forall|w: int| 0 <= w < max_allowed_cores ==> (#[trigger] ranges@[w]).0 == share_of(total_frames as int, max_allowed_cores as int, w).0
            && ranges@[w].1 == share_of(total_frames as int, max_allowed_cores as int, w).1,
{
    split_work(total_frames, max_allowed_cores as u64)
}

} // verus!
