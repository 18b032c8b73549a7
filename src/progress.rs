//! Progress telemetry of one scan: monotonic counters, a phase and the file
//! being handled, with point-in-time snapshots.

use vstd::prelude::*;
use crate::digest::copy_opt_string;
use crate::text::owned;

verus! {

/// The counters of one running scan.
#[derive(Debug, Clone)]
pub struct ProgressTracker {
    pub files_discovered: usize,
    pub files_processed: usize,
    pub bytes_processed: usize,
    pub total_files: usize,
    pub total_bytes: usize,
    pub is_complete: bool,
    pub current_file: Option<String>,
    pub phase: String,
    pub skipped_filtered: usize,
    pub dirs_seen: usize,
}

/// A snapshot of a scan's progress. The percentage is `files_processed`
/// out of `percentage_of` (zero where no count is known yet).
#[derive(Debug, Clone)]
pub struct ProgressUpdate {
    pub folder_path: String,
    pub phase: String,
    pub files_discovered: usize,
    pub files_processed: usize,
    pub total_files: usize,
    pub percentage_of: usize,
    pub current_file: Option<String>,
    pub is_complete: bool,
    pub is_favorite: bool,
    pub elapsed_ms: u64,
    pub estimated_remaining_ms: Option<u64>,
    pub bytes_processed: u64,
    pub total_bytes: Option<u64>,
    pub skipped_filtered: Option<usize>,
    pub dirs_seen: Option<usize>,
}

/// `x + 1`, held at the largest `usize`.
pub open spec fn bumped(x: usize) -> usize {
    if x == usize::MAX { x } else { (x + 1) as usize }
}

/// `x + y`, held at the largest `usize`.
pub open spec fn sat_add(x: usize, y: usize) -> usize {
    if x + y > usize::MAX { usize::MAX } else { (x + y) as usize }
}

fn bump(x: usize) -> (r: usize)
    ensures
        r == bumped(x),
{
    if x == usize::MAX { x } else { x + 1 }
}

fn add_sat(x: usize, y: usize) -> (r: usize)
    ensures
        r == sat_add(x, y),
{
    if y > usize::MAX - x { usize::MAX } else { x + y }
}

/// The estimated time left: the time per processed file times the files
/// left, rounded down and held at the largest `u64`; unknown until a file is
/// processed and while no files are left.
pub open spec fn remaining_estimate(elapsed_ms: u64, processed: usize, total: usize) -> Option<u64> {
    if processed > 0 && total > processed {
        let e = (elapsed_ms as int * (total - processed)) / processed as int;
        Some(if e > u64::MAX { u64::MAX } else { e as u64 })
    } else {
        None
    }
}

/// The estimated time left of a scan.
pub fn estimate_remaining(elapsed_ms: u64, processed: usize, total: usize) -> (r: Option<u64>)
    ensures
        r == remaining_estimate(elapsed_ms, processed, total),
{
    if processed > 0 && total > processed {
        let left = (total - processed) as u128;
        let el = elapsed_ms as u128;
        assert(el * left <= u64::MAX as int * u64::MAX as int) by (nonlinear_arith)
            requires
                el <= u64::MAX,
                left <= u64::MAX,
        ;
        let prod: u128 = el * left;
        let e = prod / processed as u128;
        if e > u64::MAX as u128 {
            Some(u64::MAX)
        } else {
            Some(e as u64)
        }
    } else {
        None
    }
}

impl ProgressTracker {
    /// A tracker in the discovery phase with all counters at zero.
    pub fn new() -> (r: ProgressTracker)
        ensures
            r.files_discovered == 0 && r.files_processed == 0 && r.bytes_processed == 0,
            r.total_files == 0 && r.total_bytes == 0 && !r.is_complete,
            r.current_file is None,
            r.phase@ == "discovery"@,
            r.skipped_filtered == 0 && r.dirs_seen == 0,
    {
        ProgressTracker {
            files_discovered: 0,
            files_processed: 0,
            bytes_processed: 0,
            total_files: 0,
            total_bytes: 0,
            is_complete: false,
            current_file: None,
            phase: owned("discovery"),
            skipped_filtered: 0,
            dirs_seen: 0,
        }
    }

    /// Records the file being handled.
    pub fn set_current_file(&mut self, file: Option<String>)
        ensures
            *final(self) == (ProgressTracker { current_file: file, ..*old(self) }),
    {
        self.current_file = file;
    }

    /// Counts one more discovered file; returns the count before.
    pub fn increment_discovered(&mut self) -> (r: usize)
        ensures
            r == old(self).files_discovered,
            *final(self) == (ProgressTracker { files_discovered: bumped(old(self).files_discovered), ..*old(self) }),
    {
        let before = self.files_discovered;
        self.files_discovered = bump(before);
        before
    }

    /// Counts one more processed file of `bytes` bytes; returns the file count before.
    pub fn increment_processed(&mut self, bytes: usize) -> (r: usize)
        ensures
            r == old(self).files_processed,
            *final(self) == (ProgressTracker {
                files_processed: bumped(old(self).files_processed),
                bytes_processed: sat_add(old(self).bytes_processed, bytes),
                ..*old(self)
            }),
    {
        self.bytes_processed = add_sat(self.bytes_processed, bytes);
        let before = self.files_processed;
        self.files_processed = bump(before);
        before
    }

    /// Moves to phase `phase`.
    pub fn set_phase(&mut self, phase: &str)
        ensures
            final(self).phase@ == phase@,
            *final(self) == (ProgressTracker { phase: final(self).phase, ..*old(self) }),
    {
        self.phase = owned(phase);
    }

    /// Counts one more file left out by the filter.
    pub fn increment_skipped_filtered(&mut self)
        ensures
            *final(self) == (ProgressTracker { skipped_filtered: bumped(old(self).skipped_filtered), ..*old(self) }),
    {
        self.skipped_filtered = bump(self.skipped_filtered);
    }

    /// Counts one more directory seen.
    pub fn increment_dirs_seen(&mut self)
        ensures
            *final(self) == (ProgressTracker { dirs_seen: bumped(old(self).dirs_seen), ..*old(self) }),
    {
        self.dirs_seen = bump(self.dirs_seen);
    }

    /// Records how many files are to be processed.
    pub fn set_total_files(&mut self, total: usize)
        ensures
            *final(self) == (ProgressTracker { total_files: total, ..*old(self) }),
    {
        self.total_files = total;
    }

    /// Records how many bytes are to be processed.
    pub fn set_total_bytes(&mut self, total: usize)
        ensures
            *final(self) == (ProgressTracker { total_bytes: total, ..*old(self) }),
    {
        self.total_bytes = total;
    }

    /// Marks the scan as finished.
    pub fn mark_complete(&mut self)
        ensures
            *final(self) == (ProgressTracker { is_complete: true, ..*old(self) }),
    {
        self.is_complete = true;
    }

    /// A snapshot of the scan of `folder_path`, `elapsed_ms` after it started.
    pub fn get_progress(&self, folder_path: &str, is_favorite: bool, elapsed_ms: u64) -> (r: ProgressUpdate)
        ensures
            r.folder_path@ == folder_path@,
            r.phase == self.phase,
            r.files_discovered == self.files_discovered,
            r.files_processed == self.files_processed,
            r.total_files == if self.total_files >= self.files_discovered { self.total_files } else { self.files_discovered },
            r.percentage_of == if self.total_files > 0 { self.total_files } else { self.files_discovered },
            r.current_file == self.current_file,
            r.is_complete == self.is_complete,
            r.is_favorite == is_favorite,
            r.elapsed_ms == elapsed_ms,
            r.estimated_remaining_ms == remaining_estimate(elapsed_ms, self.files_processed, self.total_files),
            r.bytes_processed == self.bytes_processed as u64,
            r.total_bytes == if self.total_bytes > 0 { Some(self.total_bytes as u64) } else { None::<u64> },
            r.skipped_filtered == Some(self.skipped_filtered),
            r.dirs_seen == Some(self.dirs_seen),
    {
        ProgressUpdate {
            folder_path: owned(folder_path),
            phase: self.phase.clone(),
            files_discovered: self.files_discovered,
            files_processed: self.files_processed,
            total_files: if self.total_files >= self.files_discovered { self.total_files } else { self.files_discovered },
            percentage_of: if self.total_files > 0 { self.total_files } else { self.files_discovered },
            current_file: copy_opt_string(&self.current_file),
            is_complete: self.is_complete,
            is_favorite,
            elapsed_ms,
            estimated_remaining_ms: estimate_remaining(elapsed_ms, self.files_processed, self.total_files),
            bytes_processed: self.bytes_processed as u64,
            total_bytes: if self.total_bytes > 0 { Some(self.total_bytes as u64) } else { None },
            skipped_filtered: Some(self.skipped_filtered),
            dirs_seen: Some(self.dirs_seen),
        }
    }
}

/// Whether the progress emitter stops after this snapshot: the scan is
/// complete, or it has run past the five-minute ceiling.
pub fn emitter_should_stop(p: &ProgressUpdate) -> (r: bool)
    ensures
        r == (p.is_complete || p.elapsed_ms > 300_000),
{
    p.is_complete || p.elapsed_ms > 300_000
}

} // verus!
