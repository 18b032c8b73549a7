//! The digest of a scan and the per-file records it is built from.

use vstd::prelude::*;

verus! {

/// A file whose content prefix was sampled into the digest.
#[derive(Debug, Clone)]
pub struct FileInfo {
    pub path: String,
    pub content: String,
    pub language: String,
    pub size: u64,
}

/// A file's size record, as listed among the largest files.
#[derive(Debug, Clone)]
pub struct FileSizeInfo {
    pub path: String,
    pub size_bytes: u64,
    pub language: String,
}

/// Byte totals, the largest files and the bytes per language.
#[derive(Debug, Clone)]
pub struct SizeMetrics {
    pub total_size_bytes: u64,
    pub analyzed_size_bytes: u64,
    pub largest_files: Vec<FileSizeInfo>,
    /// One entry per detected language, in order of first appearance.
    pub size_by_language: Vec<(String, u64)>,
}

/// File and line counts of a digest.
#[derive(Debug, Clone, Copy, PartialEq, Eq)]
pub struct ScanMetrics {
    pub total_files: usize,
    pub total_lines: u64,
    pub analyzed_files: usize,
}

/// How far a lazy scan got.
#[derive(Debug, Clone, Copy, PartialEq, Eq)]
pub struct ScanProgress {
    pub files_scanned: usize,
    pub scan_limit: usize,
    pub is_complete: bool,
    pub estimated_total_files: Option<usize>,
}

/// The digest of one scan.
#[derive(Debug, Clone)]
pub struct RepoAnalysis {
    pub files: Vec<FileInfo>,
    /// Sampled file names per parent directory, directories in order of first appearance.
    pub structure: Vec<(String, Vec<String>)>,
    pub technologies: Vec<String>,
    pub metrics: ScanMetrics,
    pub size_metrics: SizeMetrics,
    pub generated_at: Option<String>,
    pub from_cache: Option<bool>,
    pub is_lazy_scan: Option<bool>,
    pub scan_progress: Option<ScanProgress>,
}

/// A discovered file, before processing.
#[derive(Debug, Clone)]
pub struct FileDescriptor {
    pub path: String,
    pub size: u64,
    pub language: String,
    pub parent: Option<String>,
}

/// The outcome of processing one file.
#[derive(Debug, Clone)]
pub struct FileProcessResult {
    pub file_info: Option<FileInfo>,
    pub lines: usize,
    pub language: String,
    pub parent: Option<String>,
    pub path: String,
    pub size: u64,
    pub is_analyzed: bool,
}

/// A copy of an optional string.
pub fn copy_opt_string(s: &Option<String>) -> (r: Option<String>)
    ensures
        r == *s,
{
    match s {
        Some(x) => Some(x.clone()),
        None => None,
    }
}

impl FileInfo {
    /// A field-by-field copy.
    pub fn copy(&self) -> (r: FileInfo)
        ensures
            r == *self,
    {
        FileInfo {
            path: self.path.clone(),
            content: self.content.clone(),
            language: self.language.clone(),
            size: self.size,
        }
    }
}

impl FileDescriptor {
    /// A field-by-field copy.
    pub fn copy(&self) -> (r: FileDescriptor)
        ensures
            r == *self,
    {
        FileDescriptor {
            path: self.path.clone(),
            size: self.size,
            language: self.language.clone(),
            parent: copy_opt_string(&self.parent),
        }
    }
}

} // verus!
