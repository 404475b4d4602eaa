//! The three boundary operations, over values that the host has already
//! read from disk: scan, detect types, read a batch of files.

use vstd::prelude::*;
use crate::aggregate::{by_count_desc, ties_in_first_order, detect_types, flatten_scans, sizes_fit, summaries, summarizes, FileTypeInfo};
use crate::decode::{count_lines, decode_bytes, decoded};
use crate::ignore::views;
use crate::scanner::{from_kept, has_relative_path, kept, lines_of, record_of, records, scan_dir, strictly_sorted, FileInfo, WalkEntry};

verus! {

/// The answer to a scan.
#[derive(Debug)]
pub struct ScanResult {
    pub success: bool,
    pub files: Vec<FileInfo>,
    pub error: Option<String>,
}

/// The answer to a type detection.
#[derive(Debug)]
pub struct DetectResult {
    pub success: bool,
    pub types: Vec<FileTypeInfo>,
    pub error: Option<String>,
}

/// One file that a batch read asks for.
#[derive(Debug)]
pub struct ReadRequest {
    pub path: String,
    pub relative_path: String,
    pub name: String,
    pub ext: String,
}

/// One file of a batch read: the request's fields echoed, with the text and
/// its line count, or an error.
#[derive(Debug)]
pub struct FileContent {
    pub path: String,
    pub relative_path: String,
    pub name: String,
    pub ext: String,
    pub content: String,
    pub line_count: usize,
    pub error: Option<String>,
}

/// The answer to a batch read.
#[derive(Debug)]
pub struct ReadResult {
    pub success: bool,
    pub files: Vec<FileContent>,
    pub error: Option<String>,
}

/// Scans the entries of one root; the scan itself never fails.
pub fn scan_directory(
    entries: &Vec<WalkEntry>,
    custom_ignore: &Vec<String>,
    gitignore_patterns: &Vec<String>,
) -> (r: ScanResult)
    ensures
        r.success,
        r.error is None,
        strictly_sorted(records(r.files@)),
        forall|i: int|
            0 <= i < r.files@.len() ==> from_kept(
                #[trigger] records(r.files@)[i],
                entries@,
                views(custom_ignore@),
                views(gitignore_patterns@),
            ),
        forall|k: int|
            0 <= k < entries@.len() && kept(
                #[trigger] entries@[k],
                views(custom_ignore@),
                views(gitignore_patterns@),
            ) ==> has_relative_path(records(r.files@), record_of(entries@[k]).relative_path),
{
    let files = scan_dir(entries, custom_ignore, gitignore_patterns);
    ScanResult { success: true, files, error: None }
}

/// The type statistics over the scans of several roots; never fails.
pub fn detect_file_types(scans: &Vec<Vec<FileInfo>>) -> (r: DetectResult)
    requires
        sizes_fit(flatten_scans(scans@)),
    ensures
        r.success,
        r.error is None,
        summarizes(summaries(r.types@), flatten_scans(scans@)),
        by_count_desc(summaries(r.types@)),
        ties_in_first_order(summaries(r.types@), flatten_scans(scans@)),
{
    let types = detect_types(scans);
    DetectResult { success: true, types, error: None }
}

/// The item of a batch read for one request, given what reading its file gave.
pub open spec fn content_for(c: FileContent, q: ReadRequest, read: Result<Vec<u8>, String>) -> bool {
    &&& c.path@ == q.path@
    &&& c.relative_path@ == q.relative_path@
    &&& c.name@ == q.name@
    &&& c.ext@ == q.ext@
    &&& match read {
        Ok(b) => c.content@ == decoded(b@) && c.line_count == lines_of(c.content@).len()
            && c.error is None,
        Err(e) => c.content@.len() == 0 && c.line_count == 0 && c.error == Some(e),
    }
}

/// Loads a batch of files, one item per request in the same order: the
/// decoded text and its line count, or the read error with no text; a
/// failed item leaves the others as they are, and the batch never fails.
pub fn read_files_content(
    files: &Vec<ReadRequest>,
    reads: &Vec<Result<Vec<u8>, String>>,
) -> (r: ReadResult)
    requires
        files@.len() == reads@.len(),
    ensures
        r.success,
        r.error is None,
        r.files@.len() == files@.len(),
        forall|i: int|
            0 <= i < files@.len() ==> content_for(#[trigger] r.files@[i], files@[i], reads@[i]),
{
    let mut out: Vec<FileContent> = Vec::new();
    let mut i: usize = 0;
    while i < files.len()
        invariant
            files@.len() == reads@.len(),
            i <= files@.len(),
            out@.len() == i,
            forall|j: int| 0 <= j < i ==> content_for(#[trigger] out@[j], files@[j], reads@[j]),
        decreases files.len() - i,
    {
        let q = &files[i];
        let item = match &reads[i] {
            Ok(b) => {
                let content = decode_bytes(b.as_slice());
                let line_count = count_lines(content.as_str());
                FileContent {
                    path: q.path.clone(),
                    relative_path: q.relative_path.clone(),
                    name: q.name.clone(),
                    ext: q.ext.clone(),
                    content,
                    line_count,
                    error: None,
                }
            },
            Err(e) => FileContent {
                path: q.path.clone(),
                relative_path: q.relative_path.clone(),
                name: q.name.clone(),
                ext: q.ext.clone(),
                content: String::new(),
                line_count: 0,
                error: Some(e.clone()),
            },
        };
        out.push(item);
        i += 1;
    }
    ReadResult { success: true, files: out, error: None }
}

} // verus!
