//! Status reporting for a front end that polls a running session or a
//! packaging job: the internal status events, their data-transfer
//! mirror types with paths as plain text, and the session-directory
//! helpers the packager uses.

use vstd::prelude::*;

use crate::strkit::str_eq;

verus! {

/// What a running session reports.
#[derive(Debug, Clone)]
pub enum GuiStatus {
    Started { session_name: String },
    Frame { step_index: u64, qpc_ts: u64, is_foreground: bool },
    Finished { output_dir: String },
    Error { message: String },
}

/// A session status as handed across the GUI boundary.
#[derive(Debug, Clone)]
pub enum GuiStatusDto {
    Started { session_name: String },
    Frame { step_index: u64, qpc_ts: u64, is_foreground: bool },
    Finished { output_dir: String },
    Error { message: String },
}

/// What a packaging job reports.
#[derive(Debug, Clone)]
pub enum GuiPackageStatus {
    Started { total_files: u64, total_bytes: u64 },
    File { index: u64, total_files: u64, bytes: u64, path: String },
    Finished { output_zip: String, deleted: bool },
    Error { message: String },
}

/// A packaging status as handed across the GUI boundary.
#[derive(Debug, Clone)]
pub enum GuiPackageStatusDto {
    Started { total_files: u64, total_bytes: u64 },
    File { index: u64, total_files: u64, bytes: u64, path: String },
    Finished { output_zip: String, deleted: bool },
    Error { message: String },
}

/// A request to pack finished sessions into one archive.
#[derive(Debug, Clone)]
pub struct PackageRequest {
    pub dataset_root: String,
    pub session_names: Vec<String>,
    pub output_zip: String,
    pub delete_after: bool,
}

/// One enumerated window shown in the target picker.
#[derive(Debug, Clone)]
pub struct WindowEntryDto {
    pub hwnd: i64,
    pub title: String,
}

/// Map a session status onto its transfer mirror, field for field.
pub fn map_status(status: GuiStatus) -> (dto: GuiStatusDto)
    ensures
        match status {
            GuiStatus::Started { session_name } => dto matches GuiStatusDto::Started {
                session_name: n,
            } && n@ == session_name@,
            GuiStatus::Frame { step_index, qpc_ts, is_foreground } => dto
                matches GuiStatusDto::Frame { step_index: a, qpc_ts: b, is_foreground: c } && a
                == step_index && b == qpc_ts && c == is_foreground,
            GuiStatus::Finished { output_dir } => dto matches GuiStatusDto::Finished {
                output_dir: d,
            } && d@ == output_dir@,
            GuiStatus::Error { message } => dto matches GuiStatusDto::Error { message: m } && m@
                == message@,
        },
{
    match status {
        GuiStatus::Started { session_name } => GuiStatusDto::Started { session_name },
        GuiStatus::Frame { step_index, qpc_ts, is_foreground } => GuiStatusDto::Frame {
            step_index,
            qpc_ts,
            is_foreground,
        },
        GuiStatus::Finished { output_dir } => GuiStatusDto::Finished { output_dir },
        GuiStatus::Error { message } => GuiStatusDto::Error { message },
    }
}

/// Map a packaging status onto its transfer mirror, field for field.
pub fn map_package_status(status: GuiPackageStatus) -> (dto: GuiPackageStatusDto)
    ensures
        match status {
            GuiPackageStatus::Started { total_files, total_bytes } => dto
                matches GuiPackageStatusDto::Started { total_files: a, total_bytes: b } && a
                == total_files && b == total_bytes,
            GuiPackageStatus::File { index, total_files, bytes, path } => dto
                matches GuiPackageStatusDto::File { index: a, total_files: b, bytes: c, path: p }
                && a == index && b == total_files && c == bytes && p@ == path@,
            GuiPackageStatus::Finished { output_zip, deleted } => dto
                matches GuiPackageStatusDto::Finished { output_zip: z, deleted: d } && z@
                == output_zip@ && d == deleted,
            GuiPackageStatus::Error { message } => dto matches GuiPackageStatusDto::Error {
                message: m,
            } && m@ == message@,
        },
{
    match status {
        GuiPackageStatus::Started { total_files, total_bytes } => GuiPackageStatusDto::Started {
            total_files,
            total_bytes,
        },
        GuiPackageStatus::File { index, total_files, bytes, path } => GuiPackageStatusDto::File {
            index,
            total_files,
            bytes,
            path,
        },
        GuiPackageStatus::Finished { output_zip, deleted } => GuiPackageStatusDto::Finished {
            output_zip,
            deleted,
        },
        GuiPackageStatus::Error { message } => GuiPackageStatusDto::Error { message },
    }
}

/// Whether a directory name is an in-progress staging directory, which
/// the packager must skip.
pub fn is_tmp_dir(name: &str) -> (r: bool)
    ensures
        r == (name@.len() >= 4 && name@.subrange(
            name@.len() - 4,
            name@.len() as int,
        ) == ".tmp"@),
{
    let n = name.unicode_len();
    if n < 4 {
        return false;
    }
    let suffix = name.substring_char(n - 4, n);
    str_eq(suffix, ".tmp")
}

/// The session directories a package request names, under the sessions
/// root; a request that names none is resolved by the caller against
/// the directory listing instead.
pub fn resolve_targets(root: &str, names: &Vec<String>) -> (out: Vec<String>)
    ensures
        out@.len() == names@.len(),
        forall|i: int|
            0 <= i < names@.len() ==> #[trigger] out@[i]@ == root@ + "/"@ + names@[i]@,
{
    let n = names.len();
    let mut out: Vec<String> = Vec::new();
    let mut i: usize = 0;
    while i < n
        invariant
            i <= n,
            n == names@.len(),
            out@.len() == i,
            forall|j: int| 0 <= j < i ==> #[trigger] out@[j]@ == root@ + "/"@ + names@[j]@,
        decreases n - i,
    {
        let mut path = String::from_str(root);
        path.append("/");
        path.append(names[i].as_str());
        out.push(path);
        i = i + 1;
    }
    out
}

} // verus!
