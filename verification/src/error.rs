//! The error taxonomy of a generation run.

use vstd::prelude::*;

verus! {

/// What went wrong while generating the site. Each variant names the file
/// or directory it concerns; some carry a reason.
#[derive(Debug)]
pub enum AppError {
    ReadDir { path: String },
    IterDir { path: String },
    WriteDir { path: String, reason: Option<String> },
    DeleteDir { path: String },
    ReadFile { path: String },
    CopyFile { src_path: String, dst_path: String },
    DeleteFile { path: String, reason: String },
    WriteFile { path: String, reason: Option<String> },
    FileMeta { path: String },
}

/// The wording of an error, with the path quoted.
pub open spec fn spec_message(e: AppError) -> Seq<char> {
    match e {
        AppError::ReadDir { path } => "Failed to read directory: \""@ + path@ + "\""@,
        AppError::IterDir { path } => "Failed to list directory: \""@ + path@ + "\""@,
        AppError::WriteDir { path, reason } => "Failed to create directory"@ + (match reason {
            Some(r) => " ("@ + r@ + ")"@,
            None => Seq::empty(),
        }) + ": \""@ + path@ + "\""@,
        AppError::DeleteDir { path } => "Failed to delete directory: \""@ + path@ + "\""@,
        AppError::ReadFile { path } => "Failed to read file: \""@ + path@ + "\""@,
        AppError::CopyFile { src_path, dst_path } => "Failed to copy file \""@ + src_path@
            + "\" to \""@ + dst_path@ + "\""@,
        AppError::DeleteFile { path, reason } => "Failed to delete file ("@ + reason@ + "): \""@
            + path@ + "\""@,
        AppError::WriteFile { path, reason } => "Failed to write file"@ + (match reason {
            Some(r) => " ("@ + r@ + ")"@,
            None => Seq::empty(),
        }) + ": \""@ + path@ + "\""@,
        AppError::FileMeta { path } => "Failed to query file metadata: \""@ + path@ + "\""@,
    }
}

impl AppError {
    /// The error's wording.
    pub fn message(&self) -> (r: String)
        ensures
            r@ == spec_message(*self),
    {
        match self {
            AppError::ReadDir { path } => {
                let mut r = String::new();
                r.append("Failed to read directory: \"");
                r.append(path.as_str());
                r.append("\"");
                proof {
                    assert(r@ =~= spec_message(*self));
                }
                r
            },
            AppError::IterDir { path } => {
                let mut r = String::new();
                r.append("Failed to list directory: \"");
                r.append(path.as_str());
                r.append("\"");
                proof {
                    assert(r@ =~= spec_message(*self));
                }
                r
            },
            AppError::WriteDir { path, reason } => {
                let mut r = String::new();
                r.append("Failed to create directory");
                match reason {
                    Some(why) => {
                        r.append(" (");
                        r.append(why.as_str());
                        r.append(")");
                    },
                    None => {},
                }
                r.append(": \"");
                r.append(path.as_str());
                r.append("\"");
                proof {
                    assert(r@ =~= spec_message(*self));
                }
                r
            },
            AppError::DeleteDir { path } => {
                let mut r = String::new();
                r.append("Failed to delete directory: \"");
                r.append(path.as_str());
                r.append("\"");
                proof {
                    assert(r@ =~= spec_message(*self));
                }
                r
            },
            AppError::ReadFile { path } => {
                let mut r = String::new();
                r.append("Failed to read file: \"");
                r.append(path.as_str());
                r.append("\"");
                proof {
                    assert(r@ =~= spec_message(*self));
                }
                r
            },
            AppError::CopyFile { src_path, dst_path } => {
                let mut r = String::new();
                r.append("Failed to copy file \"");
                r.append(src_path.as_str());
                r.append("\" to \"");
                r.append(dst_path.as_str());
                r.append("\"");
                proof {
                    assert(r@ =~= spec_message(*self));
                }
                r
            },
            AppError::DeleteFile { path, reason } => {
                let mut r = String::new();
                r.append("Failed to delete file (");
                r.append(reason.as_str());
                r.append("): \"");
                r.append(path.as_str());
                r.append("\"");
                proof {
                    assert(r@ =~= spec_message(*self));
                }
                r
            },
            AppError::WriteFile { path, reason } => {
                let mut r = String::new();
                r.append("Failed to write file");
                match reason {
                    Some(why) => {
                        r.append(" (");
                        r.append(why.as_str());
                        r.append(")");
                    },
                    None => {},
                }
                r.append(": \"");
                r.append(path.as_str());
                r.append("\"");
                proof {
                    assert(r@ =~= spec_message(*self));
                }
                r
            },
            AppError::FileMeta { path } => {
                let mut r = String::new();
                r.append("Failed to query file metadata: \"");
                r.append(path.as_str());
                r.append("\"");
                proof {
                    assert(r@ =~= spec_message(*self));
                }
                r
            },
        }
    }
}

} // verus!
