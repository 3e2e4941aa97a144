//! Data model: scanned-image records, progress events, and the operation
//! log that lets a batch move be undone.

use vstd::prelude::*;

verus! {

/// Processing state of one scanned image.
#[derive(Debug, Clone, PartialEq)]
pub enum ImageStatus {
    /// Scanned, awaiting handling.
    Scanned,
    /// A person was chosen; ready to move.
    Ready,
    /// Being moved.
    Moving,
    /// Moved.
    Moved,
    /// Handling failed, with the reason.
    Error(String),
}

/// Information about one scanned image.
#[derive(Debug, Clone)]
pub struct ImageInfo {
    /// Unique identifier.
    pub id: String,
    /// Full file path.
    pub path: String,
    /// File name.
    pub filename: String,
    /// Detected person tags.
    pub persons: Vec<String>,
    /// All metadata keywords.
    pub keywords: Vec<String>,
    /// Thumbnail, as an encoded data URL.
    pub thumbnail: String,
    /// The person chosen as the move target, if any.
    pub selected_person: Option<String>,
    /// Processing state.
    pub status: ImageStatus,
}

/// Progress of one scan, pushed incrementally to the caller.
#[derive(Debug, Clone)]
pub struct ScanProgressEvent {
    /// How many images have been scanned so far.
    pub scanned: usize,
    /// The newly scanned image, if one finished.
    pub image: Option<ImageInfo>,
    /// Whether the scan is over (finished or cancelled).
    pub done: bool,
    /// Whether the scan was cancelled.
    pub cancelled: bool,
    /// An error message, if any.
    pub error: Option<String>,
}

/// Progress of one batch move.
#[derive(Debug, Clone)]
pub struct MoveProgressEvent {
    /// How many images have been moved so far.
    pub moved_count: usize,
    /// How many are to be moved in all.
    pub total: usize,
    /// The file being handled.
    pub current_file: String,
    /// Whether the move is over.
    pub done: bool,
    /// An error message, if any.
    pub error: Option<String>,
}

/// One file move, recorded so it can be undone.
#[derive(Debug, Clone)]
pub struct MoveRecord {
    /// Where the file was.
    pub original_path: String,
    /// Where the file went.
    pub new_path: String,
    /// Its file name.
    pub filename: String,
}

/// The log of one batch move, used to undo it as a whole.
#[derive(Debug, Clone)]
pub struct OperationLog {
    /// Unique identifier of the operation.
    pub id: String,
    /// When the operation ran.
    pub timestamp: String,
    /// The folder the images were moved into.
    pub target_dir: String,
    /// Every move performed.
    pub records: Vec<MoveRecord>,
}

/// Summary of one finished scan.
#[derive(Debug, Clone, Default)]
pub struct ScanStats {
    /// How many images were scanned.
    pub total_images: usize,
    /// How many distinct persons were seen.
    pub person_count: usize,
    /// The distinct person names.
    pub person_names: Vec<String>,
}

/// One image to move, with the person chosen for it.
#[derive(Debug, Clone)]
pub struct MoveImageRequest {
    /// Full file path.
    pub path: String,
    /// File name.
    pub filename: String,
    /// The person whose folder the image goes to.
    pub person: String,
}

/// Result of one batch move.
#[derive(Debug, Clone)]
pub struct MoveResult {
    /// How many images were moved.
    pub moved_count: usize,
    /// Whether the move can be undone.
    pub has_undo: bool,
}

/// Result of undoing a batch move.
#[derive(Debug, Clone)]
pub struct UndoResult {
    /// How many files were put back.
    pub restored_count: usize,
    /// Whether the undo ran.
    pub success: bool,
}

} // verus!
