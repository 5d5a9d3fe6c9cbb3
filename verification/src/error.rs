//! What the engine reports when an operation cannot be carried out.

use crate::text::{decimal, decimal_text, join3};
use vstd::prelude::*;
use vstd::string::*;

verus! {

/// The four classes of failure.
#[derive(Clone, Copy, Debug, PartialEq, Eq, Structural)]
pub enum ErrorClass {
    /// The caller handed in something unusable.
    Validation,
    /// Something that was asked for is not there.
    NotFound,
    /// Every alternative has been used up.
    Exhaustion,
    /// The store itself failed.
    Internal,
}

/// A failure of an engine operation.
#[derive(Clone, Debug, PartialEq, Eq)]
pub enum LoaderError {
    /// The folder path is empty, does not resolve, or is not text.
    InvalidFolderPath,
    /// The folder path resolves to something that is no directory.
    NotADirectory,
    /// The directory cannot be listed.
    UnreadableFolder,
    /// No folder is selected.
    NoFolderSelected,
    /// No folder is selected and none is known.
    NoFoldersAvailable,
    /// Every known folder has left the disk; all of them were forgotten.
    AllFoldersDeleted,
    /// Cycling through the folders found none that is still on disk.
    AllFoldersGone,
    /// A folder was asked for by position while none is known.
    NoFolders,
    /// The selected folder has left the disk and was forgotten.
    FolderGone { path: String },
    /// The folder asked for by position has left the disk and was forgotten.
    FolderMissing { path: String },
    /// A scan ended with no image in the folder.
    NoImagesFound,
    /// A draw found nothing to draw from.
    NoImagesAvailable,
    /// The image's file has left the disk; its row was removed.
    ImageFileMissing { path: String },
    /// A row that an identifier names is not in the store.
    RowNotFound,
    /// Every image of the folder is hidden in sequential mode.
    AllHiddenNormal,
    /// Every image of the folder is hidden in random mode.
    AllHiddenRandom,
    /// A draw removed every image that was left, `skipped` of them.
    AllImagesDeleted { skipped: u64 },
    /// A draw used up its attempts after removing `skipped` images.
    SkippedNoneValid { skipped: u64 },
    /// The image's file could not be read.
    ImageReadFailed { detail: String },
    /// No identifier is left for a new row.
    StoreFull,
    /// The replay log has used up its order indices.
    HistoryFull,
    /// A row refers to a folder or an image that the store does not hold.
    ForeignKeyFailed,
    /// A row repeats an identifier, a path or an order index, or comes out of
    /// order.
    UniqueFailed,
}

impl LoaderError {
    /// The class that a failure belongs to.
    pub open spec fn class_of(self) -> ErrorClass {
        match self {
            LoaderError::InvalidFolderPath => ErrorClass::Validation,
            LoaderError::NotADirectory => ErrorClass::Validation,
            LoaderError::UnreadableFolder => ErrorClass::Validation,
            LoaderError::NoFolderSelected => ErrorClass::NotFound,
            LoaderError::NoFoldersAvailable => ErrorClass::NotFound,
            LoaderError::AllFoldersDeleted => ErrorClass::NotFound,
            LoaderError::AllFoldersGone => ErrorClass::NotFound,
            LoaderError::NoFolders => ErrorClass::NotFound,
            LoaderError::FolderGone { .. } => ErrorClass::NotFound,
            LoaderError::FolderMissing { .. } => ErrorClass::NotFound,
            LoaderError::NoImagesFound => ErrorClass::NotFound,
            LoaderError::NoImagesAvailable => ErrorClass::NotFound,
            LoaderError::ImageFileMissing { .. } => ErrorClass::NotFound,
            LoaderError::RowNotFound => ErrorClass::NotFound,
            LoaderError::AllHiddenNormal => ErrorClass::Exhaustion,
            LoaderError::AllHiddenRandom => ErrorClass::Exhaustion,
            LoaderError::AllImagesDeleted { .. } => ErrorClass::Exhaustion,
            LoaderError::SkippedNoneValid { .. } => ErrorClass::Exhaustion,
            LoaderError::ImageReadFailed { .. } => ErrorClass::Internal,
            LoaderError::StoreFull => ErrorClass::Internal,
            LoaderError::HistoryFull => ErrorClass::Internal,
            LoaderError::ForeignKeyFailed => ErrorClass::Internal,
            LoaderError::UniqueFailed => ErrorClass::Internal,
        }
    }

    /// The descriptive text of a failure.
    pub open spec fn text(self) -> Seq<char> {
        match self {
            LoaderError::InvalidFolderPath => "invalid folder path"@,
            LoaderError::NotADirectory => "folder path is not a directory"@,
            LoaderError::UnreadableFolder => "folder path is unreadable"@,
            LoaderError::NoFolderSelected => "no folder selected - pick a folder first"@,
            LoaderError::NoFoldersAvailable => "no folders available - pick a folder first"@,
            LoaderError::AllFoldersDeleted => "all folders in history have been deleted - pick a folder first"@,
            LoaderError::AllFoldersGone => "all folders in history no longer exist - reindex please"@,
            LoaderError::NoFolders => "no folders available"@,
            LoaderError::FolderGone { path } => "folder no longer exists: "@ + path@
                + " - deleted from history"@,
            LoaderError::FolderMissing { path } => "folder no longer exists: "@ + path@
                + " - reindex please"@,
            LoaderError::NoImagesFound => "no images found in folder"@,
            LoaderError::NoImagesAvailable => "no images available"@,
            LoaderError::ImageFileMissing { path } => "image file not found: "@ + path@
                + " - reindex please"@,
            LoaderError::RowNotFound => "query returned no rows"@,
            LoaderError::AllHiddenNormal => "all images for this folder are hidden in normal mode - reindex to clear hidden images"@,
            LoaderError::AllHiddenRandom => "all images for this folder are hidden in random mode - reindex to clear hidden images"@,
            LoaderError::AllImagesDeleted { skipped } => "all images were deleted ("@
                + decimal_text(skipped as nat) + " found) - reindex please"@,
            LoaderError::SkippedNoneValid { skipped } => "skipped "@ + decimal_text(
                skipped as nat,
            ) + " deleted image(s), no valid images found - reindex please"@,
            LoaderError::ImageReadFailed { detail } => "failed to read image: "@ + detail@
                + " - reindex please"@,
            LoaderError::StoreFull => "database or disk is full"@,
            LoaderError::HistoryFull => "random history is full - reset the random history"@,
            LoaderError::ForeignKeyFailed => "FOREIGN KEY constraint failed"@,
            LoaderError::UniqueFailed => "UNIQUE constraint failed"@,
        }
    }

    /// The class of this failure.
    pub fn class(&self) -> (c: ErrorClass)
        ensures
            c == self.class_of(),
    {
        match self {
            LoaderError::InvalidFolderPath => ErrorClass::Validation,
            LoaderError::NotADirectory => ErrorClass::Validation,
            LoaderError::UnreadableFolder => ErrorClass::Validation,
            LoaderError::NoFolderSelected => ErrorClass::NotFound,
            LoaderError::NoFoldersAvailable => ErrorClass::NotFound,
            LoaderError::AllFoldersDeleted => ErrorClass::NotFound,
            LoaderError::AllFoldersGone => ErrorClass::NotFound,
            LoaderError::NoFolders => ErrorClass::NotFound,
            LoaderError::FolderGone { .. } => ErrorClass::NotFound,
            LoaderError::FolderMissing { .. } => ErrorClass::NotFound,
            LoaderError::NoImagesFound => ErrorClass::NotFound,
            LoaderError::NoImagesAvailable => ErrorClass::NotFound,
            LoaderError::ImageFileMissing { .. } => ErrorClass::NotFound,
            LoaderError::RowNotFound => ErrorClass::NotFound,
            LoaderError::AllHiddenNormal => ErrorClass::Exhaustion,
            LoaderError::AllHiddenRandom => ErrorClass::Exhaustion,
            LoaderError::AllImagesDeleted { .. } => ErrorClass::Exhaustion,
            LoaderError::SkippedNoneValid { .. } => ErrorClass::Exhaustion,
            LoaderError::ImageReadFailed { .. } => ErrorClass::Internal,
            LoaderError::StoreFull => ErrorClass::Internal,
            LoaderError::HistoryFull => ErrorClass::Internal,
            LoaderError::ForeignKeyFailed => ErrorClass::Internal,
            LoaderError::UniqueFailed => ErrorClass::Internal,
        }
    }

    /// The descriptive text of this failure.
    pub fn message(&self) -> (out: String)
        ensures
            out@ == self.text(),
    {
        match self {
            LoaderError::InvalidFolderPath => String::from_str("invalid folder path"),
            LoaderError::NotADirectory => String::from_str("folder path is not a directory"),
            LoaderError::UnreadableFolder => String::from_str("folder path is unreadable"),
            LoaderError::NoFolderSelected => String::from_str(
                "no folder selected - pick a folder first",
            ),
            LoaderError::NoFoldersAvailable => String::from_str(
                "no folders available - pick a folder first",
            ),
            LoaderError::AllFoldersDeleted => String::from_str(
                "all folders in history have been deleted - pick a folder first",
            ),
            LoaderError::AllFoldersGone => String::from_str(
                "all folders in history no longer exist - reindex please",
            ),
            LoaderError::NoFolders => String::from_str("no folders available"),
            LoaderError::FolderGone { path } => join3(
                "folder no longer exists: ",
                path.as_str(),
                " - deleted from history",
            ),
            LoaderError::FolderMissing { path } => join3(
                "folder no longer exists: ",
                path.as_str(),
                " - reindex please",
            ),
            LoaderError::NoImagesFound => String::from_str("no images found in folder"),
            LoaderError::NoImagesAvailable => String::from_str("no images available"),
            LoaderError::ImageFileMissing { path } => join3(
                "image file not found: ",
                path.as_str(),
                " - reindex please",
            ),
            LoaderError::RowNotFound => String::from_str("query returned no rows"),
            LoaderError::AllHiddenNormal => String::from_str(
                "all images for this folder are hidden in normal mode - reindex to clear hidden images",
            ),
            LoaderError::AllHiddenRandom => String::from_str(
                "all images for this folder are hidden in random mode - reindex to clear hidden images",
            ),
            LoaderError::AllImagesDeleted { skipped } => {
                let n = decimal(*skipped);
                join3("all images were deleted (", n.as_str(), " found) - reindex please")
            },
            LoaderError::SkippedNoneValid { skipped } => {
                let n = decimal(*skipped);
                join3(
                    "skipped ",
                    n.as_str(),
                    " deleted image(s), no valid images found - reindex please",
                )
            },
            LoaderError::ImageReadFailed { detail } => join3(
                "failed to read image: ",
                detail.as_str(),
                " - reindex please",
            ),
            LoaderError::StoreFull => String::from_str("database or disk is full"),
            LoaderError::HistoryFull => String::from_str(
                "random history is full - reset the random history",
            ),
            LoaderError::ForeignKeyFailed => String::from_str("FOREIGN KEY constraint failed"),
            LoaderError::UniqueFailed => String::from_str("UNIQUE constraint failed"),
        }
    }
}

} // verus!
