//! What the folder scanner decides: which files count as images, which folder
//! paths are usable, and which progress notes a scan sends in which order.
//! Walking the directory tree is the caller's part.

use crate::error::LoaderError;
use crate::img_loader::ImageLoader;
use crate::text::{
    decimal, decimal_text, join2, same_ignoring_ascii_case, text_eq_ignore_ascii_case, text_trim,
    trimmed,
};
use crate::upkeep::texts;
use vstd::prelude::*;
use vstd::string::*;

verus! {

/// Whether a file extension is one of the supported image formats, whatever
/// the case of its letters.
pub open spec fn supported_ext(ext: Seq<char>) -> bool {
    ||| same_ignoring_ascii_case(ext, "jpeg"@)
    ||| same_ignoring_ascii_case(ext, "jpg"@)
    ||| same_ignoring_ascii_case(ext, "png"@)
    ||| same_ignoring_ascii_case(ext, "gif"@)
    ||| same_ignoring_ascii_case(ext, "webp"@)
}

/// What the caller found when it resolved a folder path on disk.
#[derive(Clone, Debug, PartialEq, Eq)]
pub enum PathProbe {
    /// The path does not resolve.
    Unresolved,
    /// The path resolves to something that is no directory.
    NotDirectory,
    /// The directory cannot be listed.
    Unreadable,
    /// The canonical path is not text.
    NotText,
    /// A readable directory with this canonical path.
    Directory(String),
}

/// A progress note: on the check of the selection against the disk, or on a
/// scan.
#[derive(Clone, Debug, PartialEq, Eq)]
pub enum Progress {
    /// The selected folder has left the disk and was deleted.
    FolderDeleted { path: String },
    /// A stale folder was passed over and deleted.
    FolderCleaned { path: String },
    /// The selection fell back to this folder.
    FolderSwitched { path: String },
    /// The scan of the folder at this path begins.
    ScanStart { path: String },
    /// The folder has this many images already and is not scanned.
    ScanSkip { count: u64 },
    /// The walk has found this many image files so far.
    ScanFound { count: u64 },
    /// The walk is over and found this many image files.
    ScanDone { total: u64 },
    /// The path with this number, of so many, was taken in.
    Indexed { done: u64, total: u64, path: String },
    /// Every path that the walk found was taken in.
    IndexDone,
    /// The scan left the folder without an image.
    IndexError,
    /// The folder is ready and has this many images.
    IndexReady { count: u64 },
}

/// A progress note as a mathematical value.
pub enum ProgressView {
    FolderDeleted { path: Seq<char> },
    FolderCleaned { path: Seq<char> },
    FolderSwitched { path: Seq<char> },
    ScanStart { path: Seq<char> },
    ScanSkip { count: u64 },
    ScanFound { count: u64 },
    ScanDone { total: u64 },
    Indexed { done: u64, total: u64, path: Seq<char> },
    IndexDone,
    IndexError,
    IndexReady { count: u64 },
}

impl View for Progress {
    type V = ProgressView;

    open spec fn view(&self) -> ProgressView {
        match self {
            Progress::FolderDeleted { path } => ProgressView::FolderDeleted { path: path@ },
            Progress::FolderCleaned { path } => ProgressView::FolderCleaned { path: path@ },
            Progress::FolderSwitched { path } => ProgressView::FolderSwitched { path: path@ },
            Progress::ScanStart { path } => ProgressView::ScanStart { path: path@ },
            Progress::ScanSkip { count } => ProgressView::ScanSkip { count: *count },
            Progress::ScanFound { count } => ProgressView::ScanFound { count: *count },
            Progress::ScanDone { total } => ProgressView::ScanDone { total: *total },
            Progress::Indexed { done, total, path } => ProgressView::Indexed {
                done: *done,
                total: *total,
                path: path@,
            },
            Progress::IndexDone => ProgressView::IndexDone,
            Progress::IndexError => ProgressView::IndexError,
            Progress::IndexReady { count } => ProgressView::IndexReady { count: *count },
        }
    }
}

/// The notes of a list as mathematical values.
pub open spec fn progress_views(notes: Seq<Progress>) -> Seq<ProgressView> {
    notes.map_values(|note: Progress| note@)
}

impl ProgressView {
    /// The line of text that stands for a note: for a note on a scan, a
    /// category, a colon, and the particulars.
    pub open spec fn text(self) -> Seq<char> {
        match self {
            ProgressView::FolderDeleted { path } => "folder deleted: "@ + path,
            ProgressView::FolderCleaned { path } => "cleaning up deleted folder: "@ + path,
            ProgressView::FolderSwitched { path } => "switched to folder: "@ + path,
            ProgressView::ScanStart { path } => "scan:start "@ + path,
            ProgressView::ScanSkip { count } => "scan:skip already indexed count="@ + decimal_text(
                count as nat,
            ),
            ProgressView::ScanFound { count } => "scan:found "@ + decimal_text(count as nat),
            ProgressView::ScanDone { total } => "scan:done total="@ + decimal_text(total as nat),
            ProgressView::Indexed { done, total, path } => "index:"@ + decimal_text(done as nat)
                + "/"@ + decimal_text(total as nat) + " "@ + path,
            ProgressView::IndexDone => "index:done"@,
            ProgressView::IndexError => "index:error no images found"@,
            ProgressView::IndexReady { count } => "index:ready count="@ + decimal_text(
                count as nat,
            ),
        }
    }
}

/// Whether the scan reports that it has found `count` files: at every
/// two-hundredth.
pub open spec fn reports_found(count: nat) -> bool {
    count > 0 && count % 200 == 0
}

/// A regular file that a walk came upon: its path and its extension, each
/// where it is text.
#[derive(Clone, Debug, PartialEq, Eq)]
pub struct FoundFile {
    pub path: Option<String>,
    pub extension: Option<String>,
}

/// A file that a walk came upon, as a mathematical value.
pub struct FoundFileView {
    pub path: Option<Seq<char>>,
    pub extension: Option<Seq<char>>,
}

impl View for FoundFile {
    type V = FoundFileView;

    open spec fn view(&self) -> FoundFileView {
        FoundFileView {
            path: match self.path {
                Some(p) => Some(p@),
                None => None,
            },
            extension: match self.extension {
                Some(e) => Some(e@),
                None => None,
            },
        }
    }
}

/// The files of a list as mathematical values.
pub open spec fn file_views(files: Seq<FoundFile>) -> Seq<FoundFileView> {
    files.map_values(|file: FoundFile| file@)
}

impl FoundFileView {
    /// Whether a scan takes the file in: its extension is text and one of the
    /// supported image formats, and its path is text.
    pub open spec fn is_image(self) -> bool {
        self.extension matches Some(e) && supported_ext(e) && self.path is Some
    }
}

/// The paths that a scan takes in of the files that its walk came upon: those
/// of the images, in the order of the walk.
pub open spec fn taken_in(files: Seq<FoundFileView>) -> Seq<Seq<char>>
    decreases files.len(),
{
    if files.len() == 0 {
        Seq::empty()
    } else {
        let front = taken_in(files.drop_last());
        if files.last().is_image() {
            front.push(files.last().path.unwrap())
        } else {
            front
        }
    }
}

/// The notes that a walk sends while it finds `count` images: one at every
/// two-hundredth, in ascending order.
pub open spec fn found_report(count: nat) -> Seq<ProgressView>
    decreases count,
{
    if count == 0 {
        Seq::empty()
    } else {
        let front = found_report((count - 1) as nat);
        if reports_found(count) {
            front.push(ProgressView::ScanFound { count: count as u64 })
        } else {
            front
        }
    }
}

/// Whether the scan reports the `done`-th of `total` paths that it takes in:
/// each of the first ten, every hundredth, and the last.
pub open spec fn reports_indexed(done: nat, total: nat) -> bool {
    done <= 10 || done == total || done % 100 == 0
}

/// The notes on the first `upto` of the paths that a scan takes in.
pub open spec fn index_report(paths: Seq<Seq<char>>, upto: int) -> Seq<ProgressView>
    decreases upto,
{
    if upto <= 0 {
        Seq::empty()
    } else {
        let front = index_report(paths, upto - 1);
        if reports_indexed(upto as nat, paths.len()) {
            front.push(
                ProgressView::Indexed {
                    done: upto as u64,
                    total: paths.len() as u64,
                    path: paths[upto - 1],
                },
            )
        } else {
            front
        }
    }
}

/// The notes of a scan from the end of its walk on: the number of paths
/// found; for a walk that found any, the notes on taking them in and the note
/// that this is done; and the outcome, which is an error when the folder is
/// left with no image and its number of images otherwise.
pub open spec fn scan_report(paths: Seq<Seq<char>>, images: nat) -> Seq<ProgressView> {
    let found = seq![ProgressView::ScanDone { total: paths.len() as u64 }];
    let taken = if paths.len() > 0 {
        index_report(paths, paths.len() as int).push(ProgressView::IndexDone)
    } else {
        Seq::empty()
    };
    let outcome = if images == 0 {
        ProgressView::IndexError
    } else {
        ProgressView::IndexReady { count: images as u64 }
    };
    (found + taken).push(outcome)
}

impl Progress {
    /// The line of text that stands for this note.
    pub fn line(&self) -> (out: String)
        ensures
            out@ == self@.text(),
    {
        match self {
            Progress::FolderDeleted { path } => join2("folder deleted: ", path.as_str()),
            Progress::FolderCleaned { path } => join2(
                "cleaning up deleted folder: ",
                path.as_str(),
            ),
            Progress::FolderSwitched { path } => join2("switched to folder: ", path.as_str()),
            Progress::ScanStart { path } => join2("scan:start ", path.as_str()),
            Progress::ScanSkip { count } => {
                let n = decimal(*count);
                join2("scan:skip already indexed count=", n.as_str())
            },
            Progress::ScanFound { count } => {
                let n = decimal(*count);
                join2("scan:found ", n.as_str())
            },
            Progress::ScanDone { total } => {
                let n = decimal(*total);
                join2("scan:done total=", n.as_str())
            },
            Progress::Indexed { done, total, path } => {
                let d = decimal(*done);
                let t = decimal(*total);
                let mut out = join2("index:", d.as_str());
                out.append("/");
                out.append(t.as_str());
                out.append(" ");
                out.append(path.as_str());
                out
            },
            Progress::IndexDone => String::from_str("index:done"),
            Progress::IndexError => String::from_str("index:error no images found"),
            Progress::IndexReady { count } => {
                let n = decimal(*count);
                join2("index:ready count=", n.as_str())
            },
        }
    }

    /// The note, if any, that a walk sends when it has found `count` files.
    pub fn scan_found(count: usize) -> (note: Option<Progress>)
        ensures
            match note {
                Some(p) => reports_found(count as nat) && p@ == (ProgressView::ScanFound {
                    count: count as u64,
                }),
                None => !reports_found(count as nat),
            },
    {
        if count > 0 && count % 200 == 0 {
            Some(Progress::ScanFound { count: count as u64 })
        } else {
            None
        }
    }

    /// The notes on taking in the paths of a scan.
    pub fn indexed(paths: &Vec<String>) -> (notes: Vec<Progress>)
        ensures
            progress_views(notes@) == index_report(texts(paths@), paths@.len() as int),
    {
        let total = paths.len();
        let mut notes: Vec<Progress> = Vec::new();
        let mut i: usize = 0;
        while i < total
            invariant
                i <= total,
                total == paths.len(),
                progress_views(notes@) == index_report(texts(paths@), i as int),
            decreases total - i,
        {
            let done = i + 1;
            if done <= 10 || done == total || done % 100 == 0 {
                let ghost before = progress_views(notes@);
                notes.push(
                    Progress::Indexed {
                        done: done as u64,
                        total: total as u64,
                        path: paths[i].clone(),
                    },
                );
                proof {
                    assert(progress_views(notes@) =~= before.push(
                        ProgressView::Indexed {
                            done: done as u64,
                            total: total as u64,
                            path: texts(paths@)[i as int],
                        },
                    ));
                }
            }
            i += 1;
        }
        notes
    }
}

impl ImageLoader {
    /// Whether a file with this extension counts as an image: `jpeg`, `jpg`,
    /// `png`, `gif` and `webp`, in any case of letters.
    pub fn is_supported_image_ext(ext: &str) -> (yes: bool)
        ensures
            yes == supported_ext(ext@),
    {
        text_eq_ignore_ascii_case(ext, "jpeg") || text_eq_ignore_ascii_case(ext, "jpg")
            || text_eq_ignore_ascii_case(ext, "png") || text_eq_ignore_ascii_case(ext, "gif")
            || text_eq_ignore_ascii_case(ext, "webp")
    }

    /// What a scan takes in of the regular files that its walk came upon:
    /// the paths of the images, in the order of the walk, with the notes that
    /// the walk sends while it finds them.
    pub fn select_images(files: &Vec<FoundFile>) -> (r: (Vec<String>, Vec<Progress>))
        ensures
            texts(r.0@) == taken_in(file_views(files@)),
            progress_views(r.1@) == found_report(r.0@.len()),
    {
        let mut paths: Vec<String> = Vec::new();
        let mut notes: Vec<Progress> = Vec::new();
        let mut i: usize = 0;
        proof {
            assert(file_views(files@).take(0) =~= Seq::<FoundFileView>::empty());
            assert(texts(paths@) =~= Seq::<Seq<char>>::empty());
            assert(progress_views(notes@) =~= Seq::<ProgressView>::empty());
        }
        while i < files.len()
            invariant
                i <= files.len(),
                paths@.len() <= i,
                texts(paths@) == taken_in(file_views(files@).take(i as int)),
                progress_views(notes@) == found_report(paths@.len()),
            decreases files.len() - i,
        {
            let file = &files[i];
            proof {
                let all = file_views(files@);
                assert(all.take(i + 1).drop_last() =~= all.take(i as int));
                assert(all.take(i + 1).last() == file@);
            }
            let supported = match &file.extension {
                Some(ext) => Self::is_supported_image_ext(ext.as_str()),
                None => false,
            };
            if supported {
                match &file.path {
                    Some(path) => {
                        let ghost before = texts(paths@);
                        let ghost sent = progress_views(notes@);
                        paths.push(path.clone());
                        proof {
                            assert(texts(paths@) =~= before.push(path@));
                        }
                        match Progress::scan_found(paths.len()) {
                            Some(note) => {
                                notes.push(note);
                                proof {
                                    assert(progress_views(notes@) =~= sent.push(
                                        ProgressView::ScanFound { count: paths@.len() as u64 },
                                    ));
                                }
                            },
                            None => {},
                        }
                    },
                    None => {},
                }
            }
            i += 1;
        }
        proof {
            assert(file_views(files@).take(i as int) =~= file_views(files@));
        }
        (paths, notes)
    }

    /// The folder path that the caller is to resolve on disk: the input
    /// without the white space around it. An input that holds nothing else is
    /// refused.
    pub fn folder_path_input(path: &str) -> (r: Result<String, LoaderError>)
        ensures
            match r {
                Ok(p) => p@ == trimmed(path@) && trimmed(path@).len() > 0,
                Err(e) => e == LoaderError::InvalidFolderPath && trimmed(path@).len() == 0,
            },
    {
        Self::folder_path_kept(text_trim(path))
    }

    /// The folder path that is left of an input once the white space around
    /// it is gone: the text as it is, unless nothing is left, which is
    /// refused.
    pub fn folder_path_kept(kept: String) -> (r: Result<String, LoaderError>)
        ensures
            match r {
                Ok(p) => p@ == kept@ && kept@.len() > 0,
                Err(e) => e == LoaderError::InvalidFolderPath && kept@.len() == 0,
            },
    {
        let empty = String::from_str("");
        proof {
            reveal_strlit("");
        }
        if kept == empty {
            assert(kept@ =~= Seq::<char>::empty());
            Err(LoaderError::InvalidFolderPath)
        } else {
            assert(kept@.len() > 0) by {
                if kept@.len() == 0 {
                    assert(kept@ =~= empty@);
                }
            }
            Ok(kept)
        }
    }

    /// The canonical folder path that a look at the disk gave, or the reason
    /// why the folder cannot be used.
    pub fn canonicalize_folder_path(probe: PathProbe) -> (r: Result<String, LoaderError>)
        ensures
            match probe {
                PathProbe::Unresolved => r matches Err(LoaderError::InvalidFolderPath),
                PathProbe::NotDirectory => r matches Err(LoaderError::NotADirectory),
                PathProbe::Unreadable => r matches Err(LoaderError::UnreadableFolder),
                PathProbe::NotText => r matches Err(LoaderError::InvalidFolderPath),
                PathProbe::Directory(p) => r matches Ok(q) && q@ == p@,
            },
    {
        match probe {
            PathProbe::Unresolved => Err(LoaderError::InvalidFolderPath),
            PathProbe::NotDirectory => Err(LoaderError::NotADirectory),
            PathProbe::Unreadable => Err(LoaderError::UnreadableFolder),
            PathProbe::NotText => Err(LoaderError::InvalidFolderPath),
            PathProbe::Directory(p) => Ok(p),
        }
    }
}

} // verus!
