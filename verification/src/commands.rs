//! The values that the engine's operations hand to their callers, and the
//! boundary that turns engine failures into messages fit for an end user.

use crate::error::LoaderError;
use crate::img_loader::ImageLoader;
use crate::text::{join2, occurs_in, text_contains};
use vstd::prelude::*;
use vstd::string::*;

verus! {

/// A folder by identifier and canonical path.
#[derive(Clone, Debug, PartialEq, Eq)]
pub struct FolderInfo {
    pub id: i64,
    pub path: String,
}

/// The visible entries of one traversal mode, with the list position of the
/// cursor among them, or -1.
#[derive(Clone, Debug, PartialEq, Eq)]
pub struct ImageHistory {
    pub history: Vec<ImageHistoryItem>,
    pub current_index: i64,
}

/// One image as a traversal mode presents it: identifier, order index, path.
#[derive(Clone, Debug, PartialEq, Eq)]
pub struct ImageHistoryItem {
    pub image_id: i64,
    pub order_index: i64,
    pub path: String,
}

/// One folder of the folder history with the number of its images.
#[derive(Clone, Debug, PartialEq, Eq)]
pub struct FolderHistoryItem {
    pub id: i64,
    pub path: String,
    pub image_count: i64,
}

/// The folder history, most recently added first, with the list position of
/// the selected folder, or -1.
#[derive(Clone, Debug, PartialEq, Eq)]
pub struct FolderHistory {
    pub history: Vec<FolderHistoryItem>,
    pub current_index: i64,
}

/// The display preferences of the session.
#[derive(Clone, Debug, PartialEq, Eq)]
pub struct ImageState {
    pub vertical_mirror: bool,
    pub horizontal_mirror: bool,
    pub greyscale: bool,
    pub timer_flow_mode: String,
    pub show_folder_history_panel: bool,
    pub show_top_controls: bool,
    pub show_image_history_panel: bool,
    pub show_bottom_controls: bool,
    pub is_fullscreen_image: bool,
    pub shortcut_hints_visible: bool,
    pub shortcut_hint_side: String,
}

/// The bytes of an image with the selected folder and the flag that tells
/// whether the engine had to fall back to another folder.
#[derive(Clone, Debug, PartialEq, Eq)]
pub struct ImageResponse {
    pub data: Vec<u8>,
    pub folder: Option<FolderInfo>,
    pub auto_switched_folder: bool,
}

/// A failure as the boundary reports it: a message and nothing else.
#[derive(Clone, Debug, PartialEq, Eq)]
pub struct CommandError {
    pub message: String,
}

/// The display preferences as a mathematical value.
pub struct ImageStateView {
    pub vertical_mirror: bool,
    pub horizontal_mirror: bool,
    pub greyscale: bool,
    pub timer_flow_mode: Seq<char>,
    pub show_folder_history_panel: bool,
    pub show_top_controls: bool,
    pub show_image_history_panel: bool,
    pub show_bottom_controls: bool,
    pub is_fullscreen_image: bool,
    pub shortcut_hints_visible: bool,
    pub shortcut_hint_side: Seq<char>,
}

impl View for ImageState {
    type V = ImageStateView;

    open spec fn view(&self) -> ImageStateView {
        ImageStateView {
            vertical_mirror: self.vertical_mirror,
            horizontal_mirror: self.horizontal_mirror,
            greyscale: self.greyscale,
            timer_flow_mode: self.timer_flow_mode@,
            show_folder_history_panel: self.show_folder_history_panel,
            show_top_controls: self.show_top_controls,
            show_image_history_panel: self.show_image_history_panel,
            show_bottom_controls: self.show_bottom_controls,
            is_fullscreen_image: self.is_fullscreen_image,
            shortcut_hints_visible: self.shortcut_hints_visible,
            shortcut_hint_side: self.shortcut_hint_side@,
        }
    }
}

impl ImageStateView {
    /// The preferences of a store that was just created.
    pub open spec fn initial() -> ImageStateView {
        ImageStateView {
            vertical_mirror: false,
            horizontal_mirror: false,
            greyscale: false,
            timer_flow_mode: "random"@,
            show_folder_history_panel: true,
            show_top_controls: true,
            show_image_history_panel: true,
            show_bottom_controls: true,
            is_fullscreen_image: false,
            shortcut_hints_visible: false,
            shortcut_hint_side: "left"@,
        }
    }

    /// These preferences with the timer flow mode read as one of its two
    /// values: `normal` where it says so, `random` otherwise.
    pub open spec fn normalized(self) -> ImageStateView {
        ImageStateView {
            timer_flow_mode: if self.timer_flow_mode == "normal"@ {
                "normal"@
            } else {
                "random"@
            },
            ..self
        }
    }
}

impl ImageState {
    /// The preferences of a store that was just created.
    pub fn initial() -> (state: ImageState)
        ensures
            state@ == ImageStateView::initial(),
    {
        ImageState {
            vertical_mirror: false,
            horizontal_mirror: false,
            greyscale: false,
            timer_flow_mode: String::from_str("random"),
            show_folder_history_panel: true,
            show_top_controls: true,
            show_image_history_panel: true,
            show_bottom_controls: true,
            is_fullscreen_image: false,
            shortcut_hints_visible: false,
            shortcut_hint_side: String::from_str("left"),
        }
    }

    /// A copy of these preferences.
    pub fn copy(&self) -> (state: ImageState)
        ensures
            state@ == self@,
    {
        ImageState {
            vertical_mirror: self.vertical_mirror,
            horizontal_mirror: self.horizontal_mirror,
            greyscale: self.greyscale,
            timer_flow_mode: self.timer_flow_mode.clone(),
            show_folder_history_panel: self.show_folder_history_panel,
            show_top_controls: self.show_top_controls,
            show_image_history_panel: self.show_image_history_panel,
            show_bottom_controls: self.show_bottom_controls,
            is_fullscreen_image: self.is_fullscreen_image,
            shortcut_hints_visible: self.shortcut_hints_visible,
            shortcut_hint_side: self.shortcut_hint_side.clone(),
        }
    }

    /// Whether the timer flow mode is one of its two values.
    pub fn has_valid_mode(&self) -> (valid: bool)
        ensures
            valid == (self@.timer_flow_mode == "normal"@ || self@.timer_flow_mode == "random"@),
    {
        let normal = String::from_str("normal");
        let random = String::from_str("random");
        self.timer_flow_mode == normal || self.timer_flow_mode == random
    }
}

/// What the boundary lets through of a raw failure text: three kinds of
/// failure are replaced by a fixed message, every other text passes as it is.
pub open spec fn sanitized(raw: Seq<char>) -> Seq<char> {
    if occurs_in("FOREIGN KEY constraint failed"@, raw) {
        "database constraint failed - try resetting history or reindexing"@
    } else if occurs_in("query returned no rows"@, raw) {
        "no data found - folder or image may have been deleted"@
    } else if occurs_in("all images for this folder are hidden"@, raw) {
        "all images are hidden for this folder and mode - reindex to clear hidden images"@
    } else {
        raw
    }
}

/// Turns a raw failure text into the message that an end user sees.
pub fn sanitize_error_message(raw: &str) -> (out: String)
    ensures
        out@ == sanitized(raw@),
{
    if text_contains(raw, "FOREIGN KEY constraint failed") {
        return String::from_str(
            "database constraint failed - try resetting history or reindexing",
        );
    }
    if text_contains(raw, "query returned no rows") {
        return String::from_str("no data found - folder or image may have been deleted");
    }
    if text_contains(raw, "all images for this folder are hidden") {
        return String::from_str(
            "all images are hidden for this folder and mode - reindex to clear hidden images",
        );
    }
    String::from_str(raw)
}

impl CommandError {
    /// The failure that stands for any fault of the store or its lock.
    pub fn internal() -> (e: CommandError)
        ensures
            e.message@ == "internal error"@,
    {
        CommandError { message: String::from_str("internal error") }
    }

    /// A failure with the given message, for input that was refused.
    pub fn invalid(message: &str) -> (e: CommandError)
        ensures
            e.message@ == message@,
    {
        CommandError { message: String::from_str(message) }
    }

    /// The failure that the boundary reports for an engine failure: the
    /// engine's descriptive text, sanitized.
    pub fn from_error(err: &LoaderError) -> (e: CommandError)
        ensures
            e.message@ == sanitized(err.text()),
    {
        let raw = err.message();
        CommandError { message: sanitize_error_message(raw.as_str()) }
    }
}

/// The text that reports an argument missing under both of its names.
pub open spec fn missing_argument(snake_name: Seq<char>, camel_name: Seq<char>) -> Seq<char> {
    "missing "@ + camel_name + "/"@ + snake_name
}

/// Picks the value of an argument that may arrive under a snake-case or a
/// camel-case name: the snake-case one if it is there, else the camel-case
/// one, else a failure that names both.
pub fn resolve_dual_i64_arg(
    snake_case: Option<i64>,
    camel_case: Option<i64>,
    snake_name: &str,
    camel_name: &str,
) -> (r: Result<i64, CommandError>)
    ensures
        match r {
            Ok(v) => snake_case == Some(v) || (snake_case is None && camel_case == Some(v)),
            Err(e) => snake_case is None && camel_case is None && e.message@ == missing_argument(
                snake_name@,
                camel_name@,
            ),
        },
{
    match snake_case {
        Some(v) => Ok(v),
        None => match camel_case {
            Some(v) => Ok(v),
            None => {
                let mut message = join2("missing ", camel_name);
                message.append("/");
                message.append(snake_name);
                Err(CommandError { message })
            },
        },
    }
}

/// The value that both names of an argument resolve to, if either is there.
pub open spec fn resolved(snake_case: Option<i64>, camel_case: Option<i64>) -> Option<i64> {
    match snake_case {
        Some(v) => Some(v),
        None => camel_case,
    }
}

/// Whether `e` is what the boundary reports for the engine failure `err`.
pub open spec fn reports(e: CommandError, err: LoaderError) -> bool {
    e.message@ == sanitized(err.text())
}

/// The selected folder, for a caller that shows it.
pub fn get_current_folder(loader: &ImageLoader) -> (current: Option<FolderInfo>)
    requires
        loader.wf(),
    ensures
        match loader@.current_folder() {
            Some(f) => current matches Some(info) && info.id == f.id && info.path@ == f.path,
            None => current is None,
        },
{
    match loader.get_current_folder_id_and_path() {
        Some((id, path)) => Some(FolderInfo { id, path }),
        None => None,
    }
}

/// The answer to a request for an image: the bytes as they were read, the
/// selected folder, and whether the engine fell back to another folder.
pub fn image_response(loader: &ImageLoader, data: Vec<u8>, auto_switched: bool) -> (response:
    ImageResponse)
    requires
        loader.wf(),
    ensures
        response.data@ == data@,
        response.auto_switched_folder == auto_switched,
        match loader@.current_folder() {
            Some(f) => response.folder matches Some(info) && info.id == f.id && info.path@
                == f.path,
            None => response.folder is None,
        },
{
    ImageResponse { data, folder: get_current_folder(loader), auto_switched_folder: auto_switched }
}

/// Selects the next folder of the folder history, as the engine's
/// `get_next_folder` does, and reports its failure as the boundary does.
pub fn next_folder(loader: &mut ImageLoader, missing: &Vec<i64>) -> (r: Result<
    Option<FolderInfo>,
    CommandError,
>)
    requires
        old(loader).wf(),
    ensures
        final(loader).wf(),
        if old(loader)@.folders.len() == 0 {
            r matches Ok(None) && final(loader)@ == old(loader)@
        } else {
            &&& final(loader)@ == old(loader)@.cycled_back(missing@, old(loader)@.next_start())
            &&& match old(loader)@.cycle_back_stop(missing@, old(loader)@.next_start()) {
                Some(p) => r matches Ok(Some(info)) && info.id == old(loader)@.folders[p].id
                    && info.path@ == old(loader)@.folders[p].path,
                None => r matches Err(e) && reports(e, LoaderError::AllFoldersGone),
            }
        },
{
    match loader.get_next_folder(missing) {
        Ok(Some((id, path))) => Ok(Some(FolderInfo { id, path })),
        Ok(None) => Ok(None),
        Err(err) => Err(CommandError::from_error(&err)),
    }
}

/// Selects the previous folder of the folder history, as the engine's
/// `get_prev_folder` does, and reports its failure as the boundary does.
pub fn prev_folder(loader: &mut ImageLoader, missing: &Vec<i64>) -> (r: Result<
    Option<FolderInfo>,
    CommandError,
>)
    requires
        old(loader).wf(),
    ensures
        final(loader).wf(),
        if old(loader)@.folders.len() == 0 {
            r matches Ok(None) && final(loader)@ == old(loader)@
        } else {
            &&& final(loader)@ == old(loader)@.cycled(missing@, old(loader)@.prev_start())
            &&& match old(loader)@.cycle_stop(missing@, old(loader)@.prev_start()) {
                Some(p) => r matches Ok(Some(info)) && info.id == old(loader)@.folders[p].id
                    && info.path@ == old(loader)@.folders[p].path,
                None => r matches Err(e) && reports(e, LoaderError::AllFoldersGone),
            }
        },
{
    match loader.get_prev_folder(missing) {
        Ok(Some((id, path))) => Ok(Some(FolderInfo { id, path })),
        Ok(None) => Ok(None),
        Err(err) => Err(CommandError::from_error(&err)),
    }
}

/// The folder history, most recently added first, each folder with the
/// number of its images, and the list position of the selected folder, or -1.
pub fn get_folder_history(loader: &ImageLoader) -> (listing: FolderHistory)
    requires
        loader.wf(),
    ensures
        listing.history@.len() == loader@.folders.len(),
        forall|k: int|
            0 <= k < listing.history@.len() ==> {
                let item = #[trigger] listing.history@[k];
                let f = loader@.folders[k];
                item.id == f.id && item.path@ == f.path && item.image_count == f.images.len()
            },
        listing.current_index == match loader@.current_position() {
            Some(k) => k,
            None => -1,
        },
{
    let rows = loader.get_folder_history();
    let current = loader.get_current_folder_id();
    let mut items: Vec<FolderHistoryItem> = Vec::new();
    let mut current_index: i64 = -1;
    let mut i: usize = 0;
    proof {
        loader.lemma_wf();
    }
    while i < rows.len()
        invariant
            i <= rows.len(),
            loader@.wf(),
            current == loader@.current_folder_id,
            rows@.len() == loader@.folders.len(),
            forall|k: int|
                0 <= k < rows@.len() ==> {
                    let row = #[trigger] rows@[k];
                    let f = loader@.folders[k];
                    row.0 == f.id && row.1@ == f.path && row.2 == f.added_at && row.3
                        == f.images.len()
                },
            items@.len() == i,
            forall|k: int|
                0 <= k < i ==> {
                    let item = #[trigger] items@[k];
                    let f = loader@.folders[k];
                    item.id == f.id && item.path@ == f.path && item.image_count == f.images.len()
                },
            current_index == match loader@.current_position() {
                Some(k) if k < i => k,
                _ => -1,
            },
        decreases rows.len() - i,
    {
        let row = &rows[i];
        proof {
            assert(rows@[i as int].0 == loader@.folders[i as int].id);
            crate::img_loader::lemma_folder_position(loader@, i as int);
            assert(i <= i64::MAX) by {
                crate::folder::lemma_ranked(loader@.folders[i as int].images);
                assert(loader@.folders[i as int].id >= 1);
                lemma_folder_count(loader@, i as int);
            }
        }
        if current == Some(row.0) {
            current_index = i as i64;
        }
        items.push(FolderHistoryItem { id: row.0, path: row.1.clone(), image_count: row.3 });
        i += 1;
    }
    FolderHistory { history: items, current_index }
}

/// A well-formed store has no more folders than it has handed out
/// identifiers.
pub proof fn lemma_folder_count(s: crate::img_loader::LoaderView, upto: int)
    requires
        s.wf(),
        0 <= upto <= s.folders.len(),
    ensures
        upto < s.next_folder_id,
{
    let ids = Seq::new(upto as nat, |k: int| s.folders[k].id as int);
    let all = vstd::set_lib::set_int_range(1, s.next_folder_id as int);
    assert forall|a: int, b: int| 0 <= a < ids.len() && 0 <= b < ids.len() && a != b implies ids[a]
        != ids[b] by {
        if a < b {
            assert(s.folders[a].id != s.folders[b].id);
        } else {
            assert(s.folders[b].id != s.folders[a].id);
        }
    }
    ids.unique_seq_to_set();
    vstd::set_lib::lemma_int_range(1, s.next_folder_id as int);
    assert forall|id: int| ids.to_set().contains(id) implies all.contains(id) by {
        let k = choose|k: int| 0 <= k < ids.len() && ids[k] == id;
        assert(s.folders[k].id >= 1 && s.folders[k].id < s.next_folder_id);
    }
    vstd::set_lib::lemma_len_subset(ids.to_set(), all);
}

/// The visible images of the selected folder in sequential order with the
/// list position of the cursor.
pub fn get_normal_history(loader: &ImageLoader) -> (listing: ImageHistory)
    requires
        loader.wf(),
    ensures
        match loader@.current_folder() {
            None => listing.history@.len() == 0 && listing.current_index == -1,
            Some(f) => crate::items::item_views(listing.history@) == f.items_of(
                f.visible_normal(),
            ) && listing.current_index == crate::entries::pointer_of(
                f.visible_normal(),
                f.current_index,
            ),
        },
{
    let (history, current_index) = loader.get_normal_history();
    ImageHistory { history, current_index }
}

/// The visible entries of the selected folder's replay log with the list
/// position of the cursor.
pub fn get_random_history(loader: &ImageLoader) -> (listing: ImageHistory)
    requires
        loader.wf(),
    ensures
        match loader@.current_folder() {
            None => listing.history@.len() == 0 && listing.current_index == -1,
            Some(f) => crate::items::item_views(listing.history@) == f.items_of(
                f.visible_history(),
            ) && listing.current_index == crate::entries::pointer_of(
                f.visible_history(),
                f.current_random_index,
            ),
        },
{
    let (history, current_index) = loader.get_random_history();
    ImageHistory { history, current_index }
}

/// Replaces the display preferences, after checking that the timer flow mode
/// is one of its two values.
pub fn set_image_state(loader: &mut ImageLoader, state: &ImageState) -> (r: Result<
    (),
    CommandError,
>)
    requires
        old(loader).wf(),
    ensures
        final(loader).wf(),
        if state@.timer_flow_mode == "normal"@ || state@.timer_flow_mode == "random"@ {
            r is Ok && final(loader)@ == (crate::img_loader::LoaderView {
                state: state@,
                ..old(loader)@
            })
        } else {
            r matches Err(e) && e.message@ == "invalid timer flow mode"@ && final(loader)@ == old(
                loader,
            )@
        },
{
    if !state.has_valid_mode() {
        return Err(CommandError::invalid("invalid timer flow mode"));
    }
    loader.set_image_state(state);
    Ok(())
}

/// Whether the engine answers: it does.
pub fn is_healthy(loader: &ImageLoader) -> (healthy: bool)
    ensures
        healthy,
{
    let _ = loader.get_image_state();
    true
}

/// Deletes the folder that an argument names under either of its names.
pub fn delete_folder(
    loader: &mut ImageLoader,
    folder_id: Option<i64>,
    folder_id_camel: Option<i64>,
) -> (r: Result<(), CommandError>)
    requires
        old(loader).wf(),
    ensures
        final(loader).wf(),
        match resolved(folder_id, folder_id_camel) {
            Some(id) => r is Ok && final(loader)@ == old(loader)@.without_folder(id),
            None => r matches Err(e) && e.message@ == missing_argument("folder_id"@, "folderId"@)
                && final(loader)@ == old(loader)@,
        },
{
    let id = match resolve_dual_i64_arg(folder_id, folder_id_camel, "folder_id", "folderId") {
        Ok(id) => id,
        Err(e) => {
            return Err(e);
        },
    };
    loader.delete_folder_by_id(id);
    Ok(())
}

/// Selects the folder at a list position of the folder history, as the
/// engine's `set_folder_by_index` does, and reports its failure as the
/// boundary does.
pub fn set_folder_by_index(loader: &mut ImageLoader, index: i64, missing: &Vec<i64>) -> (r:
    Result<FolderInfo, CommandError>)
    requires
        old(loader).wf(),
    ensures
        final(loader).wf(),
        if old(loader)@.folders.len() == 0 {
            r matches Err(e) && reports(e, LoaderError::NoFolders) && final(loader)@ == old(
                loader,
            )@
        } else {
            let f = old(loader)@.folders[crate::entries::clamped_position(
                index,
                old(loader)@.folders.len() as int,
            )];
            if missing@.contains(f.id) {
                &&& r matches Err(e) && e.message@ == sanitized(
                    "folder no longer exists: "@ + f.path + " - reindex please"@,
                )
                &&& final(loader)@ == old(loader)@.without_folder(f.id)
            } else {
                &&& r matches Ok(info) && info.id == f.id && info.path@ == f.path
                &&& final(loader)@ == (crate::img_loader::LoaderView {
                    current_folder_id: Some(f.id),
                    ..old(loader)@
                })
            }
        },
{
    match loader.set_folder_by_index(index, missing) {
        Ok((id, path)) => Ok(FolderInfo { id, path }),
        Err(err) => Err(CommandError::from_error(&err)),
    }
}

/// What hiding an image through the boundary does, given what the engine's
/// operation does to the selected folder and which mode it exhausts.
pub open spec fn hides(
    pre: crate::img_loader::LoaderView,
    image_id: Option<i64>,
    hidden: spec_fn(crate::folder::FolderView, i64) -> crate::folder::FolderView,
    left: spec_fn(crate::folder::FolderView) -> int,
    exhausted: LoaderError,
    post: crate::img_loader::LoaderView,
    r: Result<(), CommandError>,
) -> bool {
    match image_id {
        None => r matches Err(e) && e.message@ == missing_argument("image_id"@, "imageId"@) && post
            == pre,
        Some(id) => match pre.current_folder() {
            None => r matches Err(e) && reports(e, LoaderError::NoFolderSelected) && post == pre,
            Some(f) => if !f.has_image(id) {
                r matches Err(e) && reports(e, LoaderError::RowNotFound) && post == pre
            } else {
                &&& post == pre.with_current(hidden(f, id))
                &&& if left(hidden(f, id)) == 0 {
                    r matches Err(e) && reports(e, exhausted)
                } else {
                    r is Ok
                }
            },
        },
    }
}

/// Hides an image of the selected folder from sequential mode; the image is
/// named by an argument under either of its names.
pub fn hide_normal_history_image(
    loader: &mut ImageLoader,
    image_id: Option<i64>,
    image_id_camel: Option<i64>,
) -> (r: Result<(), CommandError>)
    requires
        old(loader).wf(),
    ensures
        final(loader).wf(),
        hides(
            old(loader)@,
            resolved(image_id, image_id_camel),
            |f: crate::folder::FolderView, id: i64| f.hidden_from_normal(id),
            |f: crate::folder::FolderView| f.visible_normal().len() as int,
            LoaderError::AllHiddenNormal,
            final(loader)@,
            r,
        ),
{
    let id = match resolve_dual_i64_arg(image_id, image_id_camel, "image_id", "imageId") {
        Ok(id) => id,
        Err(e) => {
            return Err(e);
        },
    };
    match loader.hide_normal_history_image(id) {
        Ok(()) => Ok(()),
        Err(err) => Err(CommandError::from_error(&err)),
    }
}

/// Hides an image of the selected folder from random mode; the image is named
/// by an argument under either of its names.
pub fn hide_random_history_image(
    loader: &mut ImageLoader,
    image_id: Option<i64>,
    image_id_camel: Option<i64>,
) -> (r: Result<(), CommandError>)
    requires
        old(loader).wf(),
    ensures
        final(loader).wf(),
        hides(
            old(loader)@,
            resolved(image_id, image_id_camel),
            |f: crate::folder::FolderView, id: i64| f.hidden_from_random(id),
            |f: crate::folder::FolderView| f.visible_random().len() as int,
            LoaderError::AllHiddenRandom,
            final(loader)@,
            r,
        ),
{
    let id = match resolve_dual_i64_arg(image_id, image_id_camel, "image_id", "imageId") {
        Ok(id) => id,
        Err(e) => {
            return Err(e);
        },
    };
    match loader.hide_random_history_image(id) {
        Ok(()) => Ok(()),
        Err(err) => Err(CommandError::from_error(&err)),
    }
}

} // verus!
