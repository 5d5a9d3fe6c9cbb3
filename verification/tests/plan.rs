use random_pics::commands::{
    delete_folder, get_current_folder, get_folder_history, get_normal_history,
    get_random_history, hide_normal_history_image, hide_random_history_image, image_response,
    is_healthy, next_folder, prev_folder, set_folder_by_index, set_image_state, FolderHistory,
    FolderHistoryItem, FolderInfo, ImageHistory, ImageHistoryItem, ImageResponse,
};
use random_pics::entries::Entry;
use random_pics::error::LoaderError;
use random_pics::img_loader::plan::IndexPlan;
use random_pics::img_loader::random::DrawAction;
use random_pics::img_loader::ImageLoader;
use random_pics::scanner::Progress;

fn lines(notes: &[Progress]) -> Vec<String> {
    notes.iter().map(|n| n.line()).collect()
}

fn two() -> ImageLoader {
    let mut loader = ImageLoader::new();
    loader.select_folder("/old", 100).unwrap();
    loader.select_folder("/pics", 200).unwrap();
    let found = vec!["/pics/a.jpg".to_string(), "/pics/b.jpg".to_string()];
    assert_eq!(loader.index_folder_with_progress(2, &found).0, Ok(2));
    loader
}

#[test]
fn a_folder_with_images_needs_no_scan() {
    let mut loader = two();
    let (plan, notes) = loader.ensure_images_indexed_with_progress(&vec![], false);
    assert_eq!(plan, Ok(IndexPlan { folder_id: 2, auto_switched: false, scan: None }));
    assert_eq!(lines(&notes), vec!["scan:start /pics", "scan:skip already indexed count=2"]);
}

#[test]
fn a_forced_scan_is_always_due() {
    let mut loader = two();
    let (plan, notes) = loader.ensure_images_indexed_with_progress(&vec![], true);
    assert_eq!(
        plan,
        Ok(IndexPlan { folder_id: 2, auto_switched: false, scan: Some("/pics".to_string()) })
    );
    assert_eq!(lines(&notes), vec!["scan:start /pics"]);
}

#[test]
fn falling_back_plans_the_scan_of_the_folder_arrived_at() {
    let mut loader = two();
    assert_eq!(
        loader.ensure_images_indexed(&vec![2]),
        Ok(IndexPlan { folder_id: 1, auto_switched: true, scan: Some("/old".to_string()) })
    );
    assert_eq!(loader.get_current_folder_id(), Some(1));
    assert_eq!(loader.get_folder_history().len(), 1);
}

#[test]
fn falling_back_is_reported_step_by_step() {
    let mut loader = two();
    loader.select_folder("/newer", 300).unwrap();
    loader.select_folder("/newest", 400).unwrap();
    assert_eq!(
        lines(&loader.validation_notes(&vec![4, 3, 1])),
        vec![
            "folder deleted: /newest",
            "cleaning up deleted folder: /newer",
            "switched to folder: /pics",
        ]
    );
    assert_eq!(lines(&loader.validation_notes(&vec![3, 1])), Vec::<String>::new());
    let (plan, notes) = loader.ensure_images_indexed_with_progress(&vec![4, 3, 1], false);
    assert_eq!(plan, Ok(IndexPlan { folder_id: 2, auto_switched: true, scan: None }));
    assert_eq!(
        lines(&notes),
        vec![
            "folder deleted: /newest",
            "cleaning up deleted folder: /newer",
            "switched to folder: /pics",
            "scan:start /pics",
            "scan:skip already indexed count=2",
        ]
    );
    let (plan, notes) = loader.ensure_images_indexed_with_progress(&vec![2, 1], false);
    assert_eq!(plan, Err(LoaderError::AllFoldersDeleted));
    assert_eq!(
        lines(&notes),
        vec!["folder deleted: /pics", "cleaning up deleted folder: /old"]
    );
}

#[test]
fn falling_back_without_a_selection_reports_no_deletion_of_it() {
    let mut loader = two();
    loader.set_current_folder_id(None).unwrap();
    assert_eq!(
        lines(&loader.validation_notes(&vec![2])),
        vec!["cleaning up deleted folder: /pics", "switched to folder: /old"]
    );
}

#[test]
fn no_plan_without_a_folder() {
    let mut loader = ImageLoader::new();
    assert_eq!(loader.ensure_images_indexed(&vec![]), Err(LoaderError::NoFoldersAvailable));
    let (plan, notes) = loader.ensure_images_indexed_with_progress(&vec![], true);
    assert_eq!(plan, Err(LoaderError::NoFoldersAvailable));
    assert_eq!(notes, vec![]);
    let mut loader = two();
    assert_eq!(loader.ensure_images_indexed(&vec![1, 2]), Err(LoaderError::AllFoldersDeleted));
}

#[test]
fn selecting_a_folder_plans_its_scan() {
    let mut loader = two();
    let (plan, notes) = loader.select_folder_and_plan("/new", 300);
    assert_eq!(
        plan,
        Ok(IndexPlan { folder_id: 3, auto_switched: false, scan: Some("/new".to_string()) })
    );
    assert_eq!(lines(&notes), vec!["scan:start /new"]);
    let (plan, _) = loader.select_folder_and_plan("/pics", 400);
    assert_eq!(plan, Ok(IndexPlan { folder_id: 2, auto_switched: false, scan: None }));
    assert_eq!(loader.get_current_folder_id(), Some(2));
}

#[test]
fn selecting_a_folder_by_the_clock_plans_its_scan() {
    let mut loader = two();
    assert_eq!(
        loader.set_current_folder_and_index("/fresh"),
        Ok(IndexPlan { folder_id: 3, auto_switched: false, scan: Some("/fresh".to_string()) })
    );
    assert_eq!(loader.get_folder_history()[0].0, 3);
    let (plan, notes) = loader.set_current_folder_and_index_with_progress("/pics");
    assert_eq!(plan, Ok(IndexPlan { folder_id: 2, auto_switched: false, scan: None }));
    assert_eq!(lines(&notes), vec!["scan:start /pics", "scan:skip already indexed count=2"]);
}

#[test]
fn reindexing_plans_a_scan_of_the_emptied_folder() {
    let mut loader = two();
    let (plan, notes) = loader.reindex_current_folder_with_progress(&vec![]);
    assert_eq!(
        plan,
        Ok(IndexPlan { folder_id: 2, auto_switched: false, scan: Some("/pics".to_string()) })
    );
    assert_eq!(lines(&notes), vec!["scan:start /pics"]);
    assert_eq!(loader.folders()[0].images.len(), 0);
    let (plan, notes) = loader.reindex_current_folder_with_progress(&vec![2]);
    assert_eq!(plan, Err(LoaderError::FolderGone { path: "/pics".to_string() }));
    assert_eq!(notes, vec![]);
    assert_eq!(loader.get_current_folder_id(), Some(1));
}

#[test]
fn the_boundary_lists_the_folder_history() {
    let mut loader = two();
    assert_eq!(
        get_folder_history(&loader),
        FolderHistory {
            history: vec![
                FolderHistoryItem { id: 2, path: "/pics".to_string(), image_count: 2 },
                FolderHistoryItem { id: 1, path: "/old".to_string(), image_count: 0 },
            ],
            current_index: 0,
        }
    );
    loader.set_current_folder_id(Some(1)).unwrap();
    assert_eq!(get_folder_history(&loader).current_index, 1);
    loader.set_current_folder_id(None).unwrap();
    assert_eq!(get_folder_history(&loader).current_index, -1);
    assert_eq!(
        get_folder_history(&ImageLoader::new()),
        FolderHistory { history: vec![], current_index: -1 }
    );
}

#[test]
fn the_boundary_names_the_selected_folder() {
    let loader = two();
    let folder = FolderInfo { id: 2, path: "/pics".to_string() };
    assert_eq!(get_current_folder(&loader), Some(folder.clone()));
    assert_eq!(
        image_response(&loader, vec![7, 8], true),
        ImageResponse { data: vec![7, 8], folder: Some(folder), auto_switched_folder: true }
    );
    assert_eq!(get_current_folder(&ImageLoader::new()), None);
    assert!(is_healthy(&loader));
}

#[test]
fn the_boundary_cycles_folders() {
    let mut loader = two();
    assert_eq!(
        prev_folder(&mut loader, &vec![]),
        Ok(Some(FolderInfo { id: 1, path: "/old".to_string() }))
    );
    assert_eq!(
        next_folder(&mut loader, &vec![]),
        Ok(Some(FolderInfo { id: 2, path: "/pics".to_string() }))
    );
    let failure = next_folder(&mut loader, &vec![1, 2]).unwrap_err();
    assert_eq!(failure.message, "all folders in history no longer exist - reindex please");
    assert_eq!(next_folder(&mut loader, &vec![]), Ok(None));
}

#[test]
fn the_boundary_selects_folders_by_position() {
    let mut loader = two();
    assert_eq!(
        set_folder_by_index(&mut loader, 1, &vec![]),
        Ok(FolderInfo { id: 1, path: "/old".to_string() })
    );
    let failure = set_folder_by_index(&mut loader, 0, &vec![2]).unwrap_err();
    assert_eq!(failure.message, "folder no longer exists: /pics - reindex please");
    let mut empty = ImageLoader::new();
    assert_eq!(
        set_folder_by_index(&mut empty, 0, &vec![]).unwrap_err().message,
        "no folders available"
    );
}

#[test]
fn the_boundary_deletes_folders_under_either_name() {
    let mut loader = two();
    assert_eq!(delete_folder(&mut loader, Some(1), None), Ok(()));
    assert_eq!(delete_folder(&mut loader, None, Some(2)), Ok(()));
    assert_eq!(loader.get_folder_history().len(), 0);
    assert_eq!(
        delete_folder(&mut loader, None, None).unwrap_err().message,
        "missing folderId/folder_id"
    );
}

#[test]
fn the_boundary_hides_images_under_either_name() {
    let mut loader = two();
    assert_eq!(hide_normal_history_image(&mut loader, Some(1), None), Ok(()));
    assert_eq!(
        hide_normal_history_image(&mut loader, None, Some(2)).unwrap_err().message,
        "all images are hidden for this folder and mode - reindex to clear hidden images"
    );
    assert_eq!(hide_random_history_image(&mut loader, None, Some(1)), Ok(()));
    assert_eq!(
        hide_random_history_image(&mut loader, Some(9), None).unwrap_err().message,
        "no data found - folder or image may have been deleted"
    );
    assert_eq!(
        hide_random_history_image(&mut loader, None, None).unwrap_err().message,
        "missing imageId/image_id"
    );
    let mut empty = ImageLoader::new();
    assert_eq!(
        hide_normal_history_image(&mut empty, Some(1), None).unwrap_err().message,
        "no folder selected - pick a folder first"
    );
}

#[test]
fn the_boundary_lists_both_histories() {
    let mut loader = two();
    loader.get_next_image().unwrap();
    assert_eq!(
        get_normal_history(&loader),
        ImageHistory {
            history: vec![
                ImageHistoryItem { image_id: 1, order_index: 0, path: "/pics/a.jpg".to_string() },
                ImageHistoryItem { image_id: 2, order_index: 1, path: "/pics/b.jpg".to_string() },
            ],
            current_index: 0,
        }
    );
    assert_eq!(get_random_history(&loader), ImageHistory { history: vec![], current_index: -1 });
}

#[test]
fn the_boundary_refuses_an_unknown_timer_flow_mode() {
    let mut loader = two();
    let mut state = loader.get_image_state();
    state.timer_flow_mode = "loop".to_string();
    state.greyscale = true;
    assert_eq!(
        set_image_state(&mut loader, &state).unwrap_err().message,
        "invalid timer flow mode"
    );
    assert!(!loader.get_image_state().greyscale);
    state.timer_flow_mode = "normal".to_string();
    assert_eq!(set_image_state(&mut loader, &state), Ok(()));
    assert_eq!(loader.get_image_state(), state);
}

#[test]
fn a_request_needs_a_folder_and_an_image_of_it() {
    let loader = two();
    assert_eq!(
        loader.probe_request(Some(Entry { order_index: 0, image_id: 77 })),
        DrawAction::Fail(LoaderError::RowNotFound)
    );
    assert_eq!(
        ImageLoader::new().probe_request(Some(Entry { order_index: 0, image_id: 1 })),
        DrawAction::Fail(LoaderError::NoFolderSelected)
    );
}
