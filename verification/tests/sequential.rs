use random_pics::commands::ImageHistoryItem;
use random_pics::error::LoaderError;
use random_pics::img_loader::indexing::FileRead;
use random_pics::img_loader::ImageLoader;

fn abc() -> ImageLoader {
    let mut loader = ImageLoader::new();
    let (folder_id, path) = loader.select_folder("/pics", 1_000).unwrap();
    assert_eq!(folder_id, 1);
    assert_eq!(path, "/pics");
    let paths =
        vec!["/pics/a.jpg".to_string(), "/pics/b.jpg".to_string(), "/pics/c.jpg".to_string()];
    let (count, _) = loader.index_folder_with_progress(folder_id, &paths);
    assert_eq!(count, Ok(3));
    loader
}

fn item(image_id: i64, order_index: i64, path: &str) -> ImageHistoryItem {
    ImageHistoryItem { image_id, order_index, path: path.to_string() }
}

fn cursor(loader: &ImageLoader) -> i64 {
    loader.folders()[0].current_index
}

#[test]
fn four_steps_forward_yield_a_b_c_a() {
    let mut loader = abc();
    assert_eq!(cursor(&loader), -1);
    assert_eq!(loader.get_next_image(), Ok(item(1, 0, "/pics/a.jpg")));
    assert_eq!(loader.get_next_image(), Ok(item(2, 1, "/pics/b.jpg")));
    assert_eq!(loader.get_next_image(), Ok(item(3, 2, "/pics/c.jpg")));
    assert_eq!(loader.get_next_image(), Ok(item(1, 0, "/pics/a.jpg")));
    assert_eq!(cursor(&loader), 0);
}

#[test]
fn steps_forward_come_round_after_as_many_steps_as_images() {
    let mut loader = abc();
    let first = loader.get_next_image().unwrap();
    let mut last = first.clone();
    for _ in 0..3 {
        last = loader.get_next_image().unwrap();
    }
    assert_eq!(last, first);
}

#[test]
fn steps_backward_start_at_the_last_image_and_wrap() {
    let mut loader = abc();
    assert_eq!(loader.get_prev_image(), Ok(item(3, 2, "/pics/c.jpg")));
    assert_eq!(loader.get_prev_image(), Ok(item(2, 1, "/pics/b.jpg")));
    assert_eq!(loader.get_prev_image(), Ok(item(1, 0, "/pics/a.jpg")));
    assert_eq!(loader.get_prev_image(), Ok(item(3, 2, "/pics/c.jpg")));
}

#[test]
fn current_defaults_to_the_first_image_and_keeps_it() {
    let mut loader = abc();
    assert_eq!(loader.get_current_image_or_first(), Ok(item(1, 0, "/pics/a.jpg")));
    assert_eq!(cursor(&loader), 0);
    loader.get_next_image().unwrap();
    assert_eq!(loader.get_current_image_or_first(), Ok(item(2, 1, "/pics/b.jpg")));
    assert_eq!(cursor(&loader), 1);
}

#[test]
fn hiding_the_image_under_the_cursor_moves_the_cursor_down() {
    let mut loader = abc();
    loader.get_next_image().unwrap();
    loader.get_next_image().unwrap();
    assert_eq!(cursor(&loader), 1);
    assert_eq!(loader.hide_normal_history_image(2), Ok(()));
    assert_eq!(cursor(&loader), 0);
    assert_eq!(loader.get_current_image_or_first(), Ok(item(1, 0, "/pics/a.jpg")));
    assert_eq!(loader.get_next_image(), Ok(item(3, 2, "/pics/c.jpg")));
}

#[test]
fn hiding_the_first_image_under_the_cursor_moves_the_cursor_to_the_last() {
    let mut loader = abc();
    loader.get_next_image().unwrap();
    assert_eq!(cursor(&loader), 0);
    assert_eq!(loader.hide_normal_history_image(1), Ok(()));
    assert_eq!(cursor(&loader), 2);
}

#[test]
fn hiding_another_image_leaves_the_cursor() {
    let mut loader = abc();
    loader.get_next_image().unwrap();
    assert_eq!(loader.hide_normal_history_image(3), Ok(()));
    assert_eq!(cursor(&loader), 0);
    assert_eq!(loader.get_next_image(), Ok(item(2, 1, "/pics/b.jpg")));
    assert_eq!(loader.get_next_image(), Ok(item(1, 0, "/pics/a.jpg")));
}

#[test]
fn hiding_every_image_exhausts_sequential_mode() {
    let mut loader = abc();
    loader.get_next_image().unwrap();
    assert_eq!(loader.hide_normal_history_image(1), Ok(()));
    assert_eq!(loader.hide_normal_history_image(2), Ok(()));
    assert_eq!(loader.hide_normal_history_image(3), Err(LoaderError::AllHiddenNormal));
    assert_eq!(cursor(&loader), -1);
    assert_eq!(loader.get_next_image(), Err(LoaderError::AllHiddenNormal));
    assert_eq!(loader.get_prev_image(), Err(LoaderError::AllHiddenNormal));
    assert_eq!(loader.get_current_image_or_first(), Err(LoaderError::AllHiddenNormal));
    assert_eq!(loader.set_normal_image_by_index(0), Err(LoaderError::AllHiddenNormal));
    assert_eq!(loader.get_normal_history(), (vec![], -1));
}

#[test]
fn clearing_the_marks_makes_navigation_succeed_again() {
    let mut loader = abc();
    loader.hide_normal_history_image(1).unwrap();
    loader.hide_normal_history_image(2).unwrap();
    assert_eq!(loader.hide_normal_history_image(3), Err(LoaderError::AllHiddenNormal));
    assert_eq!(loader.get_next_image(), Err(LoaderError::AllHiddenNormal));
    let missing: Vec<i64> = vec![];
    assert_eq!(loader.reindex_current_folder(&missing), Ok((1, "/pics".to_string())));
    let paths = vec!["/pics/a.jpg".to_string()];
    let (count, _) = loader.index_folder_with_progress(1, &paths);
    assert_eq!(count, Ok(1));
    assert_eq!(loader.get_next_image(), Ok(item(4, 0, "/pics/a.jpg")));
}

#[test]
fn hiding_is_separate_for_each_mode() {
    let mut loader = abc();
    loader.hide_normal_history_image(2).unwrap();
    let (items, pointer) = loader.get_normal_history();
    assert_eq!(items, vec![item(1, 0, "/pics/a.jpg"), item(3, 2, "/pics/c.jpg")]);
    assert_eq!(pointer, -1);
    assert!(loader.folders()[0].hidden_normal.contains(&2));
    assert!(!loader.folders()[0].hidden_random.contains(&2));
}

#[test]
fn hiding_needs_a_folder_and_an_image_of_it() {
    let mut empty = ImageLoader::new();
    assert_eq!(empty.hide_normal_history_image(1), Err(LoaderError::NoFolderSelected));
    let mut loader = abc();
    assert_eq!(loader.hide_normal_history_image(99), Err(LoaderError::RowNotFound));
    assert!(!loader.folders()[0].hidden_normal.contains(&99));
}

#[test]
fn navigation_needs_a_selected_folder() {
    let mut loader = ImageLoader::new();
    assert_eq!(loader.get_next_image(), Err(LoaderError::NoFolderSelected));
    assert_eq!(loader.get_prev_image(), Err(LoaderError::NoFolderSelected));
    assert_eq!(loader.get_current_image_or_first(), Err(LoaderError::NoFolderSelected));
    assert_eq!(loader.set_normal_image_by_index(1), Err(LoaderError::NoFolderSelected));
    assert_eq!(loader.get_normal_history(), (vec![], -1));
}

#[test]
fn jumping_brings_the_position_into_range() {
    let mut loader = abc();
    assert_eq!(loader.set_normal_image_by_index(1), Ok(item(2, 1, "/pics/b.jpg")));
    assert_eq!(loader.set_normal_image_by_index(-5), Ok(item(1, 0, "/pics/a.jpg")));
    assert_eq!(loader.set_normal_image_by_index(3), Ok(item(3, 2, "/pics/c.jpg")));
    assert_eq!(loader.set_normal_image_by_index(i64::MAX), Ok(item(3, 2, "/pics/c.jpg")));
    loader.hide_normal_history_image(1).unwrap();
    assert_eq!(loader.set_normal_image_by_index(0), Ok(item(2, 1, "/pics/b.jpg")));
}

#[test]
fn history_lists_visible_images_and_the_cursor_position() {
    let mut loader = abc();
    let all = vec![
        item(1, 0, "/pics/a.jpg"),
        item(2, 1, "/pics/b.jpg"),
        item(3, 2, "/pics/c.jpg"),
    ];
    assert_eq!(loader.get_normal_history(), (all.clone(), -1));
    loader.get_next_image().unwrap();
    loader.get_next_image().unwrap();
    assert_eq!(loader.get_normal_history(), (all, 1));
    loader.hide_normal_history_image(1).unwrap();
    assert_eq!(
        loader.get_normal_history(),
        (vec![item(2, 1, "/pics/b.jpg"), item(3, 2, "/pics/c.jpg")], 0)
    );
}

#[test]
fn resetting_unsets_the_cursor() {
    let mut loader = abc();
    loader.get_next_image().unwrap();
    loader.get_next_image().unwrap();
    loader.reset_normal_history();
    assert_eq!(cursor(&loader), -1);
    assert_eq!(loader.get_next_image(), Ok(item(1, 0, "/pics/a.jpg")));
}

#[test]
fn a_missing_file_removes_the_row_of_the_current_image() {
    let mut loader = abc();
    loader.get_next_image().unwrap();
    let shown = loader.get_current_image_or_first().unwrap();
    assert_eq!(shown.image_id, 1);
    let failure = loader.load_by_image_id(shown.image_id, FileRead::NotFound).unwrap_err();
    assert_eq!(failure, LoaderError::ImageFileMissing { path: "/pics/a.jpg".to_string() });
    assert_eq!(failure.class(), random_pics::error::ErrorClass::NotFound);
    assert_eq!(loader.image_path(1), Err(LoaderError::RowNotFound));
    assert_eq!(loader.folders()[0].images.len(), 2);
    assert_eq!(loader.get_last_image_id(), Some(1));
    let fallback = loader.get_current_image_or_first().unwrap();
    assert_eq!(fallback, item(2, 0, "/pics/b.jpg"));
    assert_eq!(
        loader.load_by_image_id(fallback.image_id, FileRead::Data(vec![1, 2, 3])),
        Ok(vec![1, 2, 3])
    );
    assert_eq!(loader.get_last_image_id(), Some(2));
}

#[test]
fn removing_the_last_image_under_the_cursor_repairs_the_cursor() {
    let mut loader = abc();
    loader.get_prev_image().unwrap();
    assert_eq!(cursor(&loader), 2);
    assert!(loader.load_by_image_id(3, FileRead::NotFound).is_err());
    assert_eq!(cursor(&loader), 1);
    assert_eq!(loader.get_current_image_or_first(), Ok(item(2, 1, "/pics/b.jpg")));
}

#[test]
fn a_failed_read_keeps_the_row() {
    let mut loader = abc();
    assert_eq!(
        loader.load_by_image_id(2, FileRead::Failed("permission denied".to_string())),
        Err(LoaderError::ImageReadFailed { detail: "permission denied".to_string() })
    );
    assert_eq!(loader.image_path(2), Ok("/pics/b.jpg".to_string()));
    assert_eq!(loader.get_last_image_id(), Some(2));
}

#[test]
fn loading_an_unknown_image_changes_nothing() {
    let mut loader = abc();
    assert_eq!(
        loader.load_by_image_id(42, FileRead::Data(vec![9])),
        Err(LoaderError::RowNotFound)
    );
    assert_eq!(loader.get_last_image_id(), None);
}
