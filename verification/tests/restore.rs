use random_pics::entries::{
    clamp_position, find_first_above, find_last_below, find_position, repair_cursor,
    visible_entries, Entry,
};
use random_pics::error::LoaderError;
use random_pics::img_loader::ImageLoader;
use std::collections::HashSet;

fn entries(pairs: &[(i64, i64)]) -> Vec<Entry> {
    pairs.iter().map(|&(order_index, image_id)| Entry { order_index, image_id }).collect()
}

fn restored() -> ImageLoader {
    let mut loader = ImageLoader::new();
    assert_eq!(loader.restore_folder(4, "/late", 900), Ok(()));
    assert_eq!(loader.restore_folder(2, "/early", 100), Ok(()));
    assert_eq!(loader.restore_image(2, 10, "/early/a.jpg"), Ok(()));
    assert_eq!(loader.restore_image(4, 11, "/late/b.jpg"), Ok(()));
    assert_eq!(loader.restore_image(2, 15, "/early/c.jpg"), Ok(()));
    loader
}

#[test]
fn rows_go_back_to_their_places() {
    let loader = restored();
    assert_eq!(
        loader.get_folder_history(),
        vec![(4, "/late".to_string(), 900, 1), (2, "/early".to_string(), 100, 2)]
    );
    assert_eq!(loader.next_image_id(), 16);
    assert_eq!(loader.image_path(15), Ok("/early/c.jpg".to_string()));
    assert_eq!(loader.get_current_folder_id(), None);
}

#[test]
fn new_rows_take_identifiers_behind_the_restored_ones() {
    let mut loader = restored();
    assert_eq!(loader.select_folder("/new", 1_000), Ok((5, "/new".to_string())));
    let found = vec!["/new/x.jpg".to_string()];
    assert_eq!(loader.index_folder_with_progress(5, &found).0, Ok(1));
    assert_eq!(loader.image_path(16), Ok("/new/x.jpg".to_string()));
}

#[test]
fn folder_rows_must_be_new() {
    let mut loader = restored();
    assert_eq!(loader.restore_folder(4, "/other", 1), Err(LoaderError::UniqueFailed));
    assert_eq!(loader.restore_folder(9, "/late", 1), Err(LoaderError::UniqueFailed));
    assert_eq!(loader.restore_folder(0, "/zero", 1), Err(LoaderError::UniqueFailed));
    assert_eq!(loader.restore_folder(-1, "/minus", 1), Err(LoaderError::UniqueFailed));
    assert_eq!(loader.restore_folder(i64::MAX, "/max", 1), Err(LoaderError::UniqueFailed));
    assert_eq!(loader.get_folder_history().len(), 2);
}

#[test]
fn image_rows_must_belong_and_ascend() {
    let mut loader = restored();
    assert_eq!(loader.restore_image(3, 20, "/x.jpg"), Err(LoaderError::ForeignKeyFailed));
    assert_eq!(loader.restore_image(2, 15, "/early/d.jpg"), Err(LoaderError::UniqueFailed));
    assert_eq!(loader.restore_image(4, 12, "/late/d.jpg"), Err(LoaderError::UniqueFailed));
    assert_eq!(loader.restore_image(2, 20, "/early/a.jpg"), Err(LoaderError::UniqueFailed));
    assert_eq!(loader.restore_image(2, i64::MAX, "/early/z.jpg"), Err(LoaderError::UniqueFailed));
    assert_eq!(loader.restore_image(4, 20, "/early/a.jpg"), Ok(()));
    assert_eq!(loader.next_image_id(), 21);
}

#[test]
fn marks_must_name_an_image_of_the_folder() {
    let mut loader = restored();
    assert_eq!(loader.restore_hidden(2, 10, false), Ok(()));
    assert_eq!(loader.restore_hidden(2, 15, true), Ok(()));
    assert_eq!(loader.restore_hidden(2, 11, false), Err(LoaderError::ForeignKeyFailed));
    assert_eq!(loader.restore_hidden(7, 10, true), Err(LoaderError::ForeignKeyFailed));
    assert_eq!(loader.restore_lap(4, 11), Ok(()));
    assert_eq!(loader.restore_lap(4, 10), Err(LoaderError::ForeignKeyFailed));
    assert_eq!(loader.restore_lap(8, 11), Err(LoaderError::ForeignKeyFailed));
    let early = &loader.folders()[1];
    assert!(early.hidden_normal.contains(&10));
    assert!(!early.hidden_normal.contains(&15));
    assert!(early.hidden_random.contains(&15));
    assert!(loader.folders()[0].lap.contains(&11));
}

#[test]
fn log_entries_must_ascend_within_the_index_space() {
    let mut loader = restored();
    assert_eq!(loader.restore_history(2, 3, 15), Ok(()));
    assert_eq!(loader.restore_history(2, 3, 10), Err(LoaderError::UniqueFailed));
    assert_eq!(loader.restore_history(2, 2, 10), Err(LoaderError::UniqueFailed));
    assert_eq!(loader.restore_history(2, 7, 10), Ok(()));
    assert_eq!(loader.restore_history(2, 1_000_000_000, 10), Err(LoaderError::UniqueFailed));
    assert_eq!(loader.restore_history(2, 999_999_999, 15), Ok(()));
    assert_eq!(loader.restore_history(2, 8, 11), Err(LoaderError::ForeignKeyFailed));
    assert_eq!(loader.restore_history(6, 8, 10), Err(LoaderError::ForeignKeyFailed));
    assert_eq!(loader.restore_history(4, -1, 11), Err(LoaderError::UniqueFailed));
    assert_eq!(loader.folders()[1].history, entries(&[(3, 15), (7, 10), (999_999_999, 15)]));
}

#[test]
fn a_full_log_refuses_an_appended_draw() {
    let mut loader = restored();
    loader.set_current_folder_id(Some(2)).unwrap();
    loader.restore_history(2, 999_999_999, 15).unwrap();
    let mut draw = random_pics::img_loader::random::DrawState::new();
    let start = random_pics::img_loader::random::DrawEvent::Start;
    let item = match loader.get_force_random_image(&mut draw, start, true) {
        random_pics::img_loader::random::DrawAction::Probe(item) => item,
        other => panic!("unexpected {:?}", other),
    };
    let found = random_pics::img_loader::random::DrawEvent::Probed {
        image_id: item.image_id,
        exists: true,
    };
    assert_eq!(
        loader.get_force_random_image(&mut draw, found, true),
        random_pics::img_loader::random::DrawAction::Fail(LoaderError::HistoryFull)
    );
    assert_eq!(loader.folders()[1].history.len(), 1);
}

#[test]
fn cursors_are_repaired_as_they_go_back() {
    let mut loader = restored();
    loader.restore_history(2, 0, 10).unwrap();
    loader.restore_history(2, 4, 15).unwrap();
    assert_eq!(loader.restore_cursors(2, 1, 4), Ok(()));
    assert_eq!(loader.folders()[1].current_index, 1);
    assert_eq!(loader.folders()[1].current_random_index, 4);
    assert_eq!(loader.restore_cursors(2, 5, 2), Ok(()));
    assert_eq!(loader.folders()[1].current_index, 1);
    assert_eq!(loader.folders()[1].current_random_index, 0);
    assert_eq!(loader.restore_cursors(2, -7, -1), Ok(()));
    assert_eq!(loader.folders()[1].current_index, -1);
    assert_eq!(loader.folders()[1].current_random_index, -1);
    assert_eq!(loader.restore_cursors(4, 3, 3), Ok(()));
    assert_eq!(loader.folders()[0].current_index, 0);
    assert_eq!(loader.folders()[0].current_random_index, -1);
    assert_eq!(loader.restore_cursors(5, 0, 0), Err(LoaderError::ForeignKeyFailed));
}

#[test]
fn used_up_identifiers_refuse_new_rows() {
    let mut loader = ImageLoader::new();
    assert_eq!(loader.restore_folder(i64::MAX - 1, "/last", 1), Ok(()));
    assert_eq!(loader.select_folder("/more", 2), Err(LoaderError::StoreFull));
    assert_eq!(loader.insert_folder("/more", 2), Err(LoaderError::StoreFull));
    assert_eq!(loader.select_folder("/last", 2), Ok((i64::MAX - 1, "/last".to_string())));
    assert_eq!(loader.get_folder_history().len(), 1);
    assert_eq!(loader.restore_image(i64::MAX - 1, i64::MAX - 2, "/last/a.jpg"), Ok(()));
    let one = vec!["/last/b.jpg".to_string()];
    let two = vec!["/last/b.jpg".to_string(), "/last/c.jpg".to_string()];
    assert_eq!(
        loader.index_folder_with_progress(i64::MAX - 1, &two),
        (Err(LoaderError::StoreFull), vec![])
    );
    assert_eq!(loader.folders()[0].images.len(), 1);
    assert_eq!(loader.index_folder_with_progress(i64::MAX - 1, &one).0, Ok(2));
    assert_eq!(loader.image_path(i64::MAX - 1), Ok("/last/b.jpg".to_string()));
    assert_eq!(loader.next_image_id(), i64::MAX);
    let same = vec!["/last/a.jpg".to_string()];
    assert_eq!(
        loader.index_folder_with_progress(i64::MAX - 1, &same),
        (Err(LoaderError::StoreFull), vec![])
    );
}

#[test]
fn a_restored_store_navigates() {
    let mut loader = restored();
    loader.restore_cursors(2, 0, -1).unwrap();
    loader.set_current_folder_id(Some(2)).unwrap();
    loader.set_last_image_id(Some(10));
    assert_eq!(loader.get_last_image_id(), Some(10));
    let shown = loader.get_next_image().unwrap();
    assert_eq!((shown.image_id, shown.order_index), (15, 1));
    assert_eq!(shown.path, "/early/c.jpg");
}

#[test]
fn entry_lists_are_searched_by_order_index() {
    let list = entries(&[(0, 7), (2, 8), (5, 9)]);
    assert_eq!(find_position(&list, 2), Some(1));
    assert_eq!(find_position(&list, 3), None);
    assert_eq!(find_first_above(&list, -1), Some(0));
    assert_eq!(find_first_above(&list, 2), Some(2));
    assert_eq!(find_first_above(&list, 5), None);
    assert_eq!(find_last_below(&list, 5), Some(1));
    assert_eq!(find_last_below(&list, 0), None);
    assert_eq!(find_last_below(&list, 100), Some(2));
}

#[test]
fn cursors_are_repaired_to_the_nearest_entry_below() {
    let list = entries(&[(0, 7), (2, 8), (5, 9)]);
    assert_eq!(repair_cursor(&list, -1), -1);
    assert_eq!(repair_cursor(&list, 2), 2);
    assert_eq!(repair_cursor(&list, 3), 2);
    assert_eq!(repair_cursor(&list, 9), 5);
    let later = entries(&[(4, 7), (6, 8)]);
    assert_eq!(repair_cursor(&later, 1), 6);
    assert_eq!(repair_cursor(&Vec::new(), 1), -1);
}

#[test]
fn positions_are_brought_into_range() {
    assert_eq!(clamp_position(-1, 3), 0);
    assert_eq!(clamp_position(0, 3), 0);
    assert_eq!(clamp_position(2, 3), 2);
    assert_eq!(clamp_position(3, 3), 2);
    assert_eq!(clamp_position(i64::MAX, 1), 0);
}

#[test]
fn hidden_entries_are_filtered_out() {
    let list = entries(&[(0, 7), (1, 8), (2, 7), (3, 9)]);
    let hidden: HashSet<i64> = [7].into_iter().collect();
    assert_eq!(visible_entries(&list, &hidden), entries(&[(1, 8), (3, 9)]));
    assert_eq!(visible_entries(&list, &HashSet::new()), list);
}
