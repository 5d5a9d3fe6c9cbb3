use random_pics::error::LoaderError;
use random_pics::img_loader::ImageLoader;
use random_pics::scanner::PathProbe;

fn three() -> ImageLoader {
    let mut loader = ImageLoader::new();
    assert_eq!(loader.select_folder("/one", 100), Ok((1, "/one".to_string())));
    assert_eq!(loader.select_folder("/two", 200), Ok((2, "/two".to_string())));
    assert_eq!(loader.select_folder("/three", 300), Ok((3, "/three".to_string())));
    loader
}

fn ids(loader: &ImageLoader) -> Vec<i64> {
    loader.get_folder_history().iter().map(|row| row.0).collect()
}

#[test]
fn a_new_store_is_empty() {
    let loader = ImageLoader::new();
    assert_eq!(loader.get_folder_history(), vec![]);
    assert_eq!(loader.get_current_folder_id(), None);
    assert_eq!(loader.get_current_folder_id_and_path(), None);
    assert_eq!(loader.get_last_image_id(), None);
    assert_eq!(loader.next_image_id(), 1);
}

#[test]
fn folders_stand_most_recently_added_first() {
    let loader = three();
    assert_eq!(
        loader.get_folder_history(),
        vec![
            (3, "/three".to_string(), 300, 0),
            (2, "/two".to_string(), 200, 0),
            (1, "/one".to_string(), 100, 0),
        ]
    );
    assert_eq!(loader.get_current_folder_id(), Some(3));
    assert_eq!(loader.get_current_folder_id_and_path(), Some((3, "/three".to_string())));
}

#[test]
fn folders_added_at_the_same_time_stand_by_identifier() {
    let mut loader = ImageLoader::new();
    loader.select_folder("/a", 500).unwrap();
    loader.select_folder("/b", 500).unwrap();
    loader.select_folder("/c", 400).unwrap();
    loader.select_folder("/d", 600).unwrap();
    assert_eq!(ids(&loader), vec![4, 1, 2, 3]);
}

#[test]
fn selecting_a_known_path_reuses_its_folder() {
    let mut loader = three();
    assert_eq!(loader.select_folder("/one", 999), Ok((1, "/one".to_string())));
    assert_eq!(loader.get_current_folder_id(), Some(1));
    assert_eq!(ids(&loader), vec![3, 2, 1]);
    assert_eq!(loader.get_folder_history()[2].2, 100);
    assert_eq!(loader.insert_folder("/two", 5), Ok(2));
    assert_eq!(loader.get_current_folder_id(), Some(1));
}

#[test]
fn selecting_by_path_uses_the_clock() {
    let mut loader = ImageLoader::new();
    assert_eq!(loader.set_current_folder_by_path("/now"), Ok((1, "/now".to_string())));
    let added_at = loader.get_folder_history()[0].2;
    assert!(added_at > 1_600_000_000_000_000);
    assert_eq!(loader.set_current_folder_by_path("/now"), Ok((1, "/now".to_string())));
    assert_eq!(loader.get_folder_history()[0].2, added_at);
}

#[test]
fn selecting_by_identifier_needs_a_folder_of_the_store() {
    let mut loader = three();
    assert_eq!(loader.set_current_folder_id(Some(2)), Ok(()));
    assert_eq!(loader.get_current_folder_id(), Some(2));
    assert_eq!(loader.set_current_folder_id(Some(9)), Err(LoaderError::RowNotFound));
    assert_eq!(loader.get_current_folder_id(), Some(2));
    assert_eq!(loader.set_current_folder_id(None), Ok(()));
    assert_eq!(loader.get_current_folder_id(), None);
}

#[test]
fn deleting_the_selected_folder_passes_the_selection_on() {
    let mut loader = three();
    loader.delete_folder_by_id(3);
    assert_eq!(ids(&loader), vec![2, 1]);
    assert_eq!(loader.get_current_folder_id(), Some(2));
    loader.set_current_folder_id(Some(1)).unwrap();
    loader.delete_folder_by_id(1);
    assert_eq!(loader.get_current_folder_id(), Some(2));
    loader.delete_folder_by_id(2);
    assert_eq!(loader.get_current_folder_id(), None);
    assert_eq!(ids(&loader), Vec::<i64>::new());
}

#[test]
fn deleting_another_folder_keeps_the_selection() {
    let mut loader = three();
    loader.delete_folder_by_id(1);
    assert_eq!(loader.get_current_folder_id(), Some(3));
    loader.delete_folder_by_id(77);
    assert_eq!(ids(&loader), vec![3, 2]);
}

#[test]
fn deleting_a_folder_takes_its_images_along() {
    let mut loader = three();
    let paths = vec!["/three/x.png".to_string()];
    assert_eq!(loader.index_folder_with_progress(3, &paths).0, Ok(1));
    assert_eq!(loader.image_path(1), Ok("/three/x.png".to_string()));
    loader.delete_folder_by_id(3);
    assert_eq!(loader.image_path(1), Err(LoaderError::RowNotFound));
}

#[test]
fn a_selected_folder_that_is_there_stays() {
    let mut loader = three();
    assert_eq!(loader.ensure_valid_current_folder(&vec![1, 2]), Ok((3, false)));
    assert_eq!(ids(&loader), vec![3, 2, 1]);
}

#[test]
fn a_selected_folder_that_is_gone_falls_back_along_the_history() {
    let mut loader = three();
    assert_eq!(loader.ensure_valid_current_folder(&vec![3, 2]), Ok((1, true)));
    assert_eq!(ids(&loader), vec![1]);
    assert_eq!(loader.get_current_folder_id(), Some(1));
}

#[test]
fn falling_back_keeps_stale_folders_behind_the_one_it_selects() {
    let mut loader = three();
    assert_eq!(loader.ensure_valid_current_folder(&vec![3, 1]), Ok((2, true)));
    assert_eq!(ids(&loader), vec![2, 1]);
}

#[test]
fn falling_back_fails_when_no_folder_is_left() {
    let mut loader = three();
    assert_eq!(
        loader.ensure_valid_current_folder(&vec![1, 2, 3]),
        Err(LoaderError::AllFoldersDeleted)
    );
    assert_eq!(ids(&loader), Vec::<i64>::new());
    assert_eq!(loader.get_current_folder_id(), None);
    assert_eq!(loader.ensure_valid_current_folder(&vec![]), Err(LoaderError::NoFoldersAvailable));
}

#[test]
fn falling_back_from_the_only_folder_leaves_none() {
    let mut loader = ImageLoader::new();
    loader.select_folder("/only", 1).unwrap();
    assert_eq!(loader.ensure_valid_current_folder(&vec![1]), Err(LoaderError::NoFoldersAvailable));
    assert_eq!(loader.get_current_folder_id(), None);
}

#[test]
fn without_a_selection_the_first_folder_that_is_there_is_selected() {
    let mut loader = three();
    loader.set_current_folder_id(None).unwrap();
    assert_eq!(loader.ensure_valid_current_folder(&vec![3]), Ok((2, true)));
    assert_eq!(ids(&loader), vec![2, 1]);
}

#[test]
fn next_folder_goes_toward_the_front_and_wraps() {
    let mut loader = three();
    loader.set_current_folder_id(Some(1)).unwrap();
    assert_eq!(loader.get_next_folder(&vec![]), Ok(Some((2, "/two".to_string()))));
    assert_eq!(loader.get_next_folder(&vec![]), Ok(Some((3, "/three".to_string()))));
    assert_eq!(loader.get_next_folder(&vec![]), Ok(Some((1, "/one".to_string()))));
    assert_eq!(loader.get_current_folder_id(), Some(1));
}

#[test]
fn prev_folder_goes_toward_the_back_and_wraps() {
    let mut loader = three();
    assert_eq!(loader.get_prev_folder(&vec![]), Ok(Some((2, "/two".to_string()))));
    assert_eq!(loader.get_prev_folder(&vec![]), Ok(Some((1, "/one".to_string()))));
    assert_eq!(loader.get_prev_folder(&vec![]), Ok(Some((3, "/three".to_string()))));
}

#[test]
fn cycling_deletes_the_stale_folders_it_passes() {
    let mut loader = three();
    assert_eq!(loader.get_prev_folder(&vec![2]), Ok(Some((1, "/one".to_string()))));
    assert_eq!(ids(&loader), vec![3, 1]);
    let mut loader = three();
    loader.set_current_folder_id(Some(1)).unwrap();
    assert_eq!(loader.get_next_folder(&vec![2, 1]), Ok(Some((3, "/three".to_string()))));
    assert_eq!(ids(&loader), vec![3, 1]);
}

#[test]
fn next_folder_skips_a_stale_folder_in_its_own_direction() {
    let mut loader = three();
    loader.set_current_folder_id(Some(1)).unwrap();
    assert_eq!(loader.get_next_folder(&vec![2]), Ok(Some((3, "/three".to_string()))));
    assert_eq!(ids(&loader), vec![3, 1]);
    assert_eq!(loader.get_current_folder_id(), Some(3));
}

#[test]
fn next_folder_wraps_to_the_end_past_stale_folders() {
    let mut loader = three();
    loader.select_folder("/four", 400).unwrap();
    loader.set_current_folder_id(Some(3)).unwrap();
    assert_eq!(ids(&loader), vec![4, 3, 2, 1]);
    assert_eq!(loader.get_next_folder(&vec![4, 1]), Ok(Some((2, "/two".to_string()))));
    assert_eq!(ids(&loader), vec![3, 2]);
    assert_eq!(loader.get_current_folder_id(), Some(2));
}

#[test]
fn next_folder_comes_back_to_the_selected_folder_when_no_other_is_there() {
    let mut loader = three();
    loader.set_current_folder_id(Some(2)).unwrap();
    assert_eq!(loader.get_next_folder(&vec![3, 1]), Ok(Some((2, "/two".to_string()))));
    assert_eq!(ids(&loader), vec![2]);
}

#[test]
fn prev_folder_skips_a_stale_folder_in_its_own_direction() {
    let mut loader = three();
    assert_eq!(loader.get_prev_folder(&vec![2]), Ok(Some((1, "/one".to_string()))));
    let mut loader = three();
    loader.set_current_folder_id(Some(1)).unwrap();
    assert_eq!(loader.get_prev_folder(&vec![3]), Ok(Some((2, "/two".to_string()))));
    assert_eq!(ids(&loader), vec![2, 1]);
}

#[test]
fn cycling_fails_when_every_folder_is_gone() {
    let mut loader = three();
    assert_eq!(loader.get_next_folder(&vec![1, 2, 3]), Err(LoaderError::AllFoldersGone));
    assert_eq!(ids(&loader), Vec::<i64>::new());
    assert_eq!(loader.get_current_folder_id(), None);
    assert_eq!(loader.get_next_folder(&vec![]), Ok(None));
    assert_eq!(loader.get_prev_folder(&vec![]), Ok(None));
}

#[test]
fn cycling_without_a_selection_starts_at_the_ends() {
    let mut loader = three();
    loader.set_current_folder_id(None).unwrap();
    assert_eq!(loader.get_next_folder(&vec![]), Ok(Some((1, "/one".to_string()))));
    loader.set_current_folder_id(None).unwrap();
    assert_eq!(loader.get_prev_folder(&vec![]), Ok(Some((3, "/three".to_string()))));
}

#[test]
fn a_folder_is_selected_by_its_position() {
    let mut loader = three();
    assert_eq!(loader.set_folder_by_index(1, &vec![]), Ok((2, "/two".to_string())));
    assert_eq!(loader.get_current_folder_id(), Some(2));
    assert_eq!(loader.set_folder_by_index(-3, &vec![]), Ok((3, "/three".to_string())));
    assert_eq!(loader.set_folder_by_index(10, &vec![]), Ok((1, "/one".to_string())));
}

#[test]
fn a_stale_folder_selected_by_position_is_deleted() {
    let mut loader = three();
    assert_eq!(
        loader.set_folder_by_index(1, &vec![2]),
        Err(LoaderError::FolderMissing { path: "/two".to_string() })
    );
    assert_eq!(ids(&loader), vec![3, 1]);
    assert_eq!(loader.get_current_folder_id(), Some(3));
    let mut empty = ImageLoader::new();
    assert_eq!(empty.set_folder_by_index(0, &vec![]), Err(LoaderError::NoFolders));
}

#[test]
fn a_sweep_deletes_every_stale_folder() {
    let mut loader = three();
    assert_eq!(
        loader.cleanup_stale_folders(&vec![3, 1]),
        vec!["/three".to_string(), "/one".to_string()]
    );
    assert_eq!(ids(&loader), vec![2]);
    assert_eq!(loader.get_current_folder_id(), Some(2));
    assert_eq!(loader.cleanup_stale_folders(&vec![]), Vec::<String>::new());
    assert_eq!(loader.cleanup_stale_folders(&vec![2]), vec!["/two".to_string()]);
    assert_eq!(loader.get_current_folder_id(), None);
}

#[test]
fn a_sweep_hands_the_selection_on_in_a_circle() {
    let mut loader = three();
    loader.set_current_folder_id(Some(1)).unwrap();
    loader.cleanup_stale_folders(&vec![1]);
    assert_eq!(loader.get_current_folder_id(), Some(3));
    let mut loader = three();
    loader.set_current_folder_id(Some(2)).unwrap();
    loader.cleanup_stale_folders(&vec![2, 1]);
    assert_eq!(loader.get_current_folder_id(), Some(3));
    let mut loader = three();
    loader.set_current_folder_id(Some(2)).unwrap();
    loader.cleanup_stale_folders(&vec![3]);
    assert_eq!(loader.get_current_folder_id(), Some(2));
}

#[test]
fn a_full_wipe_keeps_only_the_display_preferences() {
    let mut loader = three();
    let mut state = loader.get_image_state();
    state.greyscale = true;
    state.timer_flow_mode = "normal".to_string();
    loader.set_image_state(&state);
    loader.set_last_image_id(Some(4));
    loader.full_wipe();
    assert_eq!(ids(&loader), Vec::<i64>::new());
    assert_eq!(loader.get_current_folder_id(), None);
    assert_eq!(loader.get_last_image_id(), None);
    assert_eq!(loader.get_image_state(), state);
    assert_eq!(loader.select_folder("/again", 1), Ok((4, "/again".to_string())));
}

#[test]
fn the_timer_flow_mode_is_read_as_one_of_two() {
    let mut loader = ImageLoader::new();
    assert_eq!(loader.get_image_state().timer_flow_mode, "random");
    let mut state = loader.get_image_state();
    state.timer_flow_mode = "normal".to_string();
    loader.set_image_state(&state);
    assert_eq!(loader.get_image_state().timer_flow_mode, "normal");
    state.timer_flow_mode = "sideways".to_string();
    state.shortcut_hint_side = "right".to_string();
    loader.set_image_state(&state);
    assert_eq!(loader.get_image_state().timer_flow_mode, "random");
    assert_eq!(loader.get_image_state().shortcut_hint_side, "right");
}

#[test]
fn folder_paths_are_trimmed_and_must_hold_something() {
    assert_eq!(ImageLoader::folder_path_input("  /pics \n"), Ok("/pics".to_string()));
    assert_eq!(ImageLoader::folder_path_input("/my pics"), Ok("/my pics".to_string()));
    assert_eq!(ImageLoader::folder_path_input(""), Err(LoaderError::InvalidFolderPath));
    assert_eq!(ImageLoader::folder_path_input(" \t "), Err(LoaderError::InvalidFolderPath));
}

fn is_white(c: char) -> bool {
    let n = c as u32;
    (0x09..=0x0D).contains(&n)
        || n == 0x20
        || n == 0x85
        || n == 0xA0
        || n == 0x1680
        || (0x2000..=0x200A).contains(&n)
        || n == 0x2028
        || n == 0x2029
        || n == 0x202F
        || n == 0x205F
        || n == 0x3000
}

#[test]
fn exactly_the_white_space_characters_are_trimmed_at_both_ends() {
    let mut white = 0;
    for n in 0..=0x10FFFFu32 {
        let c = match char::from_u32(n) {
            Some(c) => c,
            None => continue,
        };
        let around = format!("{}a b{}", c, c);
        let kept = ImageLoader::folder_path_input(&around);
        if is_white(c) {
            white += 1;
            assert_eq!(kept, Ok("a b".to_string()), "U+{:04X}", n);
        } else {
            assert_eq!(kept, Ok(around), "U+{:04X}", n);
        }
    }
    assert_eq!(white, 25);
}

#[test]
fn white_space_inside_a_folder_path_stays() {
    assert_eq!(
        ImageLoader::folder_path_input("\u{3000}\t/a\u{A0}b \u{2028}/c\r\n"),
        Ok("/a\u{A0}b \u{2028}/c".to_string())
    );
    assert_eq!(
        ImageLoader::folder_path_input("\u{200B}/pics\u{FEFF}"),
        Ok("\u{200B}/pics\u{FEFF}".to_string())
    );
    assert_eq!(
        ImageLoader::folder_path_input(" \u{85}\u{1680}\u{202F}\u{205F}\u{2029}"),
        Err(LoaderError::InvalidFolderPath)
    );
}

#[test]
fn what_is_left_of_a_folder_path_must_hold_something() {
    assert_eq!(ImageLoader::folder_path_kept("/pics".to_string()), Ok("/pics".to_string()));
    assert_eq!(ImageLoader::folder_path_kept(" ".to_string()), Ok(" ".to_string()));
    assert_eq!(ImageLoader::folder_path_kept(String::new()), Err(LoaderError::InvalidFolderPath));
}

#[test]
fn a_look_at_the_disk_decides_whether_a_folder_is_usable() {
    assert_eq!(
        ImageLoader::canonicalize_folder_path(PathProbe::Directory("/pics".to_string())),
        Ok("/pics".to_string())
    );
    assert_eq!(
        ImageLoader::canonicalize_folder_path(PathProbe::Unresolved),
        Err(LoaderError::InvalidFolderPath)
    );
    assert_eq!(
        ImageLoader::canonicalize_folder_path(PathProbe::NotDirectory),
        Err(LoaderError::NotADirectory)
    );
    assert_eq!(
        ImageLoader::canonicalize_folder_path(PathProbe::Unreadable),
        Err(LoaderError::UnreadableFolder)
    );
    assert_eq!(
        ImageLoader::canonicalize_folder_path(PathProbe::NotText),
        Err(LoaderError::InvalidFolderPath)
    );
}
