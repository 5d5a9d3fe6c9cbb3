use random_pics::commands::{
    resolve_dual_i64_arg, sanitize_error_message, CommandError, ImageState,
};
use random_pics::db::{
    add_column_sql, column_is_missing, needs_path_scope_migration, HiddenImageTable,
};
use random_pics::error::{ErrorClass, LoaderError};
use random_pics::text::decimal;

#[test]
fn resolve_dual_i64_arg_accepts_camel_case() {
    let value = resolve_dual_i64_arg(None, Some(2), "image_id", "imageId").unwrap();
    assert_eq!(value, 2);
}

#[test]
fn resolve_dual_i64_arg_accepts_snake_case() {
    let value = resolve_dual_i64_arg(Some(1), None, "folder_id", "folderId").unwrap();
    assert_eq!(value, 1);
}

#[test]
fn resolve_dual_i64_arg_prefers_snake_case() {
    let value = resolve_dual_i64_arg(Some(7), Some(9), "image_id", "imageId").unwrap();
    assert_eq!(value, 7);
}

#[test]
fn resolve_dual_i64_arg_names_both_when_missing() {
    let err = resolve_dual_i64_arg(None, None, "folder_id", "folderId").unwrap_err();
    assert_eq!(err.message, "missing folderId/folder_id");
}

#[test]
fn sanitize_replaces_constraint_failures() {
    assert_eq!(
        sanitize_error_message("error: FOREIGN KEY constraint failed (code 787)"),
        "database constraint failed - try resetting history or reindexing"
    );
}

#[test]
fn sanitize_replaces_missing_rows() {
    assert_eq!(
        sanitize_error_message("query returned no rows"),
        "no data found - folder or image may have been deleted"
    );
}

#[test]
fn sanitize_replaces_hidden_exhaustion() {
    assert_eq!(
        sanitize_error_message(
            "all images for this folder are hidden in random mode - reindex to clear hidden images"
        ),
        "all images are hidden for this folder and mode - reindex to clear hidden images"
    );
}

#[test]
fn sanitize_passes_other_text_through() {
    assert_eq!(sanitize_error_message("no images found in folder"), "no images found in folder");
    assert_eq!(sanitize_error_message(""), "");
}

#[test]
fn sanitize_checks_constraint_failures_first() {
    assert_eq!(
        sanitize_error_message("query returned no rows; FOREIGN KEY constraint failed"),
        "database constraint failed - try resetting history or reindexing"
    );
}

#[test]
fn command_error_builders() {
    assert_eq!(CommandError::internal().message, "internal error");
    assert_eq!(CommandError::invalid("invalid timer flow mode").message, "invalid timer flow mode");
}

#[test]
fn command_error_from_engine_failure_is_sanitized() {
    assert_eq!(
        CommandError::from_error(&LoaderError::AllHiddenNormal).message,
        "all images are hidden for this folder and mode - reindex to clear hidden images"
    );
    assert_eq!(
        CommandError::from_error(&LoaderError::RowNotFound).message,
        "no data found - folder or image may have been deleted"
    );
    assert_eq!(
        CommandError::from_error(&LoaderError::ForeignKeyFailed).message,
        "database constraint failed - try resetting history or reindexing"
    );
    assert_eq!(
        CommandError::from_error(&LoaderError::NoFolderSelected).message,
        "no folder selected - pick a folder first"
    );
}

#[test]
fn every_failure_has_its_text_and_class() {
    let cases: Vec<(LoaderError, &str, ErrorClass)> = vec![
        (LoaderError::InvalidFolderPath, "invalid folder path", ErrorClass::Validation),
        (LoaderError::NotADirectory, "folder path is not a directory", ErrorClass::Validation),
        (LoaderError::UnreadableFolder, "folder path is unreadable", ErrorClass::Validation),
        (
            LoaderError::NoFolderSelected,
            "no folder selected - pick a folder first",
            ErrorClass::NotFound,
        ),
        (
            LoaderError::NoFoldersAvailable,
            "no folders available - pick a folder first",
            ErrorClass::NotFound,
        ),
        (
            LoaderError::AllFoldersDeleted,
            "all folders in history have been deleted - pick a folder first",
            ErrorClass::NotFound,
        ),
        (
            LoaderError::AllFoldersGone,
            "all folders in history no longer exist - reindex please",
            ErrorClass::NotFound,
        ),
        (LoaderError::NoFolders, "no folders available", ErrorClass::NotFound),
        (
            LoaderError::FolderGone { path: "/pics".to_string() },
            "folder no longer exists: /pics - deleted from history",
            ErrorClass::NotFound,
        ),
        (
            LoaderError::FolderMissing { path: "/pics".to_string() },
            "folder no longer exists: /pics - reindex please",
            ErrorClass::NotFound,
        ),
        (LoaderError::NoImagesFound, "no images found in folder", ErrorClass::NotFound),
        (LoaderError::NoImagesAvailable, "no images available", ErrorClass::NotFound),
        (
            LoaderError::ImageFileMissing { path: "/pics/a.jpg".to_string() },
            "image file not found: /pics/a.jpg - reindex please",
            ErrorClass::NotFound,
        ),
        (LoaderError::RowNotFound, "query returned no rows", ErrorClass::NotFound),
        (
            LoaderError::AllHiddenNormal,
            "all images for this folder are hidden in normal mode - reindex to clear hidden images",
            ErrorClass::Exhaustion,
        ),
        (
            LoaderError::AllHiddenRandom,
            "all images for this folder are hidden in random mode - reindex to clear hidden images",
            ErrorClass::Exhaustion,
        ),
        (
            LoaderError::AllImagesDeleted { skipped: 3 },
            "all images were deleted (3 found) - reindex please",
            ErrorClass::Exhaustion,
        ),
        (
            LoaderError::SkippedNoneValid { skipped: 12 },
            "skipped 12 deleted image(s), no valid images found - reindex please",
            ErrorClass::Exhaustion,
        ),
        (
            LoaderError::ImageReadFailed { detail: "permission denied".to_string() },
            "failed to read image: permission denied - reindex please",
            ErrorClass::Internal,
        ),
        (LoaderError::StoreFull, "database or disk is full", ErrorClass::Internal),
        (
            LoaderError::HistoryFull,
            "random history is full - reset the random history",
            ErrorClass::Internal,
        ),
        (LoaderError::ForeignKeyFailed, "FOREIGN KEY constraint failed", ErrorClass::Internal),
        (LoaderError::UniqueFailed, "UNIQUE constraint failed", ErrorClass::Internal),
    ];
    for (error, text, class) in cases {
        assert_eq!(error.message(), text);
        assert_eq!(error.class(), class);
    }
}

#[test]
fn decimal_writes_numbers() {
    assert_eq!(decimal(0), "0");
    assert_eq!(decimal(7), "7");
    assert_eq!(decimal(10), "10");
    assert_eq!(decimal(1905), "1905");
    assert_eq!(decimal(u64::MAX), "18446744073709551615");
}

#[test]
fn initial_image_state_has_the_store_defaults() {
    let state = ImageState::initial();
    assert!(!state.vertical_mirror);
    assert!(!state.horizontal_mirror);
    assert!(!state.greyscale);
    assert_eq!(state.timer_flow_mode, "random");
    assert!(state.show_folder_history_panel);
    assert!(state.show_top_controls);
    assert!(state.show_image_history_panel);
    assert!(state.show_bottom_controls);
    assert!(!state.is_fullscreen_image);
    assert!(!state.shortcut_hints_visible);
    assert_eq!(state.shortcut_hint_side, "left");
    assert!(state.has_valid_mode());
    assert_eq!(state.copy(), state);
}

#[test]
fn image_state_mode_must_be_one_of_two() {
    let mut state = ImageState::initial();
    state.timer_flow_mode = "normal".to_string();
    assert!(state.has_valid_mode());
    state.timer_flow_mode = "shuffle".to_string();
    assert!(!state.has_valid_mode());
    state.timer_flow_mode = "".to_string();
    assert!(!state.has_valid_mode());
}

#[test]
fn hidden_tables_have_their_statements() {
    assert_eq!(
        HiddenImageTable::Normal.select_sql(),
        "SELECT image_id FROM hidden_normal_images WHERE folder_id = ?1"
    );
    assert_eq!(
        HiddenImageTable::Random.select_sql(),
        "SELECT image_id FROM hidden_random_images WHERE folder_id = ?1"
    );
}

#[test]
fn missing_columns_are_added_only_on_a_clean_probe() {
    assert!(column_is_missing(Some(0)));
    assert!(!column_is_missing(Some(1)));
    assert!(!column_is_missing(None));
    assert_eq!(
        add_column_sql("last_image_id", "INTEGER"),
        "ALTER TABLE state ADD COLUMN last_image_id INTEGER"
    );
    assert_eq!(
        add_column_sql("timer_flow_mode", "TEXT NOT NULL DEFAULT 'random'"),
        "ALTER TABLE state ADD COLUMN timer_flow_mode TEXT NOT NULL DEFAULT 'random'"
    );
}

#[test]
fn path_scope_migration_is_due_when_a_rule_is_found() {
    assert!(!needs_path_scope_migration(0));
    assert!(needs_path_scope_migration(1));
    assert!(needs_path_scope_migration(2));
}
