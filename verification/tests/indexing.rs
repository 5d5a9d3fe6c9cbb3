use random_pics::entries::list_has;
use random_pics::error::LoaderError;
use random_pics::img_loader::ImageLoader;
use random_pics::scanner::{FoundFile, Progress};

fn lines(notes: &[Progress]) -> Vec<String> {
    notes.iter().map(|n| n.line()).collect()
}

fn paths(count: usize) -> Vec<String> {
    (1..=count).map(|i| format!("/pics/{:04}.jpg", i)).collect()
}

fn found(path: &str, extension: Option<&str>) -> FoundFile {
    FoundFile { path: Some(path.to_string()), extension: extension.map(str::to_string) }
}

#[test]
fn a_scan_takes_in_the_images_in_the_order_of_the_walk() {
    let files = vec![
        found("/pics/z.PNG", Some("PNG")),
        found("/pics/notes.txt", Some("txt")),
        found("/pics/README", None),
        found("/pics/a.jpeg", Some("jpeg")),
        FoundFile { path: None, extension: Some("gif".to_string()) },
        found("/pics/sub/b.webp", Some("webp")),
        found("/pics/z.PNG", Some("PNG")),
    ];
    let (paths, notes) = ImageLoader::select_images(&files);
    assert_eq!(paths, vec!["/pics/z.PNG", "/pics/a.jpeg", "/pics/sub/b.webp", "/pics/z.PNG"]);
    assert_eq!(notes, vec![]);
    assert_eq!(ImageLoader::select_images(&vec![]), (vec![], vec![]));
}

#[test]
fn a_walk_reports_every_two_hundredth_image_it_finds() {
    let mut files: Vec<FoundFile> = Vec::new();
    for i in 0..450 {
        files.push(found(&format!("/pics/{}.txt", i), Some("txt")));
        files.push(found(&format!("/pics/{}.jpg", i), Some("jpg")));
    }
    let (paths, notes) = ImageLoader::select_images(&files);
    assert_eq!(paths.len(), 450);
    assert_eq!(paths[449], "/pics/449.jpg");
    assert_eq!(
        notes,
        vec![Progress::ScanFound { count: 200 }, Progress::ScanFound { count: 400 }]
    );
}

#[test]
fn supported_extensions_ignore_case() {
    for ext in ["jpeg", "jpg", "png", "gif", "webp", "JPG", "Jpeg", "PNG", "GiF", "WEBP"] {
        assert!(ImageLoader::is_supported_image_ext(ext), "{}", ext);
    }
    for ext in ["", "jp", "jpgg", "bmp", "tiff", "txt", "jpég", " png", "web"] {
        assert!(!ImageLoader::is_supported_image_ext(ext), "{}", ext);
    }
}

#[test]
fn a_scan_is_due_for_a_folder_without_images() {
    let mut loader = ImageLoader::new();
    loader.select_folder("/pics", 1).unwrap();
    let (request, notes) = loader.scan_request(1, false);
    assert_eq!(request, Ok(Some("/pics".to_string())));
    assert_eq!(lines(&notes), vec!["scan:start /pics"]);
}

#[test]
fn a_scan_is_skipped_for_a_folder_with_images_unless_forced() {
    let mut loader = ImageLoader::new();
    loader.select_folder("/pics", 1).unwrap();
    loader.index_folder_with_progress(1, &paths(2)).0.unwrap();
    let (request, notes) = loader.scan_request(1, false);
    assert_eq!(request, Ok(None));
    assert_eq!(lines(&notes), vec!["scan:start /pics", "scan:skip already indexed count=2"]);
    let (request, notes) = loader.scan_request(1, true);
    assert_eq!(request, Ok(Some("/pics".to_string())));
    assert_eq!(lines(&notes), vec!["scan:start /pics"]);
}

#[test]
fn a_scan_of_an_unknown_folder_is_refused() {
    let mut loader = ImageLoader::new();
    assert_eq!(loader.scan_request(5, false), (Err(LoaderError::RowNotFound), vec![]));
    assert_eq!(
        loader.index_folder_with_progress(5, &paths(1)),
        (Err(LoaderError::RowNotFound), vec![])
    );
}

#[test]
fn scanned_paths_become_images_in_their_order() {
    let mut loader = ImageLoader::new();
    loader.select_folder("/pics", 1).unwrap();
    let found = vec!["/pics/z.png".to_string(), "/pics/a.gif".to_string()];
    let (count, notes) = loader.index_folder_with_progress(1, &found);
    assert_eq!(count, Ok(2));
    assert_eq!(
        lines(&notes),
        vec![
            "scan:done total=2",
            "index:1/2 /pics/z.png",
            "index:2/2 /pics/a.gif",
            "index:done",
            "index:ready count=2",
        ]
    );
    assert_eq!(loader.image_path(1), Ok("/pics/z.png".to_string()));
    assert_eq!(loader.image_path(2), Ok("/pics/a.gif".to_string()));
    assert_eq!(loader.next_image_id(), 3);
    assert_eq!(loader.get_folder_history()[0].3, 2);
}

#[test]
fn paths_that_are_known_are_passed_over() {
    let mut loader = ImageLoader::new();
    loader.select_folder("/pics", 1).unwrap();
    let found = vec![
        "/pics/a.jpg".to_string(),
        "/pics/b.jpg".to_string(),
        "/pics/a.jpg".to_string(),
    ];
    assert_eq!(loader.index_folder_with_progress(1, &found).0, Ok(2));
    let again = vec!["/pics/b.jpg".to_string(), "/pics/c.jpg".to_string()];
    assert_eq!(loader.index_folder_with_progress(1, &again).0, Ok(3));
    assert_eq!(loader.image_path(3), Ok("/pics/c.jpg".to_string()));
    assert_eq!(loader.next_image_id(), 4);
}

#[test]
fn image_identifiers_are_unique_over_all_folders() {
    let mut loader = ImageLoader::new();
    loader.select_folder("/one", 1).unwrap();
    loader.select_folder("/two", 2).unwrap();
    let same = vec!["/shared/x.jpg".to_string()];
    assert_eq!(loader.index_folder_with_progress(1, &same).0, Ok(1));
    assert_eq!(loader.index_folder_with_progress(2, &same).0, Ok(1));
    assert_eq!(loader.find_image_owner(1), Some(1));
    assert_eq!(loader.find_image_owner(2), Some(0));
    assert_eq!(loader.find_image_owner(3), None);
}

#[test]
fn a_scan_that_finds_nothing_fails() {
    let mut loader = ImageLoader::new();
    loader.select_folder("/pics", 1).unwrap();
    let (count, notes) = loader.index_folder_with_progress(1, &vec![]);
    assert_eq!(count, Err(LoaderError::NoImagesFound));
    assert_eq!(lines(&notes), vec!["scan:done total=0", "index:error no images found"]);
}

#[test]
fn a_scan_reports_the_first_ten_every_hundredth_and_the_last() {
    let found = paths(250);
    let notes = Progress::indexed(&found);
    let done: Vec<u64> = notes
        .iter()
        .map(|n| match n {
            Progress::Indexed { done, total, .. } => {
                assert_eq!(*total, 250);
                *done
            }
            other => panic!("unexpected {:?}", other),
        })
        .collect();
    assert_eq!(done, vec![1, 2, 3, 4, 5, 6, 7, 8, 9, 10, 100, 200, 250]);
    assert_eq!(notes[10].line(), "index:100/250 /pics/0100.jpg");
}

#[test]
fn a_walk_reports_every_two_hundredth_file() {
    assert_eq!(Progress::scan_found(0), None);
    assert_eq!(Progress::scan_found(199), None);
    assert_eq!(Progress::scan_found(200), Some(Progress::ScanFound { count: 200 }));
    assert_eq!(Progress::scan_found(201), None);
    assert_eq!(Progress::scan_found(400).map(|n| n.line()), Some("scan:found 400".to_string()));
}

#[test]
fn progress_lines_carry_category_and_particulars() {
    assert_eq!(Progress::FolderDeleted { path: "/p".to_string() }.line(), "folder deleted: /p");
    assert_eq!(
        Progress::FolderCleaned { path: "/p".to_string() }.line(),
        "cleaning up deleted folder: /p"
    );
    assert_eq!(Progress::FolderSwitched { path: "/p".to_string() }.line(), "switched to folder: /p");
    assert_eq!(Progress::ScanStart { path: "/p".to_string() }.line(), "scan:start /p");
    assert_eq!(Progress::ScanSkip { count: 12 }.line(), "scan:skip already indexed count=12");
    assert_eq!(Progress::ScanFound { count: 200 }.line(), "scan:found 200");
    assert_eq!(Progress::ScanDone { total: 7 }.line(), "scan:done total=7");
    assert_eq!(
        Progress::Indexed { done: 3, total: 7, path: "/p/c.jpg".to_string() }.line(),
        "index:3/7 /p/c.jpg"
    );
    assert_eq!(Progress::IndexDone.line(), "index:done");
    assert_eq!(Progress::IndexError.line(), "index:error no images found");
    assert_eq!(Progress::IndexReady { count: 7 }.line(), "index:ready count=7");
}

#[test]
fn reindexing_empties_the_selected_folder() {
    let mut loader = ImageLoader::new();
    loader.select_folder("/pics", 1).unwrap();
    loader.index_folder_with_progress(1, &paths(3)).0.unwrap();
    loader.get_next_image().unwrap();
    loader.hide_normal_history_image(2).unwrap();
    loader.hide_random_history_image(3).unwrap();
    assert_eq!(loader.reindex_current_folder(&vec![]), Ok((1, "/pics".to_string())));
    let folder = &loader.folders()[0];
    assert_eq!(folder.images.len(), 0);
    assert_eq!(folder.current_index, -1);
    assert_eq!(folder.current_random_index, -1);
    assert!(folder.hidden_normal.is_empty());
    assert!(folder.hidden_random.is_empty());
    assert!(folder.lap.is_empty());
    assert_eq!(folder.history.len(), 0);
    assert_eq!(loader.index_folder_with_progress(1, &paths(2)).0, Ok(2));
    assert_eq!(loader.image_path(4), Ok("/pics/0001.jpg".to_string()));
}

#[test]
fn reindexing_a_folder_that_is_gone_deletes_it() {
    let mut loader = ImageLoader::new();
    loader.select_folder("/old", 1).unwrap();
    loader.select_folder("/pics", 2).unwrap();
    assert_eq!(
        loader.reindex_current_folder(&vec![2]),
        Err(LoaderError::FolderGone { path: "/pics".to_string() })
    );
    assert_eq!(loader.get_current_folder_id(), Some(1));
    assert_eq!(loader.get_folder_history().len(), 1);
    let mut empty = ImageLoader::new();
    assert_eq!(empty.reindex_current_folder(&vec![]), Err(LoaderError::NoFolderSelected));
}

#[test]
fn a_reported_list_is_searched_for_an_identifier() {
    assert!(list_has(&vec![4, 6], 6));
    assert!(list_has(&vec![4, 6, 4], 4));
    assert!(!list_has(&vec![4, 6], 5));
    assert!(!list_has(&vec![], 0));
}

#[test]
fn an_image_hidden_twice_is_marked_once() {
    let mut loader = ImageLoader::new();
    loader.select_folder("/pics", 1).unwrap();
    loader.index_folder_with_progress(1, &paths(3)).0.unwrap();
    loader.hide_normal_history_image(2).unwrap();
    loader.hide_normal_history_image(2).unwrap();
    loader.hide_random_history_image(3).unwrap();
    let folder = &loader.folders()[0];
    assert_eq!(folder.hidden_normal.len(), 1);
    assert!(folder.hidden_normal.contains(&2));
    assert_eq!(folder.hidden_random.len(), 1);
    assert!(folder.hidden_random.contains(&3));
    assert!(folder.lap.is_empty());
}
