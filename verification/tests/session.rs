use random_pics::error::LoaderError;
use random_pics::img_loader::indexing::FileRead;
use random_pics::img_loader::session::{Action, Event, Request, Session};
use random_pics::img_loader::ImageLoader;
use random_pics::scanner::Progress;

struct Disk {
    folders_gone: Vec<i64>,
    files: Vec<(String, Vec<u8>)>,
}

impl Disk {
    fn with(names: &[&str]) -> Disk {
        Disk {
            folders_gone: vec![],
            files: names.iter().map(|n| (format!("/pics/{}.jpg", n), n.as_bytes().to_vec())).collect(),
        }
    }

    fn read(&self, path: &str) -> FileRead {
        match self.files.iter().find(|(p, _)| p == path) {
            Some((_, data)) => FileRead::Data(data.clone()),
            None => FileRead::NotFound,
        }
    }

    fn walk(&self, folder: &str) -> Vec<String> {
        self.files.iter().map(|(p, _)| p.clone()).filter(|p| p.starts_with(folder)).collect()
    }

    fn remove(&mut self, name: &str) {
        let path = format!("/pics/{}.jpg", name);
        self.files.retain(|(p, _)| *p != path);
    }
}

fn serve(
    loader: &mut ImageLoader,
    disk: &Disk,
    request: Request,
) -> (Result<(Vec<u8>, bool), LoaderError>, Vec<String>) {
    let mut session = Session::new(request);
    let mut event = Event::Start(disk.folders_gone.clone());
    let mut lines: Vec<String> = Vec::new();
    for _ in 0..1000 {
        let (action, notes) = loader.serve(&mut session, event);
        lines.extend(notes.iter().map(Progress::line));
        event = match action {
            Action::Scan(path) => Event::Scanned(disk.walk(&path)),
            Action::Probe(item) => Event::Probed {
                image_id: item.image_id,
                exists: disk.files.iter().any(|(p, _)| *p == item.path),
            },
            Action::Read(item) => Event::Read { image_id: item.image_id, read: disk.read(&item.path) },
            Action::Done(data, auto_switched) => return (Ok((data, auto_switched)), lines),
            Action::Fail(error) => return (Err(error), lines),
        };
    }
    panic!("the request did not end");
}

fn picked() -> ImageLoader {
    let mut loader = ImageLoader::new();
    loader.select_folder("/pics", 1_000).unwrap();
    loader
}

#[test]
fn the_first_request_scans_the_folder() {
    let mut loader = picked();
    let disk = Disk::with(&["a", "b", "c"]);
    let (answer, lines) = serve(&mut loader, &disk, Request::Next);
    assert_eq!(answer, Ok((b"a".to_vec(), false)));
    assert_eq!(
        lines,
        vec![
            "scan:start /pics",
            "scan:done total=3",
            "index:1/3 /pics/a.jpg",
            "index:2/3 /pics/b.jpg",
            "index:3/3 /pics/c.jpg",
            "index:done",
            "index:ready count=3",
        ]
    );
    assert_eq!(loader.get_last_image_id(), Some(1));
    let (answer, lines) = serve(&mut loader, &disk, Request::Next);
    assert_eq!(answer, Ok((b"b".to_vec(), false)));
    assert_eq!(lines, vec!["scan:start /pics", "scan:skip already indexed count=3"]);
}

#[test]
fn four_requests_forward_yield_a_b_c_a() {
    let mut loader = picked();
    let disk = Disk::with(&["a", "b", "c"]);
    let shown: Vec<Vec<u8>> =
        (0..4).map(|_| serve(&mut loader, &disk, Request::Next).0.unwrap().0).collect();
    assert_eq!(shown, vec![b"a".to_vec(), b"b".to_vec(), b"c".to_vec(), b"a".to_vec()]);
}

#[test]
fn every_kind_of_request_is_served() {
    let mut loader = picked();
    let disk = Disk::with(&["a", "b", "c"]);
    assert_eq!(serve(&mut loader, &disk, Request::Prev).0, Ok((b"c".to_vec(), false)));
    assert_eq!(serve(&mut loader, &disk, Request::Current).0, Ok((b"c".to_vec(), false)));
    assert_eq!(serve(&mut loader, &disk, Request::Normal(1)).0, Ok((b"b".to_vec(), false)));
    let first = serve(&mut loader, &disk, Request::NextRandom).0.unwrap().0;
    let second = serve(&mut loader, &disk, Request::ForceRandom(true)).0.unwrap().0;
    assert_ne!(first, second);
    assert_eq!(serve(&mut loader, &disk, Request::PrevRandom).0, Ok((first.clone(), false)));
    assert_eq!(serve(&mut loader, &disk, Request::Random(1)).0, Ok((second, false)));
    assert_eq!(serve(&mut loader, &disk, Request::Random(0)).0, Ok((first, false)));
}

#[test]
fn a_scan_that_finds_nothing_fails_the_request() {
    let mut loader = picked();
    let disk = Disk::with(&[]);
    let (answer, lines) = serve(&mut loader, &disk, Request::Current);
    assert_eq!(answer, Err(LoaderError::NoImagesFound));
    assert_eq!(lines, vec!["scan:start /pics", "scan:done total=0", "index:error no images found"]);
}

#[test]
fn a_request_without_a_folder_fails() {
    let mut loader = ImageLoader::new();
    let disk = Disk::with(&["a"]);
    assert_eq!(
        serve(&mut loader, &disk, Request::Next),
        (Err(LoaderError::NoFoldersAvailable), vec![])
    );
}

#[test]
fn a_request_falls_back_to_a_folder_that_is_there() {
    let mut loader = ImageLoader::new();
    loader.select_folder("/pics", 1).unwrap();
    loader.select_folder("/gone", 2).unwrap();
    let mut disk = Disk::with(&["a"]);
    disk.folders_gone = vec![2];
    let (answer, _) = serve(&mut loader, &disk, Request::Next);
    assert_eq!(answer, Ok((b"a".to_vec(), true)));
    assert_eq!(loader.get_current_folder_id(), Some(1));
    assert_eq!(loader.get_folder_history().len(), 1);
    disk.folders_gone = vec![];
    assert_eq!(serve(&mut loader, &disk, Request::Next).0, Ok((b"a".to_vec(), false)));
}

#[test]
fn a_file_that_is_gone_fails_the_request_and_loses_its_row() {
    let mut loader = picked();
    let mut disk = Disk::with(&["a", "b"]);
    assert_eq!(serve(&mut loader, &disk, Request::Next).0, Ok((b"a".to_vec(), false)));
    disk.remove("a");
    assert_eq!(
        serve(&mut loader, &disk, Request::Current).0,
        Err(LoaderError::ImageFileMissing { path: "/pics/a.jpg".to_string() })
    );
    assert_eq!(loader.image_path(1), Err(LoaderError::RowNotFound));
    assert_eq!(serve(&mut loader, &disk, Request::Current).0, Ok((b"b".to_vec(), false)));
}

#[test]
fn a_draw_passes_over_files_that_are_gone() {
    for _ in 0..20 {
        let mut loader = picked();
        let mut disk = Disk::with(&["a", "b", "c"]);
        assert!(serve(&mut loader, &disk, Request::Current).0.is_ok());
        disk.remove("a");
        disk.remove("c");
        assert_eq!(
            serve(&mut loader, &disk, Request::ForceRandom(true)).0,
            Ok((b"b".to_vec(), false))
        );
    }
}

#[test]
fn a_draw_fails_when_no_file_is_left() {
    let mut loader = picked();
    let mut disk = Disk::with(&["a", "b"]);
    assert!(serve(&mut loader, &disk, Request::Current).0.is_ok());
    disk.remove("a");
    disk.remove("b");
    assert_eq!(
        serve(&mut loader, &disk, Request::NextRandom).0,
        Err(LoaderError::AllImagesDeleted { skipped: 2 })
    );
    assert_eq!(
        serve(&mut loader, &disk, Request::NextRandom),
        (
            Err(LoaderError::NoImagesFound),
            vec![
                "scan:start /pics".to_string(),
                "scan:done total=0".to_string(),
                "index:error no images found".to_string()
            ]
        )
    );
}

#[test]
fn a_report_of_a_read_ends_the_request() {
    let mut loader = picked();
    let disk = Disk::with(&["a"]);
    assert!(serve(&mut loader, &disk, Request::Next).0.is_ok());
    let mut session = Session::new(Request::Next);
    session.auto_switched = true;
    let failed = Event::Read { image_id: 1, read: FileRead::Failed("busy".to_string()) };
    assert_eq!(
        loader.serve(&mut session, failed),
        (Action::Fail(LoaderError::ImageReadFailed { detail: "busy".to_string() }), vec![])
    );
    let read = Event::Read { image_id: 1, read: FileRead::Data(vec![5]) };
    assert_eq!(loader.serve(&mut session, read), (Action::Done(vec![5], true), vec![]));
    let unknown = Event::Read { image_id: 9, read: FileRead::Data(vec![5]) };
    assert_eq!(loader.serve(&mut session, unknown), (Action::Fail(LoaderError::RowNotFound), vec![]));
}

#[test]
fn a_report_of_a_scan_needs_a_selected_folder() {
    let mut loader = ImageLoader::new();
    let mut session = Session::new(Request::Next);
    assert_eq!(
        loader.serve(&mut session, Event::Scanned(vec!["/x.jpg".to_string()])),
        (Action::Fail(LoaderError::NoFolderSelected), vec![])
    );
}
