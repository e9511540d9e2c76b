use music_scan::{file_exists, scan_music_folder, MusicFile};

fn fresh_dir(name: &str) -> String {
    let root = format!("/tmp/music_scan_test_{}", name);
    let _ = fs_err::remove_dir_all(&root);
    fs_err::create_dir_all(&root).unwrap();
    root
}

#[test]
fn scan_of_missing_path_names_it() {
    let root = "/tmp/music_scan_test_missing";
    let _ = fs_err::remove_dir_all(root);
    let r = scan_music_folder(root.to_string());
    assert_eq!(r, Err(format!("Folder does not exist: {}", root)));
}

#[test]
fn scan_of_a_file_names_it_as_non_directory() {
    let root = fresh_dir("nondir");
    let file = format!("{}/plain.txt", root);
    fs_err::write(&file, b"x").unwrap();
    let r = scan_music_folder(file.clone());
    assert_eq!(r, Err(format!("Path is not a directory: {}", file)));
    let _ = fs_err::remove_dir_all(&root);
}

#[test]
fn scan_of_empty_directory_is_ok_and_empty() {
    let root = fresh_dir("empty");
    let r = scan_music_folder(root.clone());
    assert_eq!(r, Ok(Vec::new()));
    let _ = fs_err::remove_dir_all(&root);
}

#[test]
fn scan_finds_nested_and_root_level_audio() {
    let root = fresh_dir("nested");
    fs_err::write(format!("{}/song.mp3", root), b"").unwrap();
    fs_err::create_dir_all(format!("{}/sub/dir", root)).unwrap();
    fs_err::write(format!("{}/sub/dir/track.flac", root), b"").unwrap();
    let mut files = scan_music_folder(root.clone()).unwrap();
    files.sort_by(|a, b| a.name.cmp(&b.name));
    assert_eq!(files.len(), 2);
    let song = &files[0];
    assert_eq!(song.name, "song.mp3");
    assert_eq!(song.extension, "mp3");
    assert_eq!(song.folder, None);
    assert_eq!(song.path, format!("{}/song.mp3", root));
    let track = &files[1];
    assert_eq!(track.name, "track.flac");
    assert_eq!(track.extension, "flac");
    assert_eq!(track.folder.as_deref(), Some("sub/dir"));
    assert_eq!(track.path, format!("{}/sub/dir/track.flac", root));
    let _ = fs_err::remove_dir_all(&root);
}

#[test]
fn scan_excludes_non_audio_files() {
    let root = fresh_dir("mixed");
    fs_err::write(format!("{}/song.mp3", root), b"").unwrap();
    fs_err::write(format!("{}/notes.txt", root), b"").unwrap();
    fs_err::write(format!("{}/cover.jpg", root), b"").unwrap();
    fs_err::create_dir_all(format!("{}/sub", root)).unwrap();
    fs_err::write(format!("{}/sub/readme.md", root), b"").unwrap();
    fs_err::write(format!("{}/sub/b.ogg", root), b"").unwrap();
    let files = scan_music_folder(root.clone()).unwrap();
    let mut names: Vec<String> = files.iter().map(|m| m.name.clone()).collect();
    names.sort();
    assert_eq!(names, vec!["b.ogg".to_string(), "song.mp3".to_string()]);
    let _ = fs_err::remove_dir_all(&root);
}

#[test]
fn scan_with_redundant_trailing_separators_on_root() {
    let root = fresh_dir("trailing");
    fs_err::write(format!("{}/song.mp3", root), b"").unwrap();
    fs_err::create_dir_all(format!("{}/sub/dir", root)).unwrap();
    fs_err::write(format!("{}/sub/dir/track.flac", root), b"").unwrap();
    let mut files = scan_music_folder(format!("{}///", root)).unwrap();
    files.sort_by(|a, b| a.name.cmp(&b.name));
    assert_eq!(files.len(), 2);
    assert_eq!(files[0].name, "song.mp3");
    assert_eq!(files[0].folder, None);
    assert_eq!(files[1].name, "track.flac");
    assert_eq!(files[1].folder.as_deref(), Some("sub/dir"));
    let _ = fs_err::remove_dir_all(&root);
}

fn sorted_fields(files: Vec<MusicFile>) -> Vec<(String, String, String, Option<String>)> {
    let mut v: Vec<(String, String, String, Option<String>)> = files
        .into_iter()
        .map(|m| (m.path, m.name, m.extension, m.folder))
        .collect();
    v.sort();
    v
}

#[test]
fn scan_twice_yields_the_same_records() {
    let root = fresh_dir("twice");
    fs_err::write(format!("{}/a.mp3", root), b"").unwrap();
    fs_err::create_dir_all(format!("{}/s", root)).unwrap();
    fs_err::write(format!("{}/s/b.wav", root), b"").unwrap();
    fs_err::write(format!("{}/s/c.txt", root), b"").unwrap();
    let first = scan_music_folder(root.clone()).unwrap();
    let second = scan_music_folder(root.clone()).unwrap();
    assert_eq!(sorted_fields(first), sorted_fields(second));
    let _ = fs_err::remove_dir_all(&root);
}

#[test]
fn file_exists_follows_creation_and_removal() {
    let root = fresh_dir("exists");
    let p = format!("{}/probe.mp3", root);
    assert!(!file_exists(p.clone()));
    fs_err::write(&p, b"").unwrap();
    assert!(file_exists(p.clone()));
    fs_err::remove_file(&p).unwrap();
    assert!(!file_exists(p.clone()));
    assert!(file_exists(root.clone()));
    let _ = fs_err::remove_dir_all(&root);
}

#[test]
fn unreadable_entry_does_not_abort_the_scan() {
    let root = fresh_dir("unreadable");
    fs_err::write(format!("{}/keep.mp3", root), b"").unwrap();
    fs_err::create_dir_all(format!("{}/sub", root)).unwrap();
    fs_err::write(format!("{}/sub/deep.flac", root), b"").unwrap();
    // A dangling symbolic link cannot be resolved by the link-following
    // walk; it must be skipped, not fail the scan.
    symlink::symlink_file("/tmp/music_scan_test_no_such_target", format!("{}/broken", root))
        .unwrap();
    symlink::symlink_dir("/tmp/music_scan_test_no_such_dir", format!("{}/sub/broken_dir", root))
        .unwrap();
    let files = scan_music_folder(root.clone()).unwrap();
    let mut names: Vec<String> = files.iter().map(|m| m.name.clone()).collect();
    names.sort();
    assert_eq!(names, vec!["deep.flac".to_string(), "keep.mp3".to_string()]);
    let _ = fs_err::remove_dir_all(&root);
}
