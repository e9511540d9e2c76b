use music_scan::is_audio_file;

#[test]
fn classifier_accepts_allow_list() {
    let exts = [
        "mp3", "wav", "ogg", "flac", "aac", "m4a", "wma", "aiff", "ape", "opus", "webm",
    ];
    for ext in exts {
        assert!(is_audio_file(&format!("dir/track.{}", ext)), "{}", ext);
        assert!(is_audio_file(&format!("track.{}", ext)), "{}", ext);
    }
}

#[test]
fn classifier_is_case_insensitive() {
    assert!(is_audio_file("a/B.MP3"));
    assert!(is_audio_file("x.FlAc"));
    assert!(is_audio_file("A.OPUS"));
    assert!(is_audio_file("deep/er/path/Song.Wav"));
}

#[test]
fn classifier_rejects_paths_without_extension() {
    assert!(!is_audio_file("noext"));
    assert!(!is_audio_file("a/b"));
    assert!(!is_audio_file(""));
    assert!(!is_audio_file("."));
    assert!(!is_audio_file(".."));
    assert!(!is_audio_file("dir/"));
}

#[test]
fn classifier_rejects_other_extensions() {
    assert!(!is_audio_file("notes.txt"));
    assert!(!is_audio_file("cover.jpg"));
    assert!(!is_audio_file("x.mp33"));
    assert!(!is_audio_file("x.amp3"));
    assert!(!is_audio_file("x.mp"));
}

#[test]
fn classifier_rejects_hidden_files_and_trailing_dots() {
    assert!(!is_audio_file(".mp3"));
    assert!(!is_audio_file("a/.mp3"));
    assert!(!is_audio_file("song."));
}
