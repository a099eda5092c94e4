use std::sync::Arc;

use remani::audio::{format_of_extension, format_of_lowercase, ArcIter, AudioLoadError, AudioStatus, MusicFormat};

#[test]
fn arc_iter_walks_the_buffer() {
    let v = Arc::new(vec![1.5f32, 2.5, 3.5]);
    let mut it = ArcIter::new(v.clone());
    assert_eq!(it.next(), Some(1.5));
    assert_eq!(it.next(), Some(2.5));
    assert_eq!(it.next(), Some(3.5));
    assert_eq!(it.next(), None);
    assert_eq!(it.next(), None);
    let back = it.inner();
    assert!(Arc::ptr_eq(&back, &v));
}

#[test]
fn formats_by_extension() {
    assert_eq!(format_of_extension(Some("mp3")).ok(), Some(MusicFormat::Mp3));
    assert_eq!(format_of_extension(Some("OGG")).ok(), Some(MusicFormat::Ogg));
    assert_eq!(format_of_extension(Some("Wav")).ok(), Some(MusicFormat::Wav));
    match format_of_extension(Some("FLAC")) {
        Err(AudioLoadError::UnsupportedFormat(s)) => assert_eq!(s, "flac"),
        _ => panic!("expected an unsupported format"),
    }
    match format_of_extension(None) {
        Err(AudioLoadError::UnsupportedFormat(s)) => assert_eq!(s, "No extension"),
        _ => panic!("expected an unsupported format"),
    }
    assert_eq!(format_of_lowercase(Some("ogg".to_string())).ok(), Some(MusicFormat::Ogg));
    assert!(format_of_lowercase(Some("OGG".to_string())).is_err());
    assert_eq!(MusicFormat::Mp3.name(), "mp3");
    assert_eq!(MusicFormat::Ogg.name(), "ogg");
    assert_eq!(MusicFormat::Wav.name(), "wav");
}

#[test]
fn status_is_plain_data() {
    let s = AudioStatus { is_playing_music: true };
    let t = s;
    assert!(t.is_playing_music && s.is_playing_music);
}
