use remani::bytes::Failure;
use remani::chart::ojn::{header, note_count, notes_section, package, Events, NoteEvent};

fn put_i32(buf: &mut Vec<u8>, at: usize, v: i32) {
    buf[at..at + 4].copy_from_slice(&v.to_le_bytes());
}

fn put_i16(buf: &mut Vec<u8>, at: usize, v: i16) {
    buf[at..at + 2].copy_from_slice(&v.to_le_bytes());
}

fn put_text(buf: &mut Vec<u8>, at: usize, s: &str) {
    buf[at..at + s.len()].copy_from_slice(s.as_bytes());
}

fn sample_header() -> Vec<u8> {
    let mut b = vec![0u8; 300];
    put_i32(&mut b, 0, 1234);
    put_text(&mut b, 4, "ojn");
    b[8..12].copy_from_slice(&2.9f32.to_le_bytes());
    put_i32(&mut b, 12, 5);
    b[16..20].copy_from_slice(&140.0f32.to_le_bytes());
    for (i, l) in [3i16, 7, 11, -1].iter().enumerate() {
        put_i16(&mut b, 20 + 2 * i, *l);
    }
    for i in 0..3 {
        put_i32(&mut b, 40 + 4 * i, 100 * (i as i32 + 1));
        put_i32(&mut b, 64 + 4 * i, 2 + i as i32);
        put_i32(&mut b, 272 + 4 * i, 95 + i as i32);
        put_i32(&mut b, 284 + 4 * i, 300 + 1000 * i as i32);
    }
    put_i16(&mut b, 76, 29);
    put_text(&mut b, 80, "Pop");
    put_text(&mut b, 108, "A Song");
    put_text(&mut b, 172, "An Artist");
    put_text(&mut b, 204, "A Noter");
    put_text(&mut b, 236, "o2ma100.ojm");
    put_i32(&mut b, 296, 3300);
    b
}

#[test]
fn reads_header() {
    let h = header(&sample_header()).unwrap();
    assert_eq!(h.songid, 1234);
    assert_eq!(f32::from_bits(h.encode_version), 2.9);
    assert_eq!(h.genre, 5);
    assert_eq!(f32::from_bits(h.bpm), 140.0);
    assert_eq!(h.level, [3, 7, 11, -1]);
    assert_eq!(h.note_count, [100, 200, 300]);
    assert_eq!(h.package_count, [2, 3, 4]);
    assert_eq!(h.old_encode_version, 29);
    assert_eq!(h.old_genre, b"Pop".to_vec());
    assert_eq!(h.title, b"A Song".to_vec());
    assert_eq!(h.artist, b"An Artist".to_vec());
    assert_eq!(h.noter, b"A Noter".to_vec());
    assert_eq!(h.ojm_file, b"o2ma100.ojm".to_vec());
    assert_eq!(h.time, [95, 96, 97]);
    assert_eq!(h.note_offset, [300, 1300, 2300]);
    assert_eq!(h.cover_offset, 3300);
}

#[test]
fn header_errors() {
    let mut b = sample_header();
    b[5] = b'x';
    assert_eq!(header(&b).err(), Some(Failure::Tag));
    let b = sample_header();
    assert_eq!(header(&b[..299]).err(), Some(Failure::Incomplete));
    assert_eq!(header(&b[..2]).err(), Some(Failure::Incomplete));
    // a title field without its NUL byte
    let mut b = sample_header();
    for i in 108..172 {
        b[i] = b'a';
    }
    assert_eq!(header(&b).err(), Some(Failure::Incomplete));
}

fn package_bytes(measure: i32, channel: i16, words: &[[u8; 4]]) -> Vec<u8> {
    let mut b = Vec::new();
    b.extend_from_slice(&measure.to_le_bytes());
    b.extend_from_slice(&channel.to_le_bytes());
    b.extend_from_slice(&(words.len() as i16).to_le_bytes());
    for w in words {
        b.extend_from_slice(w);
    }
    b
}

#[test]
fn reads_packages() {
    let mut s = package_bytes(0, 1, &[150.0f32.to_le_bytes()]);
    s.extend(package_bytes(3, 4, &[[5, 0, 0x2F, 2], [0, 0, 0, 0]]));
    s.extend(package_bytes(7, 30, &[[1, 2, 3, 4]]));
    let ps = notes_section(&s, 3).unwrap();
    assert_eq!(ps.len(), 3);
    match &ps[0].events {
        Events::BpmChange(v) => assert_eq!(f32::from_bits(v[0]), 150.0),
        _ => panic!("expected a tempo change"),
    }
    assert_eq!(ps[1].measure, 3);
    match &ps[1].events {
        Events::NoteEvent(c, v) => {
            assert_eq!(*c, 4);
            assert_eq!(v[0], NoteEvent { value: 5, volume: 2, pan: 15, note_type: 2 });
            assert_eq!(v.len(), 2);
        }
        _ => panic!("expected notes"),
    }
    match &ps[2].events {
        Events::Unknown(c, v) => {
            assert_eq!(*c, 30);
            assert_eq!(v[0], [1, 2, 3, 4]);
        }
        _ => panic!("expected an unknown channel"),
    }
    assert_eq!(note_count(&ps), Some(2));
    // one package more than there is
    assert_eq!(notes_section(&s, 4).err(), Some(Failure::Incomplete));
    assert_eq!(notes_section(&s, -1).err(), Some(Failure::Incomplete));
    assert_eq!(notes_section(&s, 0).unwrap().len(), 0);
    let (p, end) = package(&s, 0).unwrap();
    assert_eq!(p.measure, 0);
    assert_eq!(end, 12);
    // a negative event count never fits
    let neg = package_bytes(0, 0, &[]);
    let mut neg2 = neg.clone();
    neg2[6..8].copy_from_slice(&(-1i16).to_le_bytes());
    assert!(package(&neg2, 0).is_err());
    assert!(package(&neg, 0).is_ok());
}
