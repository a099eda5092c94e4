use remani::bytes::Failure;
use remani::chart::ojm::{
    header, m30_decrypt, m30_encryption_from_i32, m30_sounds, omc_ogg_sounds, omc_wav_decrypt,
    omc_wav_sounds, sound_listing, Header, M30Encryption, M30Header, OmcHeader,
    OmcWavDecryptState,
};

fn omc_header_bytes(tag: &[u8; 4]) -> Vec<u8> {
    let mut b = tag.to_vec();
    b.extend_from_slice(&3i16.to_le_bytes());
    b.extend_from_slice(&2i16.to_le_bytes());
    b.extend_from_slice(&20i32.to_le_bytes());
    b.extend_from_slice(&500i32.to_le_bytes());
    b.extend_from_slice(&900i32.to_le_bytes());
    b
}

#[test]
fn reads_headers() {
    match header(&omc_header_bytes(b"OJM\0")).unwrap() {
        Header::Omc(h) => {
            assert!(!h.encrypted);
            assert_eq!(h.wav_count, 3);
            assert_eq!(h.ogg_count, 2);
            assert_eq!(h.wav_start, 20);
            assert_eq!(h.ogg_start, 500);
            assert_eq!(h.filesize, 900);
        }
        _ => panic!("expected OMC"),
    }
    match header(&omc_header_bytes(b"OMC\0")).unwrap() {
        Header::Omc(h) => assert!(h.encrypted),
        _ => panic!("expected OMC"),
    }
    let mut m = b"M30\0".to_vec();
    for v in [7i32, 16, 99, 28, 0, 0] {
        m.extend_from_slice(&v.to_le_bytes());
    }
    match header(&m).unwrap() {
        Header::M30(h) => {
            assert_eq!(h.file_format_version, 7);
            assert_eq!(h.encryption_scheme, M30Encryption::XorNami);
            assert_eq!(h.samples_offset, 28);
        }
        _ => panic!("expected M30"),
    }
    assert_eq!(header(b"RIFF0000000000000000000000000000").err(), Some(Failure::Tag));
    assert_eq!(header(b"OJ").err(), Some(Failure::Incomplete));
    assert_eq!(header(&m[..20]).err(), Some(Failure::Incomplete));
}

#[test]
fn encryption_codes() {
    assert_eq!(m30_encryption_from_i32(1), M30Encryption::Scramble1);
    assert_eq!(m30_encryption_from_i32(2), M30Encryption::Scramble2);
    assert_eq!(m30_encryption_from_i32(4), M30Encryption::Decode);
    assert_eq!(m30_encryption_from_i32(8), M30Encryption::Decrypt);
    assert_eq!(m30_encryption_from_i32(16), M30Encryption::XorNami);
    assert_eq!(m30_encryption_from_i32(32), M30Encryption::Xor0412);
    assert_eq!(m30_encryption_from_i32(3), M30Encryption::Unknown);
}

fn m30(scheme: M30Encryption) -> M30Header {
    M30Header { file_format_version: 0, encryption_scheme: scheme, samples_offset: 0 }
}

#[test]
fn unmasks_m30_data() {
    let data = b"abcdefghij";
    let once = m30_decrypt(data, &m30(M30Encryption::XorNami));
    assert_eq!(once.len(), 8);
    assert_eq!(once[0], b'a' ^ b'n');
    assert_eq!(once[5], b'f' ^ b'a');
    let twice = m30_decrypt(&once, &m30(M30Encryption::XorNami));
    assert_eq!(twice, b"abcdefgh".to_vec());
    let k = m30_decrypt(data, &m30(M30Encryption::Xor0412));
    assert_eq!(k[3], b'd' ^ b'2');
    assert_eq!(m30_decrypt(data, &m30(M30Encryption::Scramble1)), data.to_vec());
}

fn name_field(name: &str) -> Vec<u8> {
    let mut b = vec![0u8; 32];
    b[..name.len()].copy_from_slice(name.as_bytes());
    b
}

#[test]
fn reads_m30_sounds() {
    let mut s = Vec::new();
    for (name, data) in [("one", &b"OggSdata"[..]), ("two", &b"xy"[..])] {
        s.extend(name_field(name));
        s.extend_from_slice(&(data.len() as i32).to_le_bytes());
        s.extend_from_slice(&5i16.to_le_bytes());
        s.extend_from_slice(&[0; 6]);
        s.extend_from_slice(&9i16.to_le_bytes());
        s.extend_from_slice(&[0; 2]);
        s.extend_from_slice(&44100i32.to_le_bytes());
        s.extend_from_slice(data);
    }
    // a truncated third sound is left out
    s.extend(name_field("three"));
    let sounds = m30_sounds(&s, &m30(M30Encryption::Unknown));
    assert_eq!(sounds.len(), 2);
    assert_eq!(sounds[0].sound_name, b"one".to_vec());
    assert_eq!(sounds[0].sound_size, 8);
    assert_eq!(sounds[0].codec_code, 5);
    assert_eq!(sounds[0].note_ref, 9);
    assert_eq!(sounds[0].sample_count, 44100);
    assert_eq!(sounds[0].ogg_data, b"OggSdata".to_vec());
    assert_eq!(sounds[1].ogg_data, b"xy".to_vec());
    let masked = m30_sounds(&s, &m30(M30Encryption::XorNami));
    assert_eq!(masked[0].ogg_data[0], b'O' ^ b'n');
    assert_eq!(masked[1].ogg_data.len(), 0);
}

#[test]
fn unscrambles_wav_data() {
    // 17 bytes: one byte per block; row 0 of the table moves block b to
    // position ROW[b]
    const ROW: [usize; 17] = [16, 14, 2, 9, 4, 0, 7, 1, 6, 8, 15, 10, 5, 12, 3, 13, 11];
    let data: Vec<u8> = (0..17).map(|i| i as u8 * 3 + 1).collect();
    let mut moved = vec![0u8; 17];
    for b in 0..17 {
        moved[ROW[b]] = data[b];
    }
    // the key byte starts as 0xFF, so the first 8 bytes are all inverted;
    // the 8th byte then becomes the key
    let mut expected = moved.clone();
    for i in 0..8 {
        expected[i] = !moved[i];
    }
    let key = moved[7];
    for i in 8..16 {
        if (key << (i - 8)) & 0x80 != 0 {
            expected[i] = !moved[i];
        }
    }
    let key2 = moved[15];
    if key2 & 0x80 != 0 {
        expected[16] = !moved[16];
    }
    let mut state = OmcWavDecryptState::default();
    let out = omc_wav_decrypt(&data, &mut state);
    assert_eq!(out.len(), 17);
    assert_eq!(out, expected);
    assert_eq!(state.acc_counter, 1);
    assert_eq!(state.acc_keybyte, key2);
    // bytes past the 17 whole blocks stay 0 before inverting
    let mut state = OmcWavDecryptState::default();
    let out = omc_wav_decrypt(&[9, 9, 9], &mut state);
    assert_eq!(out, vec![0xFF, 0xFF, 0xFF]);
}

fn wav_sound(name: &str, data: &[u8]) -> Vec<u8> {
    let mut b = name_field(name);
    b.extend_from_slice(&1i16.to_le_bytes());
    b.extend_from_slice(&2i16.to_le_bytes());
    b.extend_from_slice(&44100i32.to_le_bytes());
    b.extend_from_slice(&176400i32.to_le_bytes());
    b.extend_from_slice(&4i16.to_le_bytes());
    b.extend_from_slice(&16i16.to_le_bytes());
    b.extend_from_slice(&[0; 4]);
    b.extend_from_slice(&(data.len() as i32).to_le_bytes());
    b.extend_from_slice(data);
    b
}

fn omc(encrypted: bool) -> OmcHeader {
    OmcHeader { encrypted, wav_count: 0, ogg_count: 0, wav_start: 0, ogg_start: 0, filesize: 0 }
}

#[test]
fn reads_omc_wav_sounds() {
    let mut s = wav_sound("kick", &[1, 2, 3, 4]);
    s.extend(wav_sound("empty", &[]));
    s.extend(wav_sound("snare", &[5, 6]));
    let plain = omc_wav_sounds(&s, &omc(false));
    assert_eq!(plain.len(), 2);
    assert_eq!(plain[0].sound_name, b"kick".to_vec());
    assert_eq!(plain[0].num_channels, 2);
    assert_eq!(plain[0].sample_rate, 44100);
    assert_eq!(plain[0].bits_per_sample, 16);
    assert_eq!(plain[0].wav_data, vec![1, 2, 3, 4]);
    assert_eq!(plain[1].sound_name, b"snare".to_vec());
    let scrambled = omc_wav_sounds(&s, &omc(true));
    assert_eq!(scrambled.len(), 2);
    // fewer than 17 bytes: every byte ends up 0, then the first 8 are inverted
    assert_eq!(scrambled[0].wav_data, vec![0xFF; 4]);
    // the state carries on from the first sample to the next
    assert_eq!(scrambled[1].wav_data, vec![0xFF; 2]);
}

#[test]
fn reads_omc_ogg_sounds() {
    let mut s = name_field("bgm");
    s.extend_from_slice(&3i32.to_le_bytes());
    s.extend_from_slice(b"abc");
    s.extend(name_field("cut"));
    s.extend_from_slice(&10i32.to_le_bytes());
    s.extend_from_slice(b"short");
    let sounds = omc_ogg_sounds(&s);
    assert_eq!(sounds.len(), 1);
    assert_eq!(sounds[0].sound_name, b"bgm".to_vec());
    assert_eq!(sounds[0].ogg_data, b"abc".to_vec());
}

#[test]
fn listing_counts() {
    assert_eq!(sound_listing(0), (0, None));
    assert_eq!(sound_listing(3), (3, None));
    assert_eq!(sound_listing(5), (4, None));
    assert_eq!(sound_listing(6), (4, Some(1)));
    assert_eq!(sound_listing(10), (4, Some(5)));
}
