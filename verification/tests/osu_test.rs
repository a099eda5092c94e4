use remani::chart::osu::{parse_hit_object_line, HitSoundSource, SampleHitSoundSound, SampleSet};

fn seconds(ns: i64) -> f64 {
    ns as f64 / 1e9
}

#[test]
fn osu_test_ho_parse() {
    let ho = parse_hit_object_line(b"0,0,5000,128,0,6000:0:0:0:70:").unwrap();
    assert_eq!(5.0, seconds(ho.time));
    assert_eq!(0, ho.column);
    assert_eq!(70, ho.sounds[0].volume);
    assert_eq!(Some(6.0), ho.end_time.map(seconds));
    match ho.sounds[0].source {
        HitSoundSource::SampleSet(ref shs) => {
            assert_eq!(SampleSet::Auto, shs.set);
            assert_eq!(SampleHitSoundSound::Normal, shs.sound);
            assert_eq!(0, shs.index);
        }
        _ => panic!("Incorrect hit sound source"),
    }

    let ho = parse_hit_object_line(b"75,0,1337,0,0,0:0:0:10:potato.wav").unwrap();
    assert_eq!(1.337, seconds(ho.time));
    assert_eq!(1, ho.column);
    assert_eq!(10, ho.sounds[0].volume);
    match ho.sounds[1].source {
        HitSoundSource::File(ref path) => {
            assert_eq!("potato.wav", std::str::from_utf8(path).unwrap());
        }
        _ => panic!("Incorrect hit sound source"),
    }
}

#[test]
fn osu_parser_test_ho_parse() {
    let ho = parse_hit_object_line(b"0,0,5000,128,0,6000:0:0:0:70:").unwrap();
    assert_eq!(5.0, seconds(ho.time));
    assert_eq!(0, ho.column);
    assert_eq!(70, ho.sounds[0].volume);
    assert_eq!(Some(6.0), ho.end_time.map(seconds));
    match ho.sounds[0].source {
        HitSoundSource::SampleSet(ref shs) => {
            assert_eq!(SampleSet::Auto, shs.set);
            assert_eq!(SampleHitSoundSound::Normal, shs.sound);
            assert_eq!(0, shs.index);
        }
        _ => panic!("Incorrect hit sound source"),
    }

    let ho = parse_hit_object_line(b"75,0,1337,0,0,0:0:0:10:potato.wav").unwrap();
    assert_eq!(1.337, seconds(ho.time));
    assert_eq!(1, ho.column);
    assert_eq!(10, ho.sounds[0].volume);
    match ho.sounds[1].source {
        HitSoundSource::File(ref path) => {
            assert_eq!("potato.wav", std::str::from_utf8(path).unwrap());
        }
        _ => panic!("Incorrect hit sound source"),
    }
}

fn column(x: &str) -> Option<usize> {
    let line = format!("{},192,1000,1,0,0:0:0:0:", x);
    parse_hit_object_line(line.as_bytes()).ok().map(|h| h.column)
}

#[test]
fn hit_object_columns_keep_every_digit() {
    // the column boundary 512/7 = 73.142857142857...
    assert_eq!(column("73.1428572"), Some(1));
    assert_eq!(column("73.142857"), Some(0));
    assert_eq!(column("73.14285714285714285715"), Some(1));
    assert_eq!(column("73.14285714285714285714"), Some(0));
    assert_eq!(column("0"), Some(0));
    assert_eq!(column("36"), Some(0));
    assert_eq!(column("109"), Some(1));
    assert_eq!(column("438.857142857142857142"), Some(5));
    assert_eq!(column("438.857142857142857143"), Some(6));
    assert_eq!(column("511.9999"), Some(6));
    assert_eq!(column("512"), Some(7));
    assert_eq!(column("100000000000000000000000000"), Some(7));
    assert_eq!(column("-5"), Some(0));
    assert_eq!(column("-0.0"), Some(0));
    assert_eq!(column(".5"), Some(0));
    assert_eq!(column("+146.3"), Some(2));
    assert_eq!(column("1e2"), None);
    assert_eq!(column("x"), None);
    assert_eq!(column(""), None);
    assert_eq!(column("."), None);
    // the same as the floating point computation away from the boundaries
    for x in 0..600 {
        let xf = x as f64 + 0.5;
        let expected = (xf / (512.0 / 7.0)).floor().max(0.0).min(7.0) as usize;
        assert_eq!(column(&format!("{}.5", x)), Some(expected), "x = {}", xf);
    }
}
