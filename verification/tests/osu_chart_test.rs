use remani::chart::osu::{
    parse_difficulty, parse_section, parse_timing_point_line, verify, HitSoundSource, OsuParser,
    SampleHitSound, SampleHitSoundSound, SampleSet,
};
use remani::chart::osu::{HitSound, OsuTimingPoint};
use remani::chart::osu_chart::{
    chart_would_panic, find_tp_inherit_from, from_lines, possible_paths, resolve_tp_inherit, SoundDir,
};
use remani::chart::{ParseContext, ParseError, TimingPointValue};
use remani::config::SkinEntry;

fn lines(text: &str) -> Vec<Vec<u8>> {
    text.lines().map(|l| l.as_bytes().to_vec()).collect()
}

const CHART: &str = "osu file format v14
[General]
AudioFilename: song.mp3
Mode: 3

[Metadata]
Title:Song
Artist:Someone
Version:Hard
[Difficulty]
CircleSize:7
[TimingPoints]
0,500,4,2,0,100,1,0
1000,-50,4,1,3,80,0,0
2000,250,4,1,0,100,1,0
[HitObjects]
36,192,500,1,0,0:0:0:0:
109,192,1500,1,2,0:0:0:0:
36,192,2500,128,0,3000:0:0:0:0:";

#[test]
fn reads_whole_chart() {
    let ls = lines(CHART);
    assert!(!chart_would_panic(&ls));
    let chart = from_lines(&ls, b"charts/song").ok().unwrap();
    assert_eq!(chart.format_version, 14);
    assert_eq!(chart.music_path, b"song.mp3".to_vec());
    assert_eq!(chart.chart_path, b"charts/song".to_vec());
    assert_eq!(chart.song_name(), Some(&b"Song"[..]));
    assert_eq!(chart.artist(), Some(&b"Someone"[..]));
    assert_eq!(chart.creator(), None);
    assert_eq!(chart.difficulty_name(), b"Hard");
    let notes = chart.notes();
    assert_eq!(notes.len(), 3);
    assert_eq!(notes[0].time, 500_000_000);
    assert_eq!(notes[0].column, 0);
    assert_eq!(notes[1].column, 1);
    assert_eq!(notes[2].end_time, Some(3_000_000_000));
    assert_eq!(notes[0].sound_index, Some(0));
    assert_eq!(notes[1].sound_index, Some(1));
    assert_eq!(notes[2].sound_index, Some(2));
    assert_eq!(chart.timing_points().len(), 3);
    assert_eq!(chart.timing_points()[1].value, TimingPointValue::SV(50_000_000));
    // 120 BPM for 2 s, 240 BPM for 1 s before the last note ends
    assert_eq!(chart.primary_beat, 500_000_000);
    assert_eq!(chart.primary_bpm(), (60_000_000_000, 500_000_000));
    // hit sounds inherit from the timing point in effect
    let s0 = chart.hit_sound_list(0).unwrap();
    match s0[0].source {
        HitSoundSource::SampleSet(shs) => {
            assert_eq!(shs.set, SampleSet::Soft);
            assert_eq!(shs.index, 0);
        }
        _ => panic!("expected a sample set sound"),
    }
    let s1 = chart.hit_sound_list(1).unwrap();
    assert_eq!(s1.len(), 2);
    match s1[1].source {
        HitSoundSource::SampleSet(shs) => {
            assert_eq!(shs.set, SampleSet::Normal);
            assert_eq!(shs.sound, SampleHitSoundSound::Whistle);
            assert_eq!(shs.index, 3);
        }
        _ => panic!("expected a sample set sound"),
    }
    assert!(chart.hit_sound_list(3).is_none());
}

#[test]
fn equal_sounds_share_an_entry() {
    let text = format!("{}\n36,192,3500,1,0,0:0:0:0:", CHART);
    let ls = lines(&text);
    let chart = from_lines(&ls, b"").ok().unwrap();
    assert_eq!(chart.notes().len(), 4);
    // the fourth note sounds like the third: both inherit from the last timing point
    assert_eq!(chart.notes()[3].sound_index, Some(2));
    assert!(chart.hit_sound_list(3).is_none());
}

#[test]
fn missing_version_name_defaults() {
    let text = CHART.replace("Version:Hard\n", "");
    let chart = from_lines(&lines(&text), b"").ok().unwrap();
    assert_eq!(chart.difficulty_name(), b"Unnamed");
}

#[test]
fn chart_errors() {
    assert_eq!(from_lines(&vec![], b"").err(), Some(ParseError::InvalidFile));
    assert_eq!(from_lines(&lines("hello"), b"").err(), Some(ParseError::InvalidFile));
    assert_eq!(
        from_lines(&lines("osu file format vX"), b"").err(),
        Some(ParseError::Parse(ParseContext::FileVersion, Some(Box::new(ParseError::InvalidNumber))))
    );
    // no notes is checked before the audio file
    assert_eq!(
        from_lines(&lines("osu file format v14\n[General]\nMode: 3"), b"").err(),
        Some(ParseError::Parse(ParseContext::NoNotes, None))
    );
    let no_audio = CHART.replace("AudioFilename: song.mp3\n", "");
    assert_eq!(
        from_lines(&lines(&no_audio), b"").err(),
        Some(ParseError::Parse(ParseContext::NoAudioFile, None))
    );
    // an error names its line, counting from 1
    let bad = CHART.replace("CircleSize:7", "CircleSize:4");
    assert_eq!(
        from_lines(&lines(&bad), b"").err(),
        Some(ParseError::Parse(
            ParseContext::Line(11),
            Some(Box::new(ParseError::Parse(ParseContext::NotSevenKey, None)))
        ))
    );
    let taiko = CHART.replace("Mode: 3", "Mode: 1");
    assert_eq!(
        from_lines(&lines(&taiko), b"").err(),
        Some(ParseError::Parse(
            ParseContext::Line(4),
            Some(Box::new(ParseError::Parse(ParseContext::WrongGameMode, None)))
        ))
    );
    let garbage = format!("{}\ngarbage", CHART);
    assert_eq!(
        from_lines(&lines(&garbage), b"").err(),
        Some(ParseError::Parse(
            ParseContext::Line(20),
            Some(Box::new(ParseError::Parse(
                ParseContext::HitObject,
                Some(Box::new(ParseError::InvalidNumber))
            )))
        ))
    );
    // a line before any section
    assert_eq!(
        from_lines(&lines("osu file format v14\nTitle:x"), b"").err(),
        Some(ParseError::Parse(ParseContext::Line(2), Some(Box::new(ParseError::InvalidFile))))
    );
}

#[test]
fn panicking_charts_are_found() {
    // a lone `[` cannot be read as a section header
    assert!(chart_would_panic(&lines("osu file format v14\n[")));
    // `AudioFilename:` without a value after the `: `
    assert!(chart_would_panic(&lines("osu file format v14\n[General]\nAudioFilename:")));
    assert!(!chart_would_panic(&lines("osu file format v14\n[General]\nAudioFilename: a")));
}

#[test]
fn header_and_sections() {
    assert_eq!(verify(b"osu file format v14"), Ok(14));
    assert_eq!(verify(b"osu file format v-3"), Ok(-3));
    assert_eq!(verify(b"osu file format 14"), Err(ParseError::InvalidFile));
    assert_eq!(parse_section(b"[Metadata]"), b"Metadata".to_vec());
    assert_eq!(parse_section(b"[]"), b"".to_vec());
    assert_eq!(parse_difficulty(b"CircleSize:7"), Ok(()));
    assert_eq!(parse_difficulty(b"OverallDifficulty:8"), Ok(()));
    assert_eq!(
        parse_difficulty(b"CircleSize:4"),
        Err(ParseError::Parse(ParseContext::NotSevenKey, None))
    );
    assert_eq!(parse_difficulty(b"CircleSize"), Err(ParseError::Parse(ParseContext::KeyValue, None)));
}

#[test]
fn parser_lines() {
    let mut p = OsuParser::new();
    assert_eq!(p.parse_line(b"Title:x"), Err(ParseError::InvalidFile));
    assert_eq!(p.parse_line(b""), Ok(()));
    assert_eq!(p.parse_line(b"[Editor]"), Ok(()));
    assert_eq!(p.current_section, Some(b"Editor".to_vec()));
    // lines of other sections are ignored
    assert_eq!(p.parse_line(b"whatever"), Ok(()));
    assert_eq!(p.parse_line(b"[Metadata]"), Ok(()));
    assert_eq!(p.parse_line(b"Creator:me"), Ok(()));
    assert_eq!(p.chart.creator, Some(b"me".to_vec()));
}

#[test]
fn timing_points() {
    let t = parse_timing_point_line(b"1000,-25,4,3,2,60,0,1").unwrap();
    assert_eq!(t.offset, 1_000_000_000);
    assert_eq!(t.value, TimingPointValue::SV(25_000_000));
    assert_eq!(t.sample_set, SampleSet::Drum);
    assert_eq!(t.sample_index, 2);
    assert_eq!(t.volume, 60);
    let t = parse_timing_point_line(b"12.5,333.33,4,9,0,100,1,0").unwrap();
    assert_eq!(t.offset, 12_500_000);
    assert_eq!(t.value, TimingPointValue::BPM(333_330_000));
    // an unknown sample set stands for the inherited one
    assert_eq!(t.sample_set, SampleSet::Auto);
    assert_eq!(
        parse_timing_point_line(b"0,500,4,2,0,100"),
        Err(ParseError::Parse(ParseContext::TimingPoint, Some(Box::new(ParseError::EOL))))
    );
    assert_eq!(
        parse_timing_point_line(b"0,fast,4,2,0,100,1,0"),
        Err(ParseError::Parse(ParseContext::TimingPoint, Some(Box::new(ParseError::InvalidNumber))))
    );
}

#[test]
fn hit_sound_file_names() {
    let shs = SampleHitSound { set: SampleSet::Soft, sound: SampleHitSoundSound::Whistle, index: 12 };
    let osu = possible_paths(shs, &SkinEntry::Osu("skins/a".to_string()));
    assert_eq!(osu.len(), 3);
    assert_eq!(osu[0].0, SoundDir::Chart);
    assert_eq!(osu[0].1, b"soft-hitwhistle12.wav".to_vec());
    assert_eq!(osu[1].0, SoundDir::Skin);
    assert_eq!(osu[1].1, b"soft-hitwhistle.wav".to_vec());
    assert_eq!(osu[2].0, SoundDir::DefaultSkin);
    let o2 = possible_paths(
        SampleHitSound { set: SampleSet::Auto, sound: SampleHitSoundSound::Clap, index: 1 },
        &SkinEntry::O2Jam("skins/b".to_string()),
    );
    assert_eq!(o2.len(), 2);
    assert_eq!(o2[0].1, b"-hitclap.wav".to_vec());
    assert_eq!(o2[1].0, SoundDir::DefaultSkin);
}

fn tp(offset_ms: i64, set: SampleSet, index: u32) -> OsuTimingPoint {
    OsuTimingPoint {
        offset: offset_ms * 1_000_000,
        value: TimingPointValue::BPM(500_000_000),
        sample_set: set,
        sample_index: index,
        volume: 100,
    }
}

#[test]
fn timing_point_inheritance() {
    let tps = vec![tp(1000, SampleSet::Soft, 2), tp(2000, SampleSet::Drum, 0), tp(3000, SampleSet::Normal, 4)];
    let ms = 1_000_000;
    assert_eq!(find_tp_inherit_from(500 * ms, &tps), Some(0));
    assert_eq!(find_tp_inherit_from(1000 * ms, &tps), Some(0));
    assert_eq!(find_tp_inherit_from(1999 * ms, &tps), Some(0));
    assert_eq!(find_tp_inherit_from(2000 * ms, &tps), Some(1));
    assert_eq!(find_tp_inherit_from(9000 * ms, &tps), Some(2));
    assert_eq!(find_tp_inherit_from(0, &vec![]), None);

    let auto = HitSound {
        source: HitSoundSource::SampleSet(SampleHitSound {
            set: SampleSet::Auto,
            sound: SampleHitSoundSound::Finish,
            index: 0,
        }),
        volume: 90,
    };
    let r = resolve_tp_inherit(&auto, 2500 * ms, &tps);
    match r.source {
        HitSoundSource::SampleSet(shs) => {
            assert_eq!(shs.set, SampleSet::Drum);
            // the timing point's index is 0 as well
            assert_eq!(shs.index, 0);
            assert_eq!(shs.sound, SampleHitSoundSound::Finish);
        }
        _ => panic!("expected a sample set sound"),
    }
    assert_eq!(r.volume, 90);
    // resolving again changes nothing
    assert_eq!(resolve_tp_inherit(&r, 2500 * ms, &tps), r);
    let none = resolve_tp_inherit(&auto, 0, &vec![]);
    match none.source {
        HitSoundSource::SampleSet(shs) => {
            assert_eq!(shs.set, SampleSet::Normal);
            assert_eq!(shs.index, 1);
        }
        _ => panic!("expected a sample set sound"),
    }
    let file = HitSound { source: HitSoundSource::File(b"x.wav".to_vec()), volume: 5 };
    assert_eq!(resolve_tp_inherit(&file, 0, &tps), file);
}

#[test]
fn parser_reads_hit_objects_and_keeps_state_on_errors() {
    let mut p = OsuParser::new();
    assert_eq!(p.parse_line(b"[HitObjects]"), Ok(()));
    assert_eq!(p.parse_line(b"0,0,5000,128,0,6000:0:0:0:70:"), Ok(()));
    assert_eq!(p.chart.hit_objects.len(), 1);
    assert_eq!(p.chart.hit_objects[0].time, 5_000_000_000);
    assert_eq!(p.chart.hit_objects[0].end_time, Some(6_000_000_000));
    assert_eq!(p.chart.hit_objects[0].column, 0);
    assert_eq!(p.parse_line(b"75,0,1337,0,0,0:0:0:10:potato.wav"), Ok(()));
    assert_eq!(p.chart.hit_objects.len(), 2);
    assert_eq!(p.chart.hit_objects[1].column, 1);
    // a malformed line is refused and adds nothing
    assert!(p.parse_line(b"75,0,1337").is_err());
    assert!(p.parse_line(b"x,0,1337,0,0,0:0:0:0:").is_err());
    assert_eq!(p.chart.hit_objects.len(), 2);
    assert_eq!(p.current_section, Some(b"HitObjects".to_vec()));

    assert_eq!(p.parse_line(b"[TimingPoints]"), Ok(()));
    assert_eq!(p.parse_line(b"0,500,4,2,0,100,1,0"), Ok(()));
    assert_eq!(p.chart.timing_points.len(), 1);
    assert!(p.parse_line(b"1000,-50,4").is_err());
    assert!(p.parse_line(b"1000,abc,4,1,3,80,0,0").is_err());
    assert_eq!(p.chart.timing_points.len(), 1);
    assert_eq!(p.chart.timing_points[0].offset, 0);
}
