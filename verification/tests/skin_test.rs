use remani::skin::{default_image_name, read_skin_ini, NoteBodyStyle, SkinImage, SkinIni};

fn ini(text: &str) -> SkinIni {
    let lines: Vec<Vec<u8>> = text.lines().map(|l| l.as_bytes().to_vec()).collect();
    read_skin_ini(&lines)
}

#[test]
fn defaults() {
    let s = ini("");
    assert_eq!(s.section, b"General".to_vec());
    assert_eq!(s.keys, 0);
    assert_eq!(s.column_start, 136);
    assert_eq!(s.column_width, [30; 7]);
    assert_eq!(s.column_line_width, [2; 8]);
    assert_eq!(s.colour_column_line, [255; 4]);
    assert_eq!(s.column_spacing, [0; 6]);
    assert_eq!(s.colour_light, [[255, 255, 255]; 7]);
    assert_eq!(s.hit_position, 402);
    assert_eq!(s.score_position, 240);
    assert_eq!(s.light_position, 413);
    assert_eq!(s.note_body_style, [NoteBodyStyle::CascadeFromTop; 7]);
    assert_eq!(s.image_name(SkinImage::Hit0).0, b"mania-hit0".to_vec());
    assert_eq!(s.image_name(SkinImage::LightingN).0, b"lightingN".to_vec());
    // columns follow the 1 2 1 S 1 2 1 pattern
    assert_eq!(default_image_name(SkinImage::Key(0)), b"mania-key1".to_vec());
    assert_eq!(default_image_name(SkinImage::Key(1)), b"mania-key2".to_vec());
    assert_eq!(default_image_name(SkinImage::Key(3)), b"mania-keyS".to_vec());
    assert_eq!(default_image_name(SkinImage::KeyDown(5)), b"mania-key2D".to_vec());
    assert_eq!(default_image_name(SkinImage::Note(6)), b"mania-note1".to_vec());
    assert_eq!(default_image_name(SkinImage::LongNoteHead(3)), b"mania-noteSH".to_vec());
    assert_eq!(default_image_name(SkinImage::LongNoteBody(2)), b"mania-note1L".to_vec());
    assert_eq!(default_image_name(SkinImage::LongNoteTail(1)), b"mania-note2T".to_vec());
    assert_eq!(default_image_name(SkinImage::StageBottom), b"mania-stage-bottom".to_vec());
}

const SKIN: &str = "[General]
Name: test
// a comment
[Mania]
Keys: 4
ColumnStart: 1
[Mania]
Keys: 7
ColumnStart: 200
HitPosition: 420
ScorePosition: +300
LightPosition: x
ColumnWidth: 40,41,42,43,44,45,46,47
ColumnLineWidth: 1,2,3
ColourColumnLine: 10,20,30,40
ColumnSpacing: 1, 2,3,4,5,6
NoteBodyStyle: 2
NoteBodyStyle3: 0
ColourLight2: 1,2,3
ColourLight8: 9,9,9
Hit300g: custom300g
KeyImage3D: mykey
NoteImage0T: tail
NoteImage7: ignored
StageLeft : left : with colon
";

#[test]
fn mania_settings() {
    let s = ini(SKIN);
    assert_eq!(s.section, b"Mania".to_vec());
    assert_eq!(s.keys, 7);
    assert_eq!(s.column_start, 200);
    assert_eq!(s.hit_position, 420);
    assert_eq!(s.score_position, 300);
    // a value that does not parse leaves the setting alone
    assert_eq!(s.light_position, 413);
    // extra values are ignored, too few are refused
    assert_eq!(s.column_width, [40, 41, 42, 43, 44, 45, 46]);
    assert_eq!(s.column_line_width, [2; 8]);
    assert_eq!(s.colour_column_line, [10, 20, 30, 40]);
    // values are not trimmed inside the list
    assert_eq!(s.column_spacing, [0; 6]);
    assert_eq!(
        s.note_body_style,
        [
            NoteBodyStyle::CascadeFromBottom,
            NoteBodyStyle::CascadeFromBottom,
            NoteBodyStyle::CascadeFromBottom,
            NoteBodyStyle::Stretch,
            NoteBodyStyle::CascadeFromBottom,
            NoteBodyStyle::CascadeFromBottom,
            NoteBodyStyle::CascadeFromBottom,
        ]
    );
    assert_eq!(s.colour_light[1], [1, 2, 3]);
    assert_eq!(s.colour_light[0], [255, 255, 255]);
    let (name, default) = s.image_name(SkinImage::Hit300g);
    assert_eq!(name, b"custom300g".to_vec());
    assert_eq!(default, b"mania-hit300g".to_vec());
    assert_eq!(s.image_name(SkinImage::KeyDown(3)).0, b"mykey".to_vec());
    assert_eq!(s.image_name(SkinImage::LongNoteTail(0)).0, b"tail".to_vec());
    assert_eq!(s.image_name(SkinImage::Note(6)).0, b"mania-note1".to_vec());
    assert_eq!(s.image_name(SkinImage::StageLeft).0, b"left : with colon".to_vec());
}

#[test]
fn settings_need_seven_keys_in_mania() {
    let s = ini("[Mania]\nKeys: 4\nColumnStart: 1\n[Other]\nKeys: 7\nColumnStart: 2");
    assert_eq!(s.keys, 7);
    assert_eq!(s.column_start, 136);
    let s = ini("[Mania]\nKeys: 7\nColumnStart: 1\n[Mania]\nColumnStart: 3");
    assert_eq!(s.column_start, 3);
}

#[test]
fn note_body_styles() {
    assert_eq!(NoteBodyStyle::from_bytes(b"0"), Some(NoteBodyStyle::Stretch));
    assert_eq!(NoteBodyStyle::from_bytes(b"1"), Some(NoteBodyStyle::CascadeFromTop));
    assert_eq!(NoteBodyStyle::from_bytes(b"2"), Some(NoteBodyStyle::CascadeFromBottom));
    assert_eq!(NoteBodyStyle::from_bytes(b"3"), None);
    assert_eq!(NoteBodyStyle::from_bytes(b"01"), None);
}
