use remani::config::{
    buffer_size_from_i64, buffer_size_from_str, buffer_size_from_u64, check_bindings_hint,
    entries_in_order, key_bindings_from, name_less, BufferSize, ChartPath, GameConfigVerifyError, InputButton, SkinEntry,
    UnverifiedGameConfig,
};

fn unverified(skin: &str, judge: &str) -> UnverifiedGameConfig<u32> {
    UnverifiedGameConfig {
        default_osu_skin_path: "rsc/default_osu_skin".to_string(),
        current_skin: skin.to_string(),
        current_judge: judge.to_string(),
        skins: vec![
            ("o2".to_string(), SkinEntry::O2Jam("skins/o2".to_string())),
            ("test".to_string(), SkinEntry::Osu("test/test_skin".to_string())),
        ],
        judges: vec![("easy".to_string(), 1), ("hell".to_string(), 2)],
    }
}

#[test]
fn finds_current_skin_and_judge() {
    let g = unverified("test", "hell").verify().unwrap();
    assert_eq!(g.current_skin().0, "test");
    match &g.current_skin().1 {
        SkinEntry::Osu(p) => assert_eq!(p, "test/test_skin"),
        _ => panic!("expected an osu skin"),
    }
    assert_eq!(g.current_judge(), &("hell".to_string(), 2));
    assert_eq!(g.default_osu_skin_path, "rsc/default_osu_skin");
}

#[test]
fn refuses_unknown_names() {
    assert_eq!(unverified("nope", "easy").verify().err(), Some(GameConfigVerifyError::BadCurrentSkin));
    assert_eq!(unverified("test", "nope").verify().err(), Some(GameConfigVerifyError::BadCurrentJudge));
    // the skin is checked first
    assert_eq!(unverified("nope", "nope").verify().err(), Some(GameConfigVerifyError::BadCurrentSkin));
}

#[test]
fn buffer_sizes() {
    assert_eq!(buffer_size_from_str("default"), Some(BufferSize::Default));
    assert_eq!(buffer_size_from_str("Default"), None);
    assert_eq!(buffer_size_from_i64(1024), Some(BufferSize::Fixed(1024)));
    assert_eq!(buffer_size_from_i64(0), None);
    assert_eq!(buffer_size_from_i64(-5), None);
    assert_eq!(buffer_size_from_u64(512), Some(BufferSize::Fixed(512)));
    assert_eq!(buffer_size_from_u64(0), None);
}

#[test]
fn key_bindings() {
    let b: Vec<InputButton> = (0..7).map(|v| InputButton::Keyboard { value: v }).collect();
    let a = key_bindings_from(&b).unwrap();
    assert_eq!(a[3], InputButton::Keyboard { value: 3 });
    assert_eq!(key_bindings_from(&b[..6].to_vec()), Err(6));
    let mut more = b.clone();
    more.push(InputButton::Mouse { value: 1 });
    assert_eq!(key_bindings_from(&more), Err(8));
    assert_eq!(check_bindings_hint(Some(7)), Ok(()));
    assert_eq!(check_bindings_hint(None), Ok(()));
    assert_eq!(check_bindings_hint(Some(3)), Err(3));
}

#[test]
fn chart_paths() {
    let p = ChartPath::Osu("songs".to_string());
    match p.clone() {
        ChartPath::Osu(s) => assert_eq!(s, "songs"),
        ChartPath::O2Jam(_) => panic!("expected an osu path"),
    }
}

#[test]
fn names_in_order() {
    use_name_order();
}

fn use_name_order() {
    assert!(name_less("easy", "hell"));
    assert!(!name_less("hell", "easy"));
    assert!(!name_less("easy", "easy"));
    assert!(name_less("ab", "abc"));
    assert!(!name_less("abc", "ab"));
    assert!(name_less("", "a"));
    assert!(name_less("Z", "a"));
    assert!(name_less("é", "ê"));
    let ok: Vec<(String, u32)> = vec![("a".to_string(), 1), ("b".to_string(), 2), ("ba".to_string(), 3)];
    assert!(entries_in_order(&ok));
    let twice: Vec<(String, u32)> = vec![("a".to_string(), 1), ("a".to_string(), 2)];
    assert!(!entries_in_order(&twice));
    let swapped: Vec<(String, u32)> = vec![("b".to_string(), 1), ("a".to_string(), 2)];
    assert!(!entries_in_order(&swapped));
    assert!(entries_in_order::<u32>(&Vec::new()));
    // the order is that of a BTreeMap's keys
    let mut m = std::collections::BTreeMap::new();
    for k in ["zeta", "Alpha", "alpha", "al", "ä", "b"] {
        m.insert(k.to_string(), 0u32);
    }
    let v: Vec<(String, u32)> = m.into_iter().collect();
    assert!(entries_in_order(&v));
}
