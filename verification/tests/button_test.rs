use remani::button::{button_name, key_name, mouse_name};
use remani::config::InputButton;

#[test]
fn key_names() {
    assert_eq!(button_name(InputButton::Keyboard { value: 0x09 }), "K_Tab");
    assert_eq!(button_name(InputButton::Keyboard { value: 0x61 }), "K_A");
    assert_eq!(button_name(InputButton::Keyboard { value: 0x4000_003A }), "K_F1");
    assert_eq!(button_name(InputButton::Keyboard { value: 0x4000_011A }), "K_Sleep");
    assert_eq!(button_name(InputButton::Keyboard { value: 0 }), "K_Unknown");
    // codes that name no key read as the unknown key
    assert_eq!(button_name(InputButton::Keyboard { value: 0x01 }), "K_Unknown");
    assert_eq!(button_name(InputButton::Keyboard { value: 12345 }), "K_Unknown");
    assert_eq!(key_name(0x20), "K_Space");
    assert_eq!(key_name(7), "K_Unknown");
}

#[test]
fn mouse_and_other_names() {
    assert_eq!(button_name(InputButton::Mouse { value: 1 }), "M_Left");
    assert_eq!(button_name(InputButton::Mouse { value: 8 }), "M_Button8");
    assert_eq!(button_name(InputButton::Mouse { value: 0 }), "M_Unknown");
    assert_eq!(button_name(InputButton::Mouse { value: 99 }), "M_Unknown");
    assert_eq!(mouse_name(3), "M_Middle");
    assert_eq!(button_name(InputButton::Controller { id: 0, button: 3 }), "???");
    assert_eq!(button_name(InputButton::Hat { id: 0, state: 1, which: 0 }), "???");
}

#[test]
fn key_names_agree_with_piston() {
    let ranges = [0u32..0x200, 0x4000_0000..0x4000_0200];
    for r in ranges.iter().cloned() {
        for v in r {
            let expected = format!("K_{:?}", input::Key::from(v));
            assert_eq!(button_name(InputButton::Keyboard { value: v }), expected, "code {:#x}", v);
        }
    }
    for v in 0u32..20 {
        let expected = format!("M_{:?}", input::MouseButton::from(v));
        assert_eq!(button_name(InputButton::Mouse { value: v }), expected);
    }
}
