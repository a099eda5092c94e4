use vstd::prelude::*;

use crate::config::InputButton;

verus! {

/// The display name of the keyboard key with the given code, as the key
/// binding screen shows it; a code that names no key reads `K_Unknown`.
pub open spec fn key_label(code: u32) -> Seq<char> {
    match code {
        0x08 => "K_Backspace"@,
        0x09 => "K_Tab"@,
        0x0D => "K_Return"@,
        0x1B => "K_Escape"@,
        0x20 => "K_Space"@,
        0x21 => "K_Exclaim"@,
        0x22 => "K_Quotedbl"@,
        0x23 => "K_Hash"@,
        0x24 => "K_Dollar"@,
        0x25 => "K_Percent"@,
        0x26 => "K_Ampersand"@,
        0x27 => "K_Quote"@,
        0x28 => "K_LeftParen"@,
        0x29 => "K_RightParen"@,
        0x2A => "K_Asterisk"@,
        0x2B => "K_Plus"@,
        0x2C => "K_Comma"@,
        0x2D => "K_Minus"@,
        0x2E => "K_Period"@,
        0x2F => "K_Slash"@,
        0x30 => "K_D0"@,
        0x31 => "K_D1"@,
        0x32 => "K_D2"@,
        0x33 => "K_D3"@,
        0x34 => "K_D4"@,
        0x35 => "K_D5"@,
        0x36 => "K_D6"@,
        0x37 => "K_D7"@,
        0x38 => "K_D8"@,
        0x39 => "K_D9"@,
        0x3A => "K_Colon"@,
        0x3B => "K_Semicolon"@,
        0x3C => "K_Less"@,
        0x3D => "K_Equals"@,
        0x3E => "K_Greater"@,
        0x3F => "K_Question"@,
        0x40 => "K_At"@,
        0x5B => "K_LeftBracket"@,
        0x5C => "K_Backslash"@,
        0x5D => "K_RightBracket"@,
        0x5E => "K_Caret"@,
        0x5F => "K_Underscore"@,
        0x60 => "K_Backquote"@,
        0x61 => "K_A"@,
        0x62 => "K_B"@,
        0x63 => "K_C"@,
        0x64 => "K_D"@,
        0x65 => "K_E"@,
        0x66 => "K_F"@,
        0x67 => "K_G"@,
        0x68 => "K_H"@,
        0x69 => "K_I"@,
        0x6A => "K_J"@,
        0x6B => "K_K"@,
        0x6C => "K_L"@,
        0x6D => "K_M"@,
        0x6E => "K_N"@,
        0x6F => "K_O"@,
        0x70 => "K_P"@,
        0x71 => "K_Q"@,
        0x72 => "K_R"@,
        0x73 => "K_S"@,
        0x74 => "K_T"@,
        0x75 => "K_U"@,
        0x76 => "K_V"@,
        0x77 => "K_W"@,
        0x78 => "K_X"@,
        0x79 => "K_Y"@,
        0x7A => "K_Z"@,
        0x7F => "K_Delete"@,
        0x4000_0039 => "K_CapsLock"@,
        0x4000_003A => "K_F1"@,
        0x4000_003B => "K_F2"@,
        0x4000_003C => "K_F3"@,
        0x4000_003D => "K_F4"@,
        0x4000_003E => "K_F5"@,
        0x4000_003F => "K_F6"@,
        0x4000_0040 => "K_F7"@,
        0x4000_0041 => "K_F8"@,
        0x4000_0042 => "K_F9"@,
        0x4000_0043 => "K_F10"@,
        0x4000_0044 => "K_F11"@,
        0x4000_0045 => "K_F12"@,
        0x4000_0046 => "K_PrintScreen"@,
        0x4000_0047 => "K_ScrollLock"@,
        0x4000_0048 => "K_Pause"@,
        0x4000_0049 => "K_Insert"@,
        0x4000_004A => "K_Home"@,
        0x4000_004B => "K_PageUp"@,
        0x4000_004D => "K_End"@,
        0x4000_004E => "K_PageDown"@,
        0x4000_004F => "K_Right"@,
        0x4000_0050 => "K_Left"@,
        0x4000_0051 => "K_Down"@,
        0x4000_0052 => "K_Up"@,
        0x4000_0053 => "K_NumLockClear"@,
        0x4000_0054 => "K_NumPadDivide"@,
        0x4000_0055 => "K_NumPadMultiply"@,
        0x4000_0056 => "K_NumPadMinus"@,
        0x4000_0057 => "K_NumPadPlus"@,
        0x4000_0058 => "K_NumPadEnter"@,
        0x4000_0059 => "K_NumPad1"@,
        0x4000_005A => "K_NumPad2"@,
        0x4000_005B => "K_NumPad3"@,
        0x4000_005C => "K_NumPad4"@,
        0x4000_005D => "K_NumPad5"@,
        0x4000_005E => "K_NumPad6"@,
        0x4000_005F => "K_NumPad7"@,
        0x4000_0060 => "K_NumPad8"@,
        0x4000_0061 => "K_NumPad9"@,
        0x4000_0062 => "K_NumPad0"@,
        0x4000_0063 => "K_NumPadPeriod"@,
        0x4000_0065 => "K_Application"@,
        0x4000_0066 => "K_Power"@,
        0x4000_0067 => "K_NumPadEquals"@,
        0x4000_0068 => "K_F13"@,
        0x4000_0069 => "K_F14"@,
        0x4000_006A => "K_F15"@,
        0x4000_006B => "K_F16"@,
        0x4000_006C => "K_F17"@,
        0x4000_006D => "K_F18"@,
        0x4000_006E => "K_F19"@,
        0x4000_006F => "K_F20"@,
        0x4000_0070 => "K_F21"@,
        0x4000_0071 => "K_F22"@,
        0x4000_0072 => "K_F23"@,
        0x4000_0073 => "K_F24"@,
        0x4000_0074 => "K_Execute"@,
        0x4000_0075 => "K_Help"@,
        0x4000_0076 => "K_Menu"@,
        0x4000_0077 => "K_Select"@,
        0x4000_0078 => "K_Stop"@,
        0x4000_0079 => "K_Again"@,
        0x4000_007A => "K_Undo"@,
        0x4000_007B => "K_Cut"@,
        0x4000_007C => "K_Copy"@,
        0x4000_007D => "K_Paste"@,
        0x4000_007E => "K_Find"@,
        0x4000_007F => "K_Mute"@,
        0x4000_0080 => "K_VolumeUp"@,
        0x4000_0081 => "K_VolumeDown"@,
        0x4000_0085 => "K_NumPadComma"@,
        0x4000_0086 => "K_NumPadEqualsAS400"@,
        0x4000_0099 => "K_AltErase"@,
        0x4000_009A => "K_Sysreq"@,
        0x4000_009B => "K_Cancel"@,
        0x4000_009C => "K_Clear"@,
        0x4000_009D => "K_Prior"@,
        0x4000_009E => "K_Return2"@,
        0x4000_009F => "K_Separator"@,
        0x4000_00A0 => "K_Out"@,
        0x4000_00A1 => "K_Oper"@,
        0x4000_00A2 => "K_ClearAgain"@,
        0x4000_00A3 => "K_CrSel"@,
        0x4000_00A4 => "K_ExSel"@,
        0x4000_00B0 => "K_NumPad00"@,
        0x4000_00B1 => "K_NumPad000"@,
        0x4000_00B2 => "K_ThousandsSeparator"@,
        0x4000_00B3 => "K_DecimalSeparator"@,
        0x4000_00B4 => "K_CurrencyUnit"@,
        0x4000_00B5 => "K_CurrencySubUnit"@,
        0x4000_00B6 => "K_NumPadLeftParen"@,
        0x4000_00B7 => "K_NumPadRightParen"@,
        0x4000_00B8 => "K_NumPadLeftBrace"@,
        0x4000_00B9 => "K_NumPadRightBrace"@,
        0x4000_00BA => "K_NumPadTab"@,
        0x4000_00BB => "K_NumPadBackspace"@,
        0x4000_00BC => "K_NumPadA"@,
        0x4000_00BD => "K_NumPadB"@,
        0x4000_00BE => "K_NumPadC"@,
        0x4000_00BF => "K_NumPadD"@,
        0x4000_00C0 => "K_NumPadE"@,
        0x4000_00C1 => "K_NumPadF"@,
        0x4000_00C2 => "K_NumPadXor"@,
        0x4000_00C3 => "K_NumPadPower"@,
        0x4000_00C4 => "K_NumPadPercent"@,
        0x4000_00C5 => "K_NumPadLess"@,
        0x4000_00C6 => "K_NumPadGreater"@,
        0x4000_00C7 => "K_NumPadAmpersand"@,
        0x4000_00C8 => "K_NumPadDblAmpersand"@,
        0x4000_00C9 => "K_NumPadVerticalBar"@,
        0x4000_00CA => "K_NumPadDblVerticalBar"@,
        0x4000_00CB => "K_NumPadColon"@,
        0x4000_00CC => "K_NumPadHash"@,
        0x4000_00CD => "K_NumPadSpace"@,
        0x4000_00CE => "K_NumPadAt"@,
        0x4000_00CF => "K_NumPadExclam"@,
        0x4000_00D0 => "K_NumPadMemStore"@,
        0x4000_00D1 => "K_NumPadMemRecall"@,
        0x4000_00D2 => "K_NumPadMemClear"@,
        0x4000_00D3 => "K_NumPadMemAdd"@,
        0x4000_00D4 => "K_NumPadMemSubtract"@,
        0x4000_00D5 => "K_NumPadMemMultiply"@,
        0x4000_00D6 => "K_NumPadMemDivide"@,
        0x4000_00D7 => "K_NumPadPlusMinus"@,
        0x4000_00D8 => "K_NumPadClear"@,
        0x4000_00D9 => "K_NumPadClearEntry"@,
        0x4000_00DA => "K_NumPadBinary"@,
        0x4000_00DB => "K_NumPadOctal"@,
        0x4000_00DC => "K_NumPadDecimal"@,
        0x4000_00DD => "K_NumPadHexadecimal"@,
        0x4000_00E0 => "K_LCtrl"@,
        0x4000_00E1 => "K_LShift"@,
        0x4000_00E2 => "K_LAlt"@,
        0x4000_00E3 => "K_LGui"@,
        0x4000_00E4 => "K_RCtrl"@,
        0x4000_00E5 => "K_RShift"@,
        0x4000_00E6 => "K_RAlt"@,
        0x4000_00E7 => "K_RGui"@,
        0x4000_0101 => "K_Mode"@,
        0x4000_0102 => "K_AudioNext"@,
        0x4000_0103 => "K_AudioPrev"@,
        0x4000_0104 => "K_AudioStop"@,
        0x4000_0105 => "K_AudioPlay"@,
        0x4000_0106 => "K_AudioMute"@,
        0x4000_0107 => "K_MediaSelect"@,
        0x4000_0108 => "K_Www"@,
        0x4000_0109 => "K_Mail"@,
        0x4000_010A => "K_Calculator"@,
        0x4000_010B => "K_Computer"@,
        0x4000_010C => "K_AcSearch"@,
        0x4000_010D => "K_AcHome"@,
        0x4000_010E => "K_AcBack"@,
        0x4000_010F => "K_AcForward"@,
        0x4000_0110 => "K_AcStop"@,
        0x4000_0111 => "K_AcRefresh"@,
        0x4000_0112 => "K_AcBookmarks"@,
        0x4000_0113 => "K_BrightnessDown"@,
        0x4000_0114 => "K_BrightnessUp"@,
        0x4000_0115 => "K_DisplaySwitch"@,
        0x4000_0116 => "K_KbdIllumToggle"@,
        0x4000_0117 => "K_KbdIllumDown"@,
        0x4000_0118 => "K_KbdIllumUp"@,
        0x4000_0119 => "K_Eject"@,
        0x4000_011A => "K_Sleep"@,
        _ => "K_Unknown"@,
    }
}

/// The display name of the mouse button with the given number; a number that
/// names no button reads `M_Unknown`.
pub open spec fn mouse_label(code: u32) -> Seq<char> {
    match code {
        1 => "M_Left"@,
        2 => "M_Right"@,
        3 => "M_Middle"@,
        4 => "M_X1"@,
        5 => "M_X2"@,
        6 => "M_Button6"@,
        7 => "M_Button7"@,
        8 => "M_Button8"@,
        _ => "M_Unknown"@,
    }
}

/// The key code that piston's `Key` gives back for a raw code read from the
/// configuration: the code itself where it names a key, else that of
/// `Key::Unknown`.
pub uninterp spec fn piston_key_code(value: u32) -> u32;

/// Trusted: converts the raw code to piston's `input::Key` with `Key::from`
/// and back with `u32::from`. Piston's `From<u32>` maps each code of its key
/// table to that key and every other value to `Key::Unknown`, whose code is 0;
/// a key converts back to its own code. So the result is the value itself or
/// 0; which of the two is left to the name `piston_key_code`.
#[verifier::external_body]
fn key_code_from_piston(value: u32) -> (r: u32)
    ensures
        r == piston_key_code(value),
        r == value || r == 0,
{
    u32::from(::input::Key::from(value))
}

/// Trusted: converts the raw number to piston's `input::MouseButton` with
/// `MouseButton::from` and back with `u32::from`. Piston maps 0 to 8 to the
/// nine buttons in order and anything else to `MouseButton::Unknown`, number 0,
/// and each button converts back to its number.
#[verifier::external_body]
fn mouse_code_from_piston(value: u32) -> (r: u32)
    ensures
        r == (if value <= 8 { value } else { 0 }),
{
    u32::from(::input::MouseButton::from(value))
}

/// The display name of a keyboard key code.
pub fn key_name(code: u32) -> (r: &'static str)
    ensures
        r@ == key_label(code),
{
    match code {
        0x08 => "K_Backspace",
        0x09 => "K_Tab",
        0x0D => "K_Return",
        0x1B => "K_Escape",
        0x20 => "K_Space",
        0x21 => "K_Exclaim",
        0x22 => "K_Quotedbl",
        0x23 => "K_Hash",
        0x24 => "K_Dollar",
        0x25 => "K_Percent",
        0x26 => "K_Ampersand",
        0x27 => "K_Quote",
        0x28 => "K_LeftParen",
        0x29 => "K_RightParen",
        0x2A => "K_Asterisk",
        0x2B => "K_Plus",
        0x2C => "K_Comma",
        0x2D => "K_Minus",
        0x2E => "K_Period",
        0x2F => "K_Slash",
        0x30 => "K_D0",
        0x31 => "K_D1",
        0x32 => "K_D2",
        0x33 => "K_D3",
        0x34 => "K_D4",
        0x35 => "K_D5",
        0x36 => "K_D6",
        0x37 => "K_D7",
        0x38 => "K_D8",
        0x39 => "K_D9",
        0x3A => "K_Colon",
        0x3B => "K_Semicolon",
        0x3C => "K_Less",
        0x3D => "K_Equals",
        0x3E => "K_Greater",
        0x3F => "K_Question",
        0x40 => "K_At",
        0x5B => "K_LeftBracket",
        0x5C => "K_Backslash",
        0x5D => "K_RightBracket",
        0x5E => "K_Caret",
        0x5F => "K_Underscore",
        0x60 => "K_Backquote",
        0x61 => "K_A",
        0x62 => "K_B",
        0x63 => "K_C",
        0x64 => "K_D",
        0x65 => "K_E",
        0x66 => "K_F",
        0x67 => "K_G",
        0x68 => "K_H",
        0x69 => "K_I",
        0x6A => "K_J",
        0x6B => "K_K",
        0x6C => "K_L",
        0x6D => "K_M",
        0x6E => "K_N",
        0x6F => "K_O",
        0x70 => "K_P",
        0x71 => "K_Q",
        0x72 => "K_R",
        0x73 => "K_S",
        0x74 => "K_T",
        0x75 => "K_U",
        0x76 => "K_V",
        0x77 => "K_W",
        0x78 => "K_X",
        0x79 => "K_Y",
        0x7A => "K_Z",
        0x7F => "K_Delete",
        0x4000_0039 => "K_CapsLock",
        0x4000_003A => "K_F1",
        0x4000_003B => "K_F2",
        0x4000_003C => "K_F3",
        0x4000_003D => "K_F4",
        0x4000_003E => "K_F5",
        0x4000_003F => "K_F6",
        0x4000_0040 => "K_F7",
        0x4000_0041 => "K_F8",
        0x4000_0042 => "K_F9",
        0x4000_0043 => "K_F10",
        0x4000_0044 => "K_F11",
        0x4000_0045 => "K_F12",
        0x4000_0046 => "K_PrintScreen",
        0x4000_0047 => "K_ScrollLock",
        0x4000_0048 => "K_Pause",
        0x4000_0049 => "K_Insert",
        0x4000_004A => "K_Home",
        0x4000_004B => "K_PageUp",
        0x4000_004D => "K_End",
        0x4000_004E => "K_PageDown",
        0x4000_004F => "K_Right",
        0x4000_0050 => "K_Left",
        0x4000_0051 => "K_Down",
        0x4000_0052 => "K_Up",
        0x4000_0053 => "K_NumLockClear",
        0x4000_0054 => "K_NumPadDivide",
        0x4000_0055 => "K_NumPadMultiply",
        0x4000_0056 => "K_NumPadMinus",
        0x4000_0057 => "K_NumPadPlus",
        0x4000_0058 => "K_NumPadEnter",
        0x4000_0059 => "K_NumPad1",
        0x4000_005A => "K_NumPad2",
        0x4000_005B => "K_NumPad3",
        0x4000_005C => "K_NumPad4",
        0x4000_005D => "K_NumPad5",
        0x4000_005E => "K_NumPad6",
        0x4000_005F => "K_NumPad7",
        0x4000_0060 => "K_NumPad8",
        0x4000_0061 => "K_NumPad9",
        0x4000_0062 => "K_NumPad0",
        0x4000_0063 => "K_NumPadPeriod",
        0x4000_0065 => "K_Application",
        0x4000_0066 => "K_Power",
        0x4000_0067 => "K_NumPadEquals",
        0x4000_0068 => "K_F13",
        0x4000_0069 => "K_F14",
        0x4000_006A => "K_F15",
        0x4000_006B => "K_F16",
        0x4000_006C => "K_F17",
        0x4000_006D => "K_F18",
        0x4000_006E => "K_F19",
        0x4000_006F => "K_F20",
        0x4000_0070 => "K_F21",
        0x4000_0071 => "K_F22",
        0x4000_0072 => "K_F23",
        0x4000_0073 => "K_F24",
        0x4000_0074 => "K_Execute",
        0x4000_0075 => "K_Help",
        0x4000_0076 => "K_Menu",
        0x4000_0077 => "K_Select",
        0x4000_0078 => "K_Stop",
        0x4000_0079 => "K_Again",
        0x4000_007A => "K_Undo",
        0x4000_007B => "K_Cut",
        0x4000_007C => "K_Copy",
        0x4000_007D => "K_Paste",
        0x4000_007E => "K_Find",
        0x4000_007F => "K_Mute",
        0x4000_0080 => "K_VolumeUp",
        0x4000_0081 => "K_VolumeDown",
        0x4000_0085 => "K_NumPadComma",
        0x4000_0086 => "K_NumPadEqualsAS400",
        0x4000_0099 => "K_AltErase",
        0x4000_009A => "K_Sysreq",
        0x4000_009B => "K_Cancel",
        0x4000_009C => "K_Clear",
        0x4000_009D => "K_Prior",
        0x4000_009E => "K_Return2",
        0x4000_009F => "K_Separator",
        0x4000_00A0 => "K_Out",
        0x4000_00A1 => "K_Oper",
        0x4000_00A2 => "K_ClearAgain",
        0x4000_00A3 => "K_CrSel",
        0x4000_00A4 => "K_ExSel",
        0x4000_00B0 => "K_NumPad00",
        0x4000_00B1 => "K_NumPad000",
        0x4000_00B2 => "K_ThousandsSeparator",
        0x4000_00B3 => "K_DecimalSeparator",
        0x4000_00B4 => "K_CurrencyUnit",
        0x4000_00B5 => "K_CurrencySubUnit",
        0x4000_00B6 => "K_NumPadLeftParen",
        0x4000_00B7 => "K_NumPadRightParen",
        0x4000_00B8 => "K_NumPadLeftBrace",
        0x4000_00B9 => "K_NumPadRightBrace",
        0x4000_00BA => "K_NumPadTab",
        0x4000_00BB => "K_NumPadBackspace",
        0x4000_00BC => "K_NumPadA",
        0x4000_00BD => "K_NumPadB",
        0x4000_00BE => "K_NumPadC",
        0x4000_00BF => "K_NumPadD",
        0x4000_00C0 => "K_NumPadE",
        0x4000_00C1 => "K_NumPadF",
        0x4000_00C2 => "K_NumPadXor",
        0x4000_00C3 => "K_NumPadPower",
        0x4000_00C4 => "K_NumPadPercent",
        0x4000_00C5 => "K_NumPadLess",
        0x4000_00C6 => "K_NumPadGreater",
        0x4000_00C7 => "K_NumPadAmpersand",
        0x4000_00C8 => "K_NumPadDblAmpersand",
        0x4000_00C9 => "K_NumPadVerticalBar",
        0x4000_00CA => "K_NumPadDblVerticalBar",
        0x4000_00CB => "K_NumPadColon",
        0x4000_00CC => "K_NumPadHash",
        0x4000_00CD => "K_NumPadSpace",
        0x4000_00CE => "K_NumPadAt",
        0x4000_00CF => "K_NumPadExclam",
        0x4000_00D0 => "K_NumPadMemStore",
        0x4000_00D1 => "K_NumPadMemRecall",
        0x4000_00D2 => "K_NumPadMemClear",
        0x4000_00D3 => "K_NumPadMemAdd",
        0x4000_00D4 => "K_NumPadMemSubtract",
        0x4000_00D5 => "K_NumPadMemMultiply",
        0x4000_00D6 => "K_NumPadMemDivide",
        0x4000_00D7 => "K_NumPadPlusMinus",
        0x4000_00D8 => "K_NumPadClear",
        0x4000_00D9 => "K_NumPadClearEntry",
        0x4000_00DA => "K_NumPadBinary",
        0x4000_00DB => "K_NumPadOctal",
        0x4000_00DC => "K_NumPadDecimal",
        0x4000_00DD => "K_NumPadHexadecimal",
        0x4000_00E0 => "K_LCtrl",
        0x4000_00E1 => "K_LShift",
        0x4000_00E2 => "K_LAlt",
        0x4000_00E3 => "K_LGui",
        0x4000_00E4 => "K_RCtrl",
        0x4000_00E5 => "K_RShift",
        0x4000_00E6 => "K_RAlt",
        0x4000_00E7 => "K_RGui",
        0x4000_0101 => "K_Mode",
        0x4000_0102 => "K_AudioNext",
        0x4000_0103 => "K_AudioPrev",
        0x4000_0104 => "K_AudioStop",
        0x4000_0105 => "K_AudioPlay",
        0x4000_0106 => "K_AudioMute",
        0x4000_0107 => "K_MediaSelect",
        0x4000_0108 => "K_Www",
        0x4000_0109 => "K_Mail",
        0x4000_010A => "K_Calculator",
        0x4000_010B => "K_Computer",
        0x4000_010C => "K_AcSearch",
        0x4000_010D => "K_AcHome",
        0x4000_010E => "K_AcBack",
        0x4000_010F => "K_AcForward",
        0x4000_0110 => "K_AcStop",
        0x4000_0111 => "K_AcRefresh",
        0x4000_0112 => "K_AcBookmarks",
        0x4000_0113 => "K_BrightnessDown",
        0x4000_0114 => "K_BrightnessUp",
        0x4000_0115 => "K_DisplaySwitch",
        0x4000_0116 => "K_KbdIllumToggle",
        0x4000_0117 => "K_KbdIllumDown",
        0x4000_0118 => "K_KbdIllumUp",
        0x4000_0119 => "K_Eject",
        0x4000_011A => "K_Sleep",
        _ => "K_Unknown",
    }
}

/// The display name of a mouse button number.
pub fn mouse_name(code: u32) -> (r: &'static str)
    ensures
        r@ == mouse_label(code),
{
    match code {
        1 => "M_Left",
        2 => "M_Right",
        3 => "M_Middle",
        4 => "M_X1",
        5 => "M_X2",
        6 => "M_Button6",
        7 => "M_Button7",
        8 => "M_Button8",
        _ => "M_Unknown",
    }
}

/// The display name of a bound button: keys and mouse buttons by their name
/// (through piston's reading of the raw code), controller buttons and hat
/// switches as `???`.
pub fn button_name(button: InputButton) -> (r: &'static str)
    ensures
        r@ == match button {
            InputButton::Keyboard { value } => key_label(piston_key_code(value)),
            InputButton::Mouse { value } => mouse_label(if value <= 8 { value } else { 0 }),
            _ => "???"@,
        },
{
    match button {
        InputButton::Keyboard { value } => key_name(key_code_from_piston(value)),
        InputButton::Mouse { value } => mouse_name(mouse_code_from_piston(value)),
        _ => "???",
    }
}

} // verus!
