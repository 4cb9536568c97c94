use keybridge::hid;
use keybridge::{code2keycode, keycode2code, modifier2keycode, modifiers2mask, Code, Modifiers};

fn letters() -> Vec<Code> {
    vec![
        Code::KeyA, Code::KeyB, Code::KeyC, Code::KeyD, Code::KeyE, Code::KeyF, Code::KeyG,
        Code::KeyH, Code::KeyI, Code::KeyJ, Code::KeyK, Code::KeyL, Code::KeyM, Code::KeyN,
        Code::KeyO, Code::KeyP, Code::KeyQ, Code::KeyR, Code::KeyS, Code::KeyT, Code::KeyU,
        Code::KeyV, Code::KeyW, Code::KeyX, Code::KeyY, Code::KeyZ,
    ]
}

#[test]
fn letters_have_usages_04_to_1d() {
    let mut expected: u8 = 0x04;
    for c in letters() {
        assert_eq!(code2keycode(&c), expected);
        expected += 1;
    }
    assert_eq!(expected, 0x1e);
}

#[test]
fn digits_have_usages_1e_to_27() {
    let digits = vec![
        Code::Digit1, Code::Digit2, Code::Digit3, Code::Digit4, Code::Digit5, Code::Digit6,
        Code::Digit7, Code::Digit8, Code::Digit9, Code::Digit0,
    ];
    let mut expected: u8 = 0x1e;
    for c in digits {
        assert_eq!(code2keycode(&c), expected);
        expected += 1;
    }
    assert_eq!(expected, 0x28);
}

#[test]
fn editing_keys_have_their_usages() {
    assert_eq!(code2keycode(&Code::Enter), 0x28);
    assert_eq!(code2keycode(&Code::Escape), 0x29);
    assert_eq!(code2keycode(&Code::Backspace), 0x2a);
    assert_eq!(code2keycode(&Code::Tab), 0x2b);
    assert_eq!(code2keycode(&Code::Space), 0x2c);
    assert_eq!(code2keycode(&Code::Delete), 0x4c);
}

#[test]
fn punctuation_keys_have_their_usages() {
    assert_eq!(code2keycode(&Code::Minus), 0x2d);
    assert_eq!(code2keycode(&Code::Equal), 0x2e);
    assert_eq!(code2keycode(&Code::BracketLeft), 0x2f);
    assert_eq!(code2keycode(&Code::BracketRight), 0x30);
    assert_eq!(code2keycode(&Code::Backslash), 0x31);
    assert_eq!(code2keycode(&Code::Semicolon), 0x33);
    assert_eq!(code2keycode(&Code::Quote), 0x34);
    assert_eq!(code2keycode(&Code::Backquote), 0x35);
    assert_eq!(code2keycode(&Code::Comma), 0x36);
    assert_eq!(code2keycode(&Code::Period), 0x37);
    assert_eq!(code2keycode(&Code::Slash), 0x38);
}

#[test]
fn function_keys_have_usages_3a_to_45() {
    let keys = vec![
        Code::F1, Code::F2, Code::F3, Code::F4, Code::F5, Code::F6, Code::F7, Code::F8, Code::F9,
        Code::F10, Code::F11, Code::F12,
    ];
    let mut expected: u8 = 0x3a;
    for c in keys {
        assert_eq!(code2keycode(&c), expected);
        expected += 1;
    }
    assert_eq!(expected, 0x46);
}

#[test]
fn arrows_have_usages_4f_to_52() {
    assert_eq!(code2keycode(&Code::ArrowRight), 0x4f);
    assert_eq!(code2keycode(&Code::ArrowLeft), 0x50);
    assert_eq!(code2keycode(&Code::ArrowDown), 0x51);
    assert_eq!(code2keycode(&Code::ArrowUp), 0x52);
}

#[test]
fn lock_and_system_keys_have_their_usages() {
    assert_eq!(code2keycode(&Code::CapsLock), 0x39);
    assert_eq!(code2keycode(&Code::PrintScreen), 0x46);
    assert_eq!(code2keycode(&Code::ScrollLock), 0x47);
    assert_eq!(code2keycode(&Code::Pause), 0x48);
}

#[test]
fn unidentified_key_has_usage_zero() {
    assert_eq!(code2keycode(&Code::Unidentified), 0);
    assert_eq!(keycode2code(0), Some(Code::Unidentified));
}

#[test]
fn keycode2code_undoes_code2keycode_on_every_byte() {
    let mut known: usize = 0;
    for b in 0..=255u8 {
        match keycode2code(b) {
            Some(c) => {
                assert_eq!(code2keycode(&c), b);
                known += 1;
            }
            None => {}
        }
    }
    assert_eq!(known, 74);
}

#[test]
fn keycode2code_names_no_key_for_a_byte_outside_the_table() {
    assert_eq!(keycode2code(0x01), None);
    assert_eq!(keycode2code(0x32), None);
    assert_eq!(keycode2code(0x49), None);
    assert_eq!(keycode2code(0x53), None);
    assert_eq!(keycode2code(0xff), None);
}

#[test]
fn keycode2code_finds_letters_and_digits() {
    assert_eq!(keycode2code(0x04), Some(Code::KeyA));
    assert_eq!(keycode2code(0x1d), Some(Code::KeyZ));
    assert_eq!(keycode2code(0x1e), Some(Code::Digit1));
    assert_eq!(keycode2code(0x27), Some(Code::Digit0));
}

#[test]
fn members_of_the_eight_have_their_bits() {
    assert_eq!(modifier2keycode(&Modifiers::from_bits(Modifiers::CONTROL)), 0x01);
    assert_eq!(modifier2keycode(&Modifiers::from_bits(Modifiers::SHIFT)), 0x02);
    assert_eq!(modifier2keycode(&Modifiers::from_bits(Modifiers::ALT)), 0x04);
    assert_eq!(modifier2keycode(&Modifiers::from_bits(Modifiers::META)), 0x08);
    assert_eq!(modifier2keycode(&Modifiers::from_bits(Modifiers::SUPER)), 0x08);
    assert_eq!(modifier2keycode(&Modifiers::from_bits(Modifiers::ALT_GRAPH)), 0x40);
}

#[test]
fn other_members_have_no_bit() {
    let others = vec![
        Modifiers::CAPS_LOCK, Modifiers::NUM_LOCK, Modifiers::SCROLL_LOCK, Modifiers::FN,
        Modifiers::FN_LOCK, Modifiers::SYMBOL, Modifiers::SYMBOL_LOCK, Modifiers::HYPER,
    ];
    let mut all: u32 = 0;
    for flag in others {
        assert_eq!(modifier2keycode(&Modifiers::from_bits(flag)), 0);
        all |= flag;
    }
    assert_eq!(modifier2keycode(&Modifiers::from_bits(all)), 0);
    assert_eq!(modifier2keycode(&Modifiers::from_bits(0)), 0);
    assert_eq!(modifier2keycode(&Modifiers::from_bits(0xffff_c000)), 0);
}

#[test]
fn set_of_several_members_has_all_their_bits() {
    assert_eq!(
        modifier2keycode(&Modifiers::from_bits(Modifiers::CONTROL | Modifiers::ALT)),
        0x05
    );
    assert_eq!(
        modifier2keycode(&Modifiers::from_bits(Modifiers::SHIFT | Modifiers::CAPS_LOCK)),
        0x02
    );
    assert_eq!(
        modifier2keycode(&Modifiers::from_bits(Modifiers::META | Modifiers::SUPER)),
        0x08
    );
    assert_eq!(
        modifier2keycode(&Modifiers::from_bits(
            Modifiers::CONTROL
                | Modifiers::SHIFT
                | Modifiers::ALT
                | Modifiers::META
                | Modifiers::ALT_GRAPH
        )),
        0x4f
    );
    assert_eq!(modifier2keycode(&Modifiers::from_bits(u32::MAX)), 0x4f);
}

#[test]
fn mask_of_two_sets_together_is_their_masks_together() {
    for a in 0..0x4000u32 {
        let b = a.wrapping_mul(0x9e37).rotate_left(3) & 0x3fff;
        let ma = modifier2keycode(&Modifiers::from_bits(a));
        let mb = modifier2keycode(&Modifiers::from_bits(b));
        assert_eq!(modifier2keycode(&Modifiers::from_bits(a | b)), ma | mb);
        assert_eq!(ma & 0xb0, 0);
    }
}

#[test]
fn optional_set_has_a_mask_unless_it_is_missing_or_without_bits() {
    assert_eq!(modifiers2mask(&None), None);
    assert_eq!(modifiers2mask(&Some(Modifiers::from_bits(Modifiers::ALT))), Some(0x04));
    assert_eq!(modifiers2mask(&Some(Modifiers::from_bits(Modifiers::ALT_GRAPH))), Some(0x40));
    assert_eq!(modifiers2mask(&Some(Modifiers::from_bits(Modifiers::CONTROL))), Some(0x01));
    assert_eq!(modifiers2mask(&Some(Modifiers::from_bits(Modifiers::SHIFT))), Some(0x02));
    assert_eq!(
        modifiers2mask(&Some(Modifiers::from_bits(Modifiers::ALT | Modifiers::SHIFT))),
        Some(0x06)
    );
    assert_eq!(modifiers2mask(&Some(Modifiers::from_bits(Modifiers::CAPS_LOCK))), None);
    assert_eq!(modifiers2mask(&Some(Modifiers::from_bits(0))), None);
}

#[test]
fn from_bits_keeps_the_bits() {
    assert_eq!(Modifiers::from_bits(0x2a5).bits, 0x2a5);
    assert_eq!(Modifiers::from_bits(Modifiers::SHIFT), Modifiers { bits: 0x200 });
}

#[test]
fn modifier_flags_are_distinct_bits() {
    let flags = vec![
        Modifiers::ALT, Modifiers::ALT_GRAPH, Modifiers::CAPS_LOCK, Modifiers::CONTROL,
        Modifiers::FN, Modifiers::FN_LOCK, Modifiers::META, Modifiers::NUM_LOCK,
        Modifiers::SCROLL_LOCK, Modifiers::SHIFT, Modifiers::SYMBOL, Modifiers::SYMBOL_LOCK,
        Modifiers::HYPER, Modifiers::SUPER,
    ];
    let mut all: u32 = 0;
    for f in flags {
        assert_eq!(f.count_ones(), 1);
        assert_eq!(all & f, 0);
        all |= f;
    }
    assert_eq!(all, 0x3fff);
}

#[test]
fn report_modifier_bits_are_the_eight_of_the_boot_keyboard() {
    assert_eq!(hid::LEFT_CTRL, 0x01);
    assert_eq!(hid::LEFT_SHIFT, 0x02);
    assert_eq!(hid::LEFT_ALT, 0x04);
    assert_eq!(hid::LEFT_GUI, 0x08);
    assert_eq!(hid::RIGHT_CTRL, 0x10);
    assert_eq!(hid::RIGHT_SHIFT, 0x20);
    assert_eq!(hid::RIGHT_ALT, 0x40);
    assert_eq!(hid::RIGHT_GUI, 0x80);
}

#[test]
fn usage_constants_are_at_the_crate_root_too() {
    assert_eq!(keybridge::KEY_A, 0x04);
    assert_eq!(keybridge::KEY_0, 0x27);
    assert_eq!(keybridge::ENTER, 0x28);
    assert_eq!(keybridge::KEY_UP, 0x52);
}
