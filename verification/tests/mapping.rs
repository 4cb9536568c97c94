use keybridge::{Action, Code, Mapping, Modifiers, Trigger};

fn m_alt(code: Code) -> Trigger {
    Trigger::new(Some(Modifiers::from_bits(Modifiers::ALT)), code)
}

fn m_bare(code: Code) -> Trigger {
    Trigger { modifiers: None, code }
}

#[test]
fn new_table_is_empty() {
    let m = Mapping::new();
    assert!(m.is_empty());
    assert_eq!(m.len(), 0);
    assert_eq!(m.lookup(&m_alt(Code::Digit2)), None);
}

#[test]
fn bound_chord_is_found() {
    let mut m = Mapping::new();
    m.add_mapping(m_alt(Code::Digit2), Action::Key(None, Code::Digit1));
    assert!(!m.is_empty());
    assert_eq!(m.len(), 1);
    assert_eq!(m.lookup(&m_alt(Code::Digit2)), Some(Action::Key(None, Code::Digit1)));
}

#[test]
fn unbound_chord_is_not_found() {
    let mut m = Mapping::new();
    m.add_mapping(m_alt(Code::Digit2), Action::Smart);
    assert_eq!(m.lookup(&m_alt(Code::Digit3)), None);
    assert_eq!(m.lookup(&m_bare(Code::Digit2)), None);
    assert_eq!(
        m.lookup(&Trigger::new(Some(Modifiers::from_bits(Modifiers::CONTROL)), Code::Digit2)),
        None
    );
}

#[test]
fn empty_mask_is_another_chord_than_none() {
    let mut m = Mapping::new();
    let none = m_bare(Code::KeyA);
    let empty = Trigger { modifiers: Some(0), code: Code::KeyA };
    m.add_mapping(none, Action::Smart);
    m.add_mapping(empty, Action::Key(None, Code::KeyB));
    assert_eq!(m.len(), 2);
    assert_eq!(m.lookup(&none), Some(Action::Smart));
    assert_eq!(m.lookup(&empty), Some(Action::Key(None, Code::KeyB)));
}

#[test]
fn binding_again_overwrites_in_place() {
    let mut m = Mapping::new();
    m.add_mapping(m_alt(Code::KeyA), Action::Smart);
    m.add_mapping(m_alt(Code::KeyB), Action::Smart);
    m.add_mapping(m_alt(Code::KeyA), Action::Key(None, Code::KeyZ));
    assert_eq!(m.len(), 2);
    assert_eq!(m.entry(0).unwrap(), (m_alt(Code::KeyA), Action::Key(None, Code::KeyZ)));
    assert_eq!(m.entry(1).unwrap(), (m_alt(Code::KeyB), Action::Smart));
    assert_eq!(m.lookup(&m_alt(Code::KeyA)), Some(Action::Key(None, Code::KeyZ)));
}

#[test]
fn bindings_keep_the_order_of_first_binding() {
    let mut m = Mapping::new();
    let keys = vec![Code::KeyC, Code::KeyA, Code::KeyB];
    for k in keys.iter() {
        m.add_mapping(m_bare(*k), Action::Key(None, *k));
    }
    assert_eq!(m.len(), 3);
    for (i, k) in keys.iter().enumerate() {
        assert_eq!(m.entry(i).unwrap(), (m_bare(*k), Action::Key(None, *k)));
    }
}

#[test]
fn replace_swaps_the_whole_table() {
    let mut current = Mapping::new();
    current.add_mapping(m_alt(Code::KeyA), Action::Smart);
    current.add_mapping(m_alt(Code::KeyB), Action::Smart);
    let mut next = Mapping::new();
    next.add_mapping(m_alt(Code::KeyC), Action::Key(None, Code::KeyD));
    current.replace(next);
    assert_eq!(current.len(), 1);
    assert_eq!(current.lookup(&m_alt(Code::KeyA)), None);
    assert_eq!(current.lookup(&m_alt(Code::KeyB)), None);
    assert_eq!(current.lookup(&m_alt(Code::KeyC)), Some(Action::Key(None, Code::KeyD)));
}

#[test]
fn replace_by_an_empty_table_unbinds_everything() {
    let mut current = Mapping::new();
    current.add_mapping(m_alt(Code::KeyA), Action::Smart);
    current.replace(Mapping::new());
    assert!(current.is_empty());
    assert_eq!(current.lookup(&m_alt(Code::KeyA)), None);
}

#[test]
fn many_chords_are_all_found() {
    let mut m = Mapping::new();
    for mask in 1..=255u8 {
        m.add_mapping(
            Trigger { modifiers: Some(mask), code: Code::KeyA },
            Action::Key(Some(mask), Code::KeyB),
        );
        m.add_mapping(Trigger { modifiers: Some(mask), code: Code::KeyC }, Action::Smart);
    }
    assert_eq!(m.len(), 510);
    for mask in 1..=255u8 {
        assert_eq!(
            m.lookup(&Trigger { modifiers: Some(mask), code: Code::KeyA }),
            Some(Action::Key(Some(mask), Code::KeyB))
        );
        assert_eq!(
            m.lookup(&Trigger { modifiers: Some(mask), code: Code::KeyC }),
            Some(Action::Smart)
        );
        assert_eq!(m.lookup(&Trigger { modifiers: Some(mask), code: Code::KeyB }), None);
    }
}

#[test]
fn chord_of_host_names_holds_the_mask_of_the_modifiers() {
    assert_eq!(
        Trigger::new(Some(Modifiers::from_bits(Modifiers::ALT)), Code::Digit2),
        Trigger { modifiers: Some(0x04), code: Code::Digit2 }
    );
    assert_eq!(
        Trigger::new(Some(Modifiers::from_bits(Modifiers::CONTROL)), Code::KeyC),
        Trigger { modifiers: Some(0x01), code: Code::KeyC }
    );
    assert_eq!(
        Trigger::new(Some(Modifiers::from_bits(Modifiers::ALT_GRAPH)), Code::KeyC),
        Trigger { modifiers: Some(0x40), code: Code::KeyC }
    );
    assert_eq!(
        Trigger::new(Some(Modifiers::from_bits(Modifiers::SHIFT)), Code::KeyA),
        Trigger { modifiers: Some(0x02), code: Code::KeyA }
    );
    assert_eq!(
        Trigger::new(
            Some(Modifiers::from_bits(Modifiers::ALT | Modifiers::CONTROL)),
            Code::KeyA
        ),
        Trigger { modifiers: Some(0x05), code: Code::KeyA }
    );
    assert_eq!(Trigger::new(None, Code::F5), Trigger { modifiers: None, code: Code::F5 });
}

#[test]
fn chords_that_differ_in_their_modifiers_are_bound_apart() {
    let plain = Trigger::new(None, Code::KeyA);
    let shift = Trigger::new(Some(Modifiers::from_bits(Modifiers::SHIFT)), Code::KeyA);
    let both = Trigger::new(
        Some(Modifiers::from_bits(Modifiers::CONTROL | Modifiers::ALT)),
        Code::KeyA,
    );
    let control = Trigger::new(Some(Modifiers::from_bits(Modifiers::CONTROL)), Code::KeyA);
    let mut m = Mapping::new();
    m.add_mapping(plain, Action::Key(None, Code::Digit1));
    m.add_mapping(shift, Action::Key(None, Code::Digit2));
    m.add_mapping(both, Action::Key(None, Code::Digit3));
    m.add_mapping(control, Action::Key(None, Code::Digit4));
    assert_eq!(m.len(), 4);
    assert_eq!(m.lookup(&plain), Some(Action::Key(None, Code::Digit1)));
    assert_eq!(m.lookup(&shift), Some(Action::Key(None, Code::Digit2)));
    assert_eq!(m.lookup(&both), Some(Action::Key(None, Code::Digit3)));
    assert_eq!(m.lookup(&control), Some(Action::Key(None, Code::Digit4)));
}

#[test]
fn chord_of_a_set_without_bits_has_no_modifiers() {
    assert_eq!(
        Trigger::new(Some(Modifiers::from_bits(Modifiers::CAPS_LOCK)), Code::KeyA),
        Trigger { modifiers: None, code: Code::KeyA }
    );
    assert_eq!(
        Trigger::new(Some(Modifiers::from_bits(0)), Code::KeyA),
        Trigger { modifiers: None, code: Code::KeyA }
    );
    assert_eq!(
        Trigger::new(
            Some(Modifiers::from_bits(Modifiers::NUM_LOCK | Modifiers::FN)),
            Code::KeyA
        ),
        Trigger { modifiers: None, code: Code::KeyA }
    );
}

#[test]
fn key_action_of_host_names_holds_the_mask_of_the_modifiers() {
    assert_eq!(Action::key(None, Code::Digit1), Action::Key(None, Code::Digit1));
    assert_eq!(
        Action::key(Some(Modifiers::from_bits(Modifiers::ALT)), Code::F4),
        Action::Key(Some(0x04), Code::F4)
    );
    assert_eq!(
        Action::key(Some(Modifiers::from_bits(Modifiers::SHIFT)), Code::F4),
        Action::Key(Some(0x02), Code::F4)
    );
    assert_eq!(
        Action::key(Some(Modifiers::from_bits(Modifiers::META)), Code::F4),
        Action::Key(Some(0x08), Code::F4)
    );
    assert_eq!(
        Action::key(Some(Modifiers::from_bits(Modifiers::CAPS_LOCK)), Code::F4),
        Action::Key(None, Code::F4)
    );
}

#[test]
fn place_behind_the_last_binding_holds_nothing() {
    let mut m = Mapping::new();
    assert_eq!(m.entry(0), None);
    m.add_mapping(m_alt(Code::KeyA), Action::Smart);
    assert_eq!(m.entry(0), Some((m_alt(Code::KeyA), Action::Smart)));
    assert_eq!(m.entry(1), None);
    assert_eq!(m.entry(usize::MAX), None);
}
