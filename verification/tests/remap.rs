use klotho::names::Verb;
use klotho::remap::{coverage_complete, glyph, rebind, swap, Bind, Button, InputFamily, RemapError};

fn table() -> Vec<Bind> {
    vec![
        Bind { verb: Verb::Use, button: Button::KeyE },
        Bind { verb: Verb::Carry, button: Button::KeyF },
        Bind { verb: Verb::Drop, button: Button::KeyG },
        Bind { verb: Verb::Use, button: Button::PadSouth },
        Bind { verb: Verb::Carry, button: Button::PadEast },
    ]
}

fn button_for(t: &[Bind], verb: Verb, family: InputFamily) -> Button {
    t.iter().find(|b| b.verb == verb && family.contains(b.button)).unwrap().button
}

#[test]
fn glyphs_and_families() {
    assert_eq!(glyph(Button::PadSouth), "A");
    assert_eq!(glyph(Button::KeyE), "E");
    assert_eq!(glyph(Button::MouseLeft), "Mouse1");
    assert!(InputFamily::Gamepad.contains(Button::PadNorth));
    assert!(!InputFamily::Gamepad.contains(Button::KeyEsc));
    assert!(InputFamily::KeyboardMouse.contains(Button::MouseLeft));
    assert_eq!(InputFamily::Gamepad.required_verbs(), vec![Verb::Use, Verb::Carry, Verb::Drop, Verb::Talk]);
    assert_eq!(InputFamily::KeyboardMouse.required_verbs().len(), 7);
    assert_eq!(InputFamily::KeyboardMouse.as_str(), "keyboard_mouse");
}

#[test]
fn rebind_onto_an_occupied_key_swaps() {
    let mut t = table();
    rebind(&mut t, Verb::Use, Button::KeyF).unwrap();
    assert_eq!(button_for(&t, Verb::Use, InputFamily::KeyboardMouse), Button::KeyF);
    assert_eq!(button_for(&t, Verb::Carry, InputFamily::KeyboardMouse), Button::KeyE);
    let verbs: Vec<Verb> = t.iter().map(|b| b.verb).collect();
    let before: Vec<Verb> = table().iter().map(|b| b.verb).collect();
    assert_eq!(verbs, before);
}

#[test]
fn rebind_onto_a_free_key_takes_it() {
    let mut t = table();
    rebind(&mut t, Verb::Use, Button::KeyEsc).unwrap();
    assert_eq!(button_for(&t, Verb::Use, InputFamily::KeyboardMouse), Button::KeyEsc);
    assert_eq!(t.len(), 5);
}

#[test]
fn rebind_of_an_unbound_verb_fails() {
    let mut t = table();
    assert_eq!(rebind(&mut t, Verb::Reload, Button::KeyE), Err(RemapError::Missing { verb: Verb::Reload }));
    assert_eq!(t, table());
    assert_eq!(rebind(&mut t, Verb::Drop, Button::PadWest), Err(RemapError::Missing { verb: Verb::Drop }));
}

#[test]
fn pad_rebind_leaves_the_keyboard_alone() {
    let mut t = table();
    rebind(&mut t, Verb::Use, Button::PadWest).unwrap();
    assert_eq!(button_for(&t, Verb::Use, InputFamily::Gamepad), Button::PadWest);
    assert_eq!(button_for(&t, Verb::Use, InputFamily::KeyboardMouse), Button::KeyE);
    rebind(&mut t, Verb::Use, Button::PadWest).unwrap();
    assert_eq!(button_for(&t, Verb::Use, InputFamily::Gamepad), Button::PadWest);
}

#[test]
fn swap_exchanges_bound_controls() {
    let mut t = table();
    swap(&mut t, Button::KeyE, Button::KeyG).unwrap();
    assert_eq!(button_for(&t, Verb::Use, InputFamily::KeyboardMouse), Button::KeyG);
    assert_eq!(button_for(&t, Verb::Drop, InputFamily::KeyboardMouse), Button::KeyE);
    assert_eq!(
        swap(&mut t, Button::KeyT, Button::KeyE),
        Err(RemapError::Occupied { button: Button::KeyT, verb: Verb::Look })
    );
    assert_eq!(
        swap(&mut t, Button::KeyE, Button::KeyT),
        Err(RemapError::Occupied { button: Button::KeyT, verb: Verb::Look })
    );
}

fn full_pad_table() -> Vec<Bind> {
    vec![
        Bind { verb: Verb::Use, button: Button::PadSouth },
        Bind { verb: Verb::Carry, button: Button::PadEast },
        Bind { verb: Verb::Drop, button: Button::PadWest },
        Bind { verb: Verb::Talk, button: Button::PadNorth },
        Bind { verb: Verb::Use, button: Button::KeyE },
    ]
}

#[test]
fn coverage_needs_every_required_verb_in_the_family() {
    let t = full_pad_table();
    assert!(coverage_complete(&t, InputFamily::Gamepad));
    assert!(!coverage_complete(&t, InputFamily::KeyboardMouse));
    assert!(!coverage_complete(&table(), InputFamily::Gamepad));
    let mut short = full_pad_table();
    short.remove(3);
    assert!(!coverage_complete(&short, InputFamily::Gamepad));
}

#[test]
fn rebind_keeps_gamepad_coverage() {
    let mut t = full_pad_table();
    rebind(&mut t, Verb::Use, Button::PadEast).unwrap();
    assert_eq!(button_for(&t, Verb::Use, InputFamily::Gamepad), Button::PadEast);
    assert_eq!(button_for(&t, Verb::Carry, InputFamily::Gamepad), Button::PadSouth);
    assert!(coverage_complete(&t, InputFamily::Gamepad));
    rebind(&mut t, Verb::Talk, Button::PadStart).unwrap();
    assert!(coverage_complete(&t, InputFamily::Gamepad));
}
