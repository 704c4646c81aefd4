//! Input families, prompt glyphs, and remapping of binds. Gameplay verbs
//! stay on the table; only controls move.
use vstd::prelude::*;

use crate::names::Verb;

verus! {

/// A physical control.
#[derive(Copy, Clone, PartialEq, Eq, Structural, PartialOrd, Ord, Hash, Debug)]
pub enum Button {
    /// Key E.
    KeyE,
    /// Key F.
    KeyF,
    /// Key G.
    KeyG,
    /// Key T.
    KeyT,
    /// Key P.
    KeyP,
    /// Key R.
    KeyR,
    /// Space bar.
    KeySpace,
    /// Enter.
    KeyEnter,
    /// Arrow up.
    KeyUp,
    /// Arrow down.
    KeyDown,
    /// Arrow left.
    KeyLeft,
    /// Arrow right.
    KeyRight,
    /// Escape.
    KeyEsc,
    /// Left mouse button.
    MouseLeft,
    /// Pad face south.
    PadSouth,
    /// Pad face west.
    PadWest,
    /// Pad face east.
    PadEast,
    /// Pad start.
    PadStart,
    /// D-pad up.
    PadUp,
    /// D-pad down.
    PadDown,
    /// D-pad left.
    PadLeft,
    /// D-pad right.
    PadRight,
    /// Pad face north.
    PadNorth,
}

/// Device family a bind or glyph belongs to.
#[derive(Copy, Clone, PartialEq, Eq, Structural, Hash, Debug)]
pub enum InputFamily {
    /// Keyboard plus mouse.
    KeyboardMouse,
    /// Gamepad face / D-pad / start.
    Gamepad,
}

/// The gamepad controls.
pub open spec fn is_pad(b: Button) -> bool {
    b == Button::PadSouth || b == Button::PadWest || b == Button::PadEast || b == Button::PadStart || b
        == Button::PadUp || b == Button::PadDown || b == Button::PadLeft || b == Button::PadRight || b
        == Button::PadNorth
}

/// The family of a control: gamepad controls, else keyboard and mouse.
pub open spec fn spec_family(b: Button) -> InputFamily {
    if is_pad(b) {
        InputFamily::Gamepad
    } else {
        InputFamily::KeyboardMouse
    }
}

/// Verbs the first-title bind table must cover in a family.
pub open spec fn spec_required(f: InputFamily) -> Seq<Verb> {
    match f {
        InputFamily::KeyboardMouse => seq![
            Verb::Use,
            Verb::Carry,
            Verb::Drop,
            Verb::Talk,
            Verb::Time,
            Verb::Pay,
            Verb::Fire,
        ],
        InputFamily::Gamepad => seq![Verb::Use, Verb::Carry, Verb::Drop, Verb::Talk],
    }
}

impl InputFamily {
    /// True when `button` belongs to this family.
    pub fn contains(self, button: Button) -> (r: bool)
        ensures
            r == (spec_family(button) == self),
    {
        let pad = button == Button::PadSouth || button == Button::PadWest || button == Button::PadEast
            || button == Button::PadStart || button == Button::PadUp || button == Button::PadDown || button
            == Button::PadLeft || button == Button::PadRight || button == Button::PadNorth;
        match self {
            InputFamily::KeyboardMouse => !pad,
            InputFamily::Gamepad => pad,
        }
    }

    /// Verbs the first-title bind table must cover for this family.
    pub fn required_verbs(self) -> (r: Vec<Verb>)
        ensures
            r@ == spec_required(self),
    {
        match self {
            InputFamily::KeyboardMouse => vec![
                Verb::Use,
                Verb::Carry,
                Verb::Drop,
                Verb::Talk,
                Verb::Time,
                Verb::Pay,
                Verb::Fire,
            ],
            InputFamily::Gamepad => vec![Verb::Use, Verb::Carry, Verb::Drop, Verb::Talk],
        }
    }

    /// Catalog name.
    pub fn as_str(self) -> (r: &'static str)
        ensures
            r@ == match self {
                InputFamily::KeyboardMouse => "keyboard_mouse"@,
                InputFamily::Gamepad => "gamepad"@,
            },
    {
        match self {
            InputFamily::KeyboardMouse => "keyboard_mouse",
            InputFamily::Gamepad => "gamepad",
        }
    }
}

/// Why a remap was refused.
#[derive(Clone, PartialEq, Eq, Structural, Debug)]
pub enum RemapError {
    /// `verb` is not in the table.
    Missing {
        /// Missing verb.
        verb: Verb,
    },
    /// `button` is not bound, so it cannot swap.
    Occupied {
        /// Occupied control.
        button: Button,
        /// Verb already on it.
        verb: Verb,
    },
}

/// Controller / keyboard glyph for prompts. Color is never the only cue.
pub fn glyph(button: Button) -> (r: &'static str)
    ensures
        r@ == match button {
            Button::KeyE => "E"@,
            Button::KeyF => "F"@,
            Button::KeyG => "G"@,
            Button::KeyT => "T"@,
            Button::KeyP => "P"@,
            Button::KeyR => "R"@,
            Button::KeySpace => "Space"@,
            Button::KeyEnter => "Enter"@,
            Button::MouseLeft => "Mouse1"@,
            Button::PadSouth => "A"@,
            Button::PadWest => "X"@,
            Button::PadEast => "B"@,
            Button::PadStart => "Start"@,
            Button::KeyUp => "Up"@,
            Button::KeyDown => "Down"@,
            Button::KeyLeft => "Left"@,
            Button::KeyRight => "Right"@,
            Button::KeyEsc => "Esc"@,
            Button::PadUp => "DPadUp"@,
            Button::PadDown => "DPadDown"@,
            Button::PadLeft => "DPadLeft"@,
            Button::PadRight => "DPadRight"@,
            Button::PadNorth => "Y"@,
        },
{
    match button {
        Button::KeyE => "E",
        Button::KeyF => "F",
        Button::KeyG => "G",
        Button::KeyT => "T",
        Button::KeyP => "P",
        Button::KeyR => "R",
        Button::KeySpace => "Space",
        Button::KeyEnter => "Enter",
        Button::MouseLeft => "Mouse1",
        Button::PadSouth => "A",
        Button::PadWest => "X",
        Button::PadEast => "B",
        Button::PadStart => "Start",
        Button::KeyUp => "Up",
        Button::KeyDown => "Down",
        Button::KeyLeft => "Left",
        Button::KeyRight => "Right",
        Button::KeyEsc => "Esc",
        Button::PadUp => "DPadUp",
        Button::PadDown => "DPadDown",
        Button::PadLeft => "DPadLeft",
        Button::PadRight => "DPadRight",
        Button::PadNorth => "Y",
    }
}

fn family_of(button: Button) -> (r: InputFamily)
    ensures
        r == spec_family(button),
{
    if InputFamily::Gamepad.contains(button) {
        InputFamily::Gamepad
    } else {
        InputFamily::KeyboardMouse
    }
}

/// One verb on one control.
#[derive(Copy, Clone, PartialEq, Eq, Structural, Debug)]
pub struct Bind {
    /// Gameplay verb.
    pub verb: Verb,
    /// Control it is bound to.
    pub button: Button,
}

/// Verbs of a table, in order.
pub open spec fn verbs_of(t: Seq<Bind>) -> Seq<Verb> {
    t.map_values(|b: Bind| b.verb)
}

/// The first bind at or after `k` for `verb` in `family`.
pub open spec fn first_bind(t: Seq<Bind>, verb: Verb, family: InputFamily, k: int) -> Option<int>
    decreases t.len() - k,
{
    if k < 0 || k >= t.len() {
        None
    } else if t[k].verb == verb && spec_family(t[k].button) == family {
        Some(k)
    } else {
        first_bind(t, verb, family, k + 1)
    }
}

/// The first bind at or after `k` on `button`.
pub open spec fn first_on(t: Seq<Bind>, button: Button, k: int) -> Option<int>
    decreases t.len() - k,
{
    if k < 0 || k >= t.len() {
        None
    } else if t[k].button == button {
        Some(k)
    } else {
        first_on(t, button, k + 1)
    }
}

/// `t` with the control of bind `i` set to `b`.
pub open spec fn set_button(t: Seq<Bind>, i: int, b: Button) -> Seq<Bind> {
    t.update(i, Bind { button: b, ..t[i] })
}

/// Rebind `verb` (in `button`'s family) to `button`: already there is a
/// no-op; a control held by another bind swaps controls with it; a free
/// control is taken.
pub open spec fn spec_rebind(t: Seq<Bind>, verb: Verb, button: Button) -> Result<Seq<Bind>, RemapError> {
    match first_bind(t, verb, spec_family(button), 0) {
        None => Err(RemapError::Missing { verb }),
        Some(src) => if t[src].button == button {
            Ok(t)
        } else {
            match first_on(t, button, 0) {
                Some(dst) => Ok(set_button(set_button(t, dst, t[src].button), src, button)),
                None => Ok(set_button(t, src, button)),
            }
        },
    }
}

fn find_bind(t: &Vec<Bind>, verb: Verb, family: InputFamily) -> (r: Option<usize>)
    ensures
        r matches Some(k) ==> first_bind(t@, verb, family, 0) == Some(k as int),
        r is None ==> first_bind(t@, verb, family, 0) is None,
{
    let mut i: usize = 0;
    while i < t.len()
        invariant
            0 <= i <= t@.len(),
            first_bind(t@, verb, family, 0) == first_bind(t@, verb, family, i as int),
        decreases t@.len() - i,
    {
        if t[i].verb == verb && family_of(t[i].button) == family {
            return Some(i);
        }
        i = i + 1;
    }
    None
}

fn find_on(t: &Vec<Bind>, button: Button) -> (r: Option<usize>)
    ensures
        r matches Some(k) ==> first_on(t@, button, 0) == Some(k as int),
        r is None ==> first_on(t@, button, 0) is None,
{
    let mut i: usize = 0;
    while i < t.len()
        invariant
            0 <= i <= t@.len(),
            first_on(t@, button, 0) == first_on(t@, button, i as int),
        decreases t@.len() - i,
    {
        if t[i].button == button {
            return Some(i);
        }
        i = i + 1;
    }
    None
}

proof fn lemma_first_bind_found(t: Seq<Bind>, verb: Verb, family: InputFamily, k: int)
    requires
        first_bind(t, verb, family, k) matches Some(i),
    ensures
        first_bind(t, verb, family, k) matches Some(i) && k <= i < t.len() && t[i].verb == verb && spec_family(t[i].button) == family,
    decreases t.len() - k,
{
    if !(t[k].verb == verb && spec_family(t[k].button) == family) {
        lemma_first_bind_found(t, verb, family, k + 1);
    }
}

proof fn lemma_first_on_found(t: Seq<Bind>, button: Button, k: int)
    requires
        first_on(t, button, k) matches Some(i),
    ensures
        first_on(t, button, k) matches Some(i) && k <= i < t.len() && t[i].button == button,
    decreases t.len() - k,
{
    if t[k].button != button {
        lemma_first_on_found(t, button, k + 1);
    }
}

/// Rebind `verb` to `button` within `button`'s family.
pub fn rebind(table: &mut Vec<Bind>, verb: Verb, button: Button) -> (r: Result<(), RemapError>)
    ensures
        match spec_rebind(old(table)@, verb, button) {
            Ok(t) => r is Ok && final(table)@ == t,
            Err(e) => r == Err::<(), RemapError>(e) && final(table)@ == old(table)@,
        },
{
    let src = match find_bind(table, verb, family_of(button)) {
        None => {
            return Err(RemapError::Missing { verb });
        },
        Some(i) => i,
    };
    proof {
        lemma_first_bind_found(table@, verb, spec_family(button), 0);
    }
    if table[src].button == button {
        return Ok(());
    }
    match find_on(table, button) {
        Some(dst) => {
            proof {
                lemma_first_on_found(table@, button, 0);
            }
            let a = table[src].button;
            let mut bd = table[dst];
            bd.button = a;
            table.set(dst, bd);
            let mut bs = table[src];
            bs.button = button;
            table.set(src, bs);
            Ok(())
        },
        None => {
            let mut bs = table[src];
            bs.button = button;
            table.set(src, bs);
            Ok(())
        },
    }
}

/// Rebinding moves controls only: the verbs of the table, in order, are
/// unchanged, so every verb that was covered stays bound.
pub proof fn lemma_rebind_keeps_verbs(t: Seq<Bind>, verb: Verb, button: Button)
    ensures
        spec_rebind(t, verb, button) matches Ok(u) ==> verbs_of(u) == verbs_of(t),
{
    if let Some(src) = first_bind(t, verb, spec_family(button), 0) {
        lemma_first_bind_found(t, verb, spec_family(button), 0);
        if t[src].button != button {
            match first_on(t, button, 0) {
                Some(dst) => {
                    lemma_first_on_found(t, button, 0);
                    let u = set_button(set_button(t, dst, t[src].button), src, button);
                    assert(verbs_of(u) =~= verbs_of(t));
                },
                None => {
                    assert(verbs_of(set_button(t, src, button)) =~= verbs_of(t));
                },
            }
        }
    }
}

/// After a successful rebind the verb's first bind in the family sits on
/// the requested control.
pub proof fn lemma_rebind_lands(t: Seq<Bind>, verb: Verb, button: Button)
    ensures
        spec_rebind(t, verb, button) matches Ok(u) ==> (first_bind(t, verb, spec_family(button), 0) matches Some(
            i,
        ) && u[i].button == button && u[i].verb == verb),
{
    if let Some(src) = first_bind(t, verb, spec_family(button), 0) {
        lemma_first_bind_found(t, verb, spec_family(button), 0);
        if t[src].button != button {
            if let Some(dst) = first_on(t, button, 0) {
                lemma_first_on_found(t, button, 0);
            }
        }
    }
}

/// Swap the controls of the binds on `a` and `b`.
pub fn swap(table: &mut Vec<Bind>, a: Button, b: Button) -> (r: Result<(), RemapError>)
    ensures
        match (first_on(old(table)@, a, 0), first_on(old(table)@, b, 0)) {
            (Some(ia), Some(ib)) => r is Ok && final(table)@ == set_button(
                set_button(old(table)@, ia, old(table)@[ib].button),
                ib,
                old(table)@[ia].button,
            ),
            (None, _) => r == Err::<(), RemapError>(RemapError::Occupied { button: a, verb: Verb::Look })
                && final(table)@ == old(table)@,
            (Some(_), None) => r == Err::<(), RemapError>(RemapError::Occupied { button: b, verb: Verb::Look })
                && final(table)@ == old(table)@,
        },
{
    let ia = match find_on(table, a) {
        None => {
            return Err(RemapError::Occupied { button: a, verb: Verb::Look });
        },
        Some(i) => i,
    };
    let ib = match find_on(table, b) {
        None => {
            return Err(RemapError::Occupied { button: b, verb: Verb::Look });
        },
        Some(i) => i,
    };
    proof {
        lemma_first_on_found(table@, a, 0);
        lemma_first_on_found(table@, b, 0);
    }
    let ba = table[ia].button;
    let bb = table[ib].button;
    let mut x = table[ia];
    x.button = bb;
    table.set(ia, x);
    let mut y = table[ib];
    y.button = ba;
    table.set(ib, y);
    Ok(())
}


/// The table binds `verb` on some control of `family`.
pub open spec fn covers(t: Seq<Bind>, verb: Verb, family: InputFamily) -> bool {
    exists|i: int| 0 <= i < t.len() && t[i].verb == verb && spec_family(t[i].button) == family
}

/// Every verb `family` requires is bound in that family.
pub open spec fn spec_coverage(t: Seq<Bind>, family: InputFamily) -> bool {
    forall|k: int| 0 <= k < spec_required(family).len() ==> covers(t, #[trigger] spec_required(family)[k], family)
}

proof fn lemma_first_bind_covers(t: Seq<Bind>, verb: Verb, family: InputFamily, k: int)
    requires
        0 <= k,
    ensures
        first_bind(t, verb, family, k) is None ==> forall|i: int|
            k <= i < t.len() ==> !(#[trigger] t[i].verb == verb && spec_family(t[i].button) == family),
    decreases t.len() - k,
{
    if k < t.len() {
        lemma_first_bind_covers(t, verb, family, k + 1);
    }
}

/// True when every required verb for `family` is bound.
pub fn coverage_complete(table: &Vec<Bind>, family: InputFamily) -> (r: bool)
    ensures
        r == spec_coverage(table@, family),
{
    let req = family.required_verbs();
    let mut k: usize = 0;
    while k < req.len()
        invariant
            req@ == spec_required(family),
            0 <= k <= req@.len(),
            forall|j: int| 0 <= j < k ==> covers(table@, #[trigger] spec_required(family)[j], family),
        decreases req@.len() - k,
    {
        let v = req[k];
        match find_bind(table, v, family) {
            Some(_) => {
                proof {
                    lemma_first_bind_found(table@, v, family, 0);
                }
            },
            None => {
                proof {
                    lemma_first_bind_covers(table@, v, family, 0);
                    assert(!covers(table@, spec_required(family)[k as int], family));
                }
                return false;
            },
        }
        k = k + 1;
    }
    true
}

/// A successful rebind keeps each bind's verb and family, so every verb a
/// family covered before it is still covered after it.
pub proof fn lemma_rebind_keeps_coverage(t: Seq<Bind>, verb: Verb, button: Button, v: Verb, family: InputFamily)
    requires
        covers(t, v, family),
    ensures
        spec_rebind(t, verb, button) matches Ok(u) ==> covers(u, v, family),
{
    if let Some(src) = first_bind(t, verb, spec_family(button), 0) {
        lemma_first_bind_found(t, verb, spec_family(button), 0);
        if t[src].button != button {
            let i = choose|i: int| 0 <= i < t.len() && t[i].verb == v && spec_family(t[i].button) == family;
            match first_on(t, button, 0) {
                Some(dst) => {
                    lemma_first_on_found(t, button, 0);
                    let u = set_button(set_button(t, dst, t[src].button), src, button);
                    assert(u[i].verb == v && spec_family(u[i].button) == family);
                },
                None => {
                    let u = set_button(t, src, button);
                    assert(u[i].verb == v && spec_family(u[i].button) == family);
                },
            }
        }
    }
}

} // verus!
