use vstd::prelude::*;

use crate::canvas::Canvas;
use crate::input::{Key, KeySet};
use crate::keymap::{executed, released_actions, still_waiting, Action, Keymap, Keytest};
use crate::tools::{tool_is_drafting, ModeStack};

verus! {

/// What a key combination asks the application to do.
#[derive(Clone, Copy, PartialEq, Eq, Structural, Debug)]
pub enum Command {
    SaveAsFile,
    SaveFile,
    LoadFromFile,
    NewFile,
    ChooseDrawTool,
    DeleteSelectedItems,
    ToggleFullscreen,
    ToggleMaximized,
    Cut,
    Copy,
    Paste,
    SelectAll,
    SelectNone,
    RecolorSelection,
    ChooseSelectTool,
    ChooseMoveTool,
    ChooseRotateTool,
    ChooseResizeTool,
    Undo,
    Redo,
    DiscardDraft,
    HoldPanTool,
    ReleasePanTool,
    HoldZoomTool,
    ReleaseZoomTool,
    HoldOrbitTool,
    ReleaseOrbitTool,
    HoldColorPickerTool,
    ReleaseColorPickerTool,
}

/// A key combination: the keys held as modifiers, the keys that set it off,
/// whether a held key's repeats set it off again, and what it does.
pub struct Binding {
    pub modifiers: KeySet,
    pub triggers: KeySet,
    pub is_repeatable: bool,
    pub action: Action<Command>,
}

/// A binding as sets of keys.
pub open spec fn binding_view(b: Binding) -> (Set<Key>, Set<Key>, bool, Action<Command>) {
    (b.modifiers@, b.triggers@, b.is_repeatable, b.action)
}

pub open spec fn one(a: Key) -> Set<Key> {
    Set::empty().insert(a)
}

pub open spec fn two(a: Key, b: Key) -> Set<Key> {
    one(a).union(one(b))
}

pub open spec fn trigger(c: Command) -> Action<Command> {
    Action::Trigger { on_trigger: c }
}

pub open spec fn discovery(press: Command, release: Command) -> Action<Command> {
    Action::Discovery { on_press: press, on_release: release }
}

/// The application's key bindings.
pub open spec fn default_binding_table() -> Seq<(Set<Key>, Set<Key>, bool, Action<Command>)> {
    let none = Set::<Key>::empty();
    seq![
        (two(Key::Control, Key::Shift), one(Key::S), false, trigger(Command::SaveAsFile)),
        (one(Key::Control), one(Key::S), false, trigger(Command::SaveFile)),
        (one(Key::Control), one(Key::O), false, trigger(Command::LoadFromFile)),
        (one(Key::Control), one(Key::N), false, trigger(Command::NewFile)),
        (none, one(Key::B), false, trigger(Command::ChooseDrawTool)),
        (none, one(Key::Backspace), false, trigger(Command::DeleteSelectedItems)),
        (two(Key::Control, Key::Shift), one(Key::F), false, trigger(Command::ToggleFullscreen)),
        (one(Key::Control), one(Key::F), false, trigger(Command::ToggleMaximized)),
        (one(Key::Control), one(Key::X), false, trigger(Command::Cut)),
        (one(Key::Control), one(Key::C), false, trigger(Command::Copy)),
        (one(Key::Control), one(Key::V), false, trigger(Command::Paste)),
        (none, one(Key::A), false, trigger(Command::SelectAll)),
        (one(Key::Shift), one(Key::A), false, trigger(Command::SelectNone)),
        (one(Key::Tab), one(Key::R), false, trigger(Command::RecolorSelection)),
        (none, one(Key::S), false, trigger(Command::ChooseSelectTool)),
        (none, one(Key::T), false, trigger(Command::ChooseMoveTool)),
        (one(Key::Shift), one(Key::R), false, trigger(Command::ChooseRotateTool)),
        (one(Key::Control), one(Key::R), false, trigger(Command::ChooseResizeTool)),
        (none, one(Key::Z), true, trigger(Command::Undo)),
        (one(Key::Shift), one(Key::Z), true, trigger(Command::Redo)),
        (none, one(Key::Escape), false, trigger(Command::DiscardDraft)),
        (none, one(Key::Space), false, discovery(Command::HoldPanTool, Command::ReleasePanTool)),
        (none, two(Key::Control, Key::Space), false, discovery(Command::HoldZoomTool, Command::ReleaseZoomTool)),
        (none, two(Key::Shift, Key::Space), false, discovery(Command::HoldOrbitTool, Command::ReleaseOrbitTool)),
        (none, one(Key::Tab), false, discovery(Command::HoldColorPickerTool, Command::ReleaseColorPickerTool)),
    ]
}

fn bind(modifiers: KeySet, triggers: KeySet, is_repeatable: bool, action: Action<Command>) -> (r: Binding)
    ensures
        binding_view(r) == (modifiers@, triggers@, is_repeatable, action),
{
    Binding { modifiers, triggers, is_repeatable, action }
}

fn pair(a: Key, b: Key) -> (r: KeySet)
    ensures
        r@ == two(a, b),
        r.spec_bits() == crate::input::key_bit(a) | crate::input::key_bit(b),
        r.valid(),
{
    KeySet::single(a).union(KeySet::single(b))
}

/// The application's key bindings, in the order they are bound.
pub fn default_bindings() -> (r: Vec<Binding>)
    ensures
        r@.map_values(|b: Binding| binding_view(b)) == default_binding_table(),
{
    let none = KeySet::empty();
    let mut r: Vec<Binding> = Vec::new();
    r.push(bind(pair(Key::Control, Key::Shift), KeySet::single(Key::S), false, Action::Trigger { on_trigger: Command::SaveAsFile }));
    r.push(bind(KeySet::single(Key::Control), KeySet::single(Key::S), false, Action::Trigger { on_trigger: Command::SaveFile }));
    r.push(bind(KeySet::single(Key::Control), KeySet::single(Key::O), false, Action::Trigger { on_trigger: Command::LoadFromFile }));
    r.push(bind(KeySet::single(Key::Control), KeySet::single(Key::N), false, Action::Trigger { on_trigger: Command::NewFile }));
    r.push(bind(none, KeySet::single(Key::B), false, Action::Trigger { on_trigger: Command::ChooseDrawTool }));
    r.push(bind(none, KeySet::single(Key::Backspace), false, Action::Trigger { on_trigger: Command::DeleteSelectedItems }));
    r.push(bind(pair(Key::Control, Key::Shift), KeySet::single(Key::F), false, Action::Trigger { on_trigger: Command::ToggleFullscreen }));
    r.push(bind(KeySet::single(Key::Control), KeySet::single(Key::F), false, Action::Trigger { on_trigger: Command::ToggleMaximized }));
    r.push(bind(KeySet::single(Key::Control), KeySet::single(Key::X), false, Action::Trigger { on_trigger: Command::Cut }));
    r.push(bind(KeySet::single(Key::Control), KeySet::single(Key::C), false, Action::Trigger { on_trigger: Command::Copy }));
    r.push(bind(KeySet::single(Key::Control), KeySet::single(Key::V), false, Action::Trigger { on_trigger: Command::Paste }));
    r.push(bind(none, KeySet::single(Key::A), false, Action::Trigger { on_trigger: Command::SelectAll }));
    r.push(bind(KeySet::single(Key::Shift), KeySet::single(Key::A), false, Action::Trigger { on_trigger: Command::SelectNone }));
    r.push(bind(KeySet::single(Key::Tab), KeySet::single(Key::R), false, Action::Trigger { on_trigger: Command::RecolorSelection }));
    r.push(bind(none, KeySet::single(Key::S), false, Action::Trigger { on_trigger: Command::ChooseSelectTool }));
    r.push(bind(none, KeySet::single(Key::T), false, Action::Trigger { on_trigger: Command::ChooseMoveTool }));
    r.push(bind(KeySet::single(Key::Shift), KeySet::single(Key::R), false, Action::Trigger { on_trigger: Command::ChooseRotateTool }));
    r.push(bind(KeySet::single(Key::Control), KeySet::single(Key::R), false, Action::Trigger { on_trigger: Command::ChooseResizeTool }));
    r.push(bind(none, KeySet::single(Key::Z), true, Action::Trigger { on_trigger: Command::Undo }));
    r.push(bind(KeySet::single(Key::Shift), KeySet::single(Key::Z), true, Action::Trigger { on_trigger: Command::Redo }));
    r.push(bind(none, KeySet::single(Key::Escape), false, Action::Trigger { on_trigger: Command::DiscardDraft }));
    r.push(bind(none, KeySet::single(Key::Space), false, Action::Discovery { on_press: Command::HoldPanTool, on_release: Command::ReleasePanTool }));
    r.push(bind(none, pair(Key::Control, Key::Space), false, Action::Discovery { on_press: Command::HoldZoomTool, on_release: Command::ReleaseZoomTool }));
    r.push(bind(none, pair(Key::Shift, Key::Space), false, Action::Discovery { on_press: Command::HoldOrbitTool, on_release: Command::ReleaseOrbitTool }));
    r.push(bind(none, KeySet::single(Key::Tab), false, Action::Discovery { on_press: Command::HoldColorPickerTool, on_release: Command::ReleaseColorPickerTool }));
    assert(r@.map_values(|b: Binding| binding_view(b)) =~= default_binding_table());
    r
}

/// Whether `m` binds the combination numbered `key` as `row` says, the
/// number being that of valid key sets `modifiers` and `triggers` with the
/// row's keys.
pub open spec fn binds_by(
    m: Map<u64, Keytest<Command>>,
    key: u64,
    row: (Set<Key>, Set<Key>, bool, Action<Command>),
    modifiers: KeySet,
    triggers: KeySet,
) -> bool {
    &&& m.contains_key(key)
    &&& m[key].triggers@ == row.1
    &&& m[key].is_repeatable == row.2
    &&& m[key].action == row.3
    &&& modifiers.valid() && triggers.valid()
    &&& modifiers@ == row.0 && triggers@ == row.1
    &&& key == modifiers.spec_bits() | triggers.spec_bits()
}

/// Whether `m` binds the combination numbered `key` as `row` says.
pub open spec fn binds(m: Map<u64, Keytest<Command>>, key: u64, row: (Set<Key>, Set<Key>, bool, Action<Command>)) -> bool {
    exists|modifiers: KeySet, triggers: KeySet| #[trigger] binds_by(m, key, row, modifiers, triggers)
}

/// The number of the key combination of each binding, bit `key_index(k)` set
/// for each key `k` of its modifiers and its triggers.
pub open spec fn default_binding_keys() -> Seq<u64> {
    seq![
        0x30010000000,
        0x10010000000,
        0x10001000000,
        0x10000800000,
        0x800,
        0x2000000000,
        0x30000008000,
        0x10000008000,
        0x10200000000,
        0x10000001000,
        0x10080000000,
        0x400,
        0x20000000400,
        0x8008000000,
        0x10000000,
        0x20000000,
        0x20008000000,
        0x10008000000,
        0x800000000,
        0x20800000000,
        0x1000000000,
        0x4000000000,
        0x14000000000,
        0x24000000000,
        0x8000000000,
    ]
}

/// The numbers of the bound key combinations, from the bits of their keys.
proof fn lemma_binding_key_numbers()
    by (bit_vector)
    ensures
        ((1u64 << 40u64) | (1u64 << 41u64)) | (1u64 << 28u64) == 0x30010000000u64,
        (1u64 << 40u64) | (1u64 << 28u64) == 0x10010000000u64,
        (1u64 << 40u64) | (1u64 << 24u64) == 0x10001000000u64,
        (1u64 << 40u64) | (1u64 << 23u64) == 0x10000800000u64,
        0u64 | (1u64 << 11u64) == 0x800u64,
        0u64 | (1u64 << 37u64) == 0x2000000000u64,
        ((1u64 << 40u64) | (1u64 << 41u64)) | (1u64 << 15u64) == 0x30000008000u64,
        (1u64 << 40u64) | (1u64 << 15u64) == 0x10000008000u64,
        (1u64 << 40u64) | (1u64 << 33u64) == 0x10200000000u64,
        (1u64 << 40u64) | (1u64 << 12u64) == 0x10000001000u64,
        (1u64 << 40u64) | (1u64 << 31u64) == 0x10080000000u64,
        0u64 | (1u64 << 10u64) == 0x400u64,
        (1u64 << 41u64) | (1u64 << 10u64) == 0x20000000400u64,
        (1u64 << 39u64) | (1u64 << 27u64) == 0x8008000000u64,
        0u64 | (1u64 << 28u64) == 0x10000000u64,
        0u64 | (1u64 << 29u64) == 0x20000000u64,
        (1u64 << 41u64) | (1u64 << 27u64) == 0x20008000000u64,
        (1u64 << 40u64) | (1u64 << 27u64) == 0x10008000000u64,
        0u64 | (1u64 << 35u64) == 0x800000000u64,
        (1u64 << 41u64) | (1u64 << 35u64) == 0x20800000000u64,
        0u64 | (1u64 << 36u64) == 0x1000000000u64,
        0u64 | (1u64 << 38u64) == 0x4000000000u64,
        0u64 | ((1u64 << 40u64) | (1u64 << 38u64)) == 0x14000000000u64,
        0u64 | ((1u64 << 41u64) | (1u64 << 38u64)) == 0x24000000000u64,
        0u64 | (1u64 << 39u64) == 0x8000000000u64,
{
}

/// The keymap of the application's key bindings: exactly one combination per
/// row of `default_binding_table`, under the number of its keys.
pub fn default_keymap() -> (r: Keymap<Command>)
    ensures
        is_default_keymap(r),
        r.keytests().dom().len() == 25,
        r.keytests().dom() == default_binding_keys().to_set(),
        forall|i: int| 0 <= i < 25 ==> #[trigger] binds(r.keytests(), default_binding_keys()[i], default_binding_table()[i]),
        r.waiting_releases().len() == 0,
{
    let mut keymap = Keymap::new();
    let (m0, t0) = (pair(Key::Control, Key::Shift), KeySet::single(Key::S));
    keymap.insert(m0, t0, false, Action::Trigger { on_trigger: Command::SaveAsFile });
    let (m1, t1) = (KeySet::single(Key::Control), KeySet::single(Key::S));
    keymap.insert(m1, t1, false, Action::Trigger { on_trigger: Command::SaveFile });
    let (m2, t2) = (KeySet::single(Key::Control), KeySet::single(Key::O));
    keymap.insert(m2, t2, false, Action::Trigger { on_trigger: Command::LoadFromFile });
    let (m3, t3) = (KeySet::single(Key::Control), KeySet::single(Key::N));
    keymap.insert(m3, t3, false, Action::Trigger { on_trigger: Command::NewFile });
    let (m4, t4) = (KeySet::empty(), KeySet::single(Key::B));
    keymap.insert(m4, t4, false, Action::Trigger { on_trigger: Command::ChooseDrawTool });
    let (m5, t5) = (KeySet::empty(), KeySet::single(Key::Backspace));
    keymap.insert(m5, t5, false, Action::Trigger { on_trigger: Command::DeleteSelectedItems });
    let (m6, t6) = (pair(Key::Control, Key::Shift), KeySet::single(Key::F));
    keymap.insert(m6, t6, false, Action::Trigger { on_trigger: Command::ToggleFullscreen });
    let (m7, t7) = (KeySet::single(Key::Control), KeySet::single(Key::F));
    keymap.insert(m7, t7, false, Action::Trigger { on_trigger: Command::ToggleMaximized });
    let (m8, t8) = (KeySet::single(Key::Control), KeySet::single(Key::X));
    keymap.insert(m8, t8, false, Action::Trigger { on_trigger: Command::Cut });
    let (m9, t9) = (KeySet::single(Key::Control), KeySet::single(Key::C));
    keymap.insert(m9, t9, false, Action::Trigger { on_trigger: Command::Copy });
    let (m10, t10) = (KeySet::single(Key::Control), KeySet::single(Key::V));
    keymap.insert(m10, t10, false, Action::Trigger { on_trigger: Command::Paste });
    let (m11, t11) = (KeySet::empty(), KeySet::single(Key::A));
    keymap.insert(m11, t11, false, Action::Trigger { on_trigger: Command::SelectAll });
    let (m12, t12) = (KeySet::single(Key::Shift), KeySet::single(Key::A));
    keymap.insert(m12, t12, false, Action::Trigger { on_trigger: Command::SelectNone });
    let (m13, t13) = (KeySet::single(Key::Tab), KeySet::single(Key::R));
    keymap.insert(m13, t13, false, Action::Trigger { on_trigger: Command::RecolorSelection });
    let (m14, t14) = (KeySet::empty(), KeySet::single(Key::S));
    keymap.insert(m14, t14, false, Action::Trigger { on_trigger: Command::ChooseSelectTool });
    let (m15, t15) = (KeySet::empty(), KeySet::single(Key::T));
    keymap.insert(m15, t15, false, Action::Trigger { on_trigger: Command::ChooseMoveTool });
    let (m16, t16) = (KeySet::single(Key::Shift), KeySet::single(Key::R));
    keymap.insert(m16, t16, false, Action::Trigger { on_trigger: Command::ChooseRotateTool });
    let (m17, t17) = (KeySet::single(Key::Control), KeySet::single(Key::R));
    keymap.insert(m17, t17, false, Action::Trigger { on_trigger: Command::ChooseResizeTool });
    let (m18, t18) = (KeySet::empty(), KeySet::single(Key::Z));
    keymap.insert(m18, t18, true, Action::Trigger { on_trigger: Command::Undo });
    let (m19, t19) = (KeySet::single(Key::Shift), KeySet::single(Key::Z));
    keymap.insert(m19, t19, true, Action::Trigger { on_trigger: Command::Redo });
    let (m20, t20) = (KeySet::empty(), KeySet::single(Key::Escape));
    keymap.insert(m20, t20, false, Action::Trigger { on_trigger: Command::DiscardDraft });
    let (m21, t21) = (KeySet::empty(), KeySet::single(Key::Space));
    keymap.insert(m21, t21, false, Action::Discovery { on_press: Command::HoldPanTool, on_release: Command::ReleasePanTool });
    let (m22, t22) = (KeySet::empty(), pair(Key::Control, Key::Space));
    keymap.insert(m22, t22, false, Action::Discovery { on_press: Command::HoldZoomTool, on_release: Command::ReleaseZoomTool });
    let (m23, t23) = (KeySet::empty(), pair(Key::Shift, Key::Space));
    keymap.insert(m23, t23, false, Action::Discovery { on_press: Command::HoldOrbitTool, on_release: Command::ReleaseOrbitTool });
    let (m24, t24) = (KeySet::empty(), KeySet::single(Key::Tab));
    keymap.insert(m24, t24, false, Action::Discovery { on_press: Command::HoldColorPickerTool, on_release: Command::ReleaseColorPickerTool });
    proof {
        lemma_binding_key_numbers();
        assert(binds_by(keymap.keytests(), default_binding_keys()[0], default_binding_table()[0], m0, t0));
        assert(binds_by(keymap.keytests(), default_binding_keys()[1], default_binding_table()[1], m1, t1));
        assert(binds_by(keymap.keytests(), default_binding_keys()[2], default_binding_table()[2], m2, t2));
        assert(binds_by(keymap.keytests(), default_binding_keys()[3], default_binding_table()[3], m3, t3));
        assert(binds_by(keymap.keytests(), default_binding_keys()[4], default_binding_table()[4], m4, t4));
        assert(binds_by(keymap.keytests(), default_binding_keys()[5], default_binding_table()[5], m5, t5));
        assert(binds_by(keymap.keytests(), default_binding_keys()[6], default_binding_table()[6], m6, t6));
        assert(binds_by(keymap.keytests(), default_binding_keys()[7], default_binding_table()[7], m7, t7));
        assert(binds_by(keymap.keytests(), default_binding_keys()[8], default_binding_table()[8], m8, t8));
        assert(binds_by(keymap.keytests(), default_binding_keys()[9], default_binding_table()[9], m9, t9));
        assert(binds_by(keymap.keytests(), default_binding_keys()[10], default_binding_table()[10], m10, t10));
        assert(binds_by(keymap.keytests(), default_binding_keys()[11], default_binding_table()[11], m11, t11));
        assert(binds_by(keymap.keytests(), default_binding_keys()[12], default_binding_table()[12], m12, t12));
        assert(binds_by(keymap.keytests(), default_binding_keys()[13], default_binding_table()[13], m13, t13));
        assert(binds_by(keymap.keytests(), default_binding_keys()[14], default_binding_table()[14], m14, t14));
        assert(binds_by(keymap.keytests(), default_binding_keys()[15], default_binding_table()[15], m15, t15));
        assert(binds_by(keymap.keytests(), default_binding_keys()[16], default_binding_table()[16], m16, t16));
        assert(binds_by(keymap.keytests(), default_binding_keys()[17], default_binding_table()[17], m17, t17));
        assert(binds_by(keymap.keytests(), default_binding_keys()[18], default_binding_table()[18], m18, t18));
        assert(binds_by(keymap.keytests(), default_binding_keys()[19], default_binding_table()[19], m19, t19));
        assert(binds_by(keymap.keytests(), default_binding_keys()[20], default_binding_table()[20], m20, t20));
        assert(binds_by(keymap.keytests(), default_binding_keys()[21], default_binding_table()[21], m21, t21));
        assert(binds_by(keymap.keytests(), default_binding_keys()[22], default_binding_table()[22], m22, t22));
        assert(binds_by(keymap.keytests(), default_binding_keys()[23], default_binding_table()[23], m23, t23));
        assert(binds_by(keymap.keytests(), default_binding_keys()[24], default_binding_table()[24], m24, t24));
        assert forall|i: int| 0 <= i < 25 implies #[trigger] binds(keymap.keytests(), default_binding_keys()[i], default_binding_table()[i]) by {
            if i == 0 {
                assert(binds_by(keymap.keytests(), default_binding_keys()[0], default_binding_table()[0], m0, t0));
            } else if i == 1 {
                assert(binds_by(keymap.keytests(), default_binding_keys()[1], default_binding_table()[1], m1, t1));
            } else if i == 2 {
                assert(binds_by(keymap.keytests(), default_binding_keys()[2], default_binding_table()[2], m2, t2));
            } else if i == 3 {
                assert(binds_by(keymap.keytests(), default_binding_keys()[3], default_binding_table()[3], m3, t3));
            } else if i == 4 {
                assert(binds_by(keymap.keytests(), default_binding_keys()[4], default_binding_table()[4], m4, t4));
            } else if i == 5 {
                assert(binds_by(keymap.keytests(), default_binding_keys()[5], default_binding_table()[5], m5, t5));
            } else if i == 6 {
                assert(binds_by(keymap.keytests(), default_binding_keys()[6], default_binding_table()[6], m6, t6));
            } else if i == 7 {
                assert(binds_by(keymap.keytests(), default_binding_keys()[7], default_binding_table()[7], m7, t7));
            } else if i == 8 {
                assert(binds_by(keymap.keytests(), default_binding_keys()[8], default_binding_table()[8], m8, t8));
            } else if i == 9 {
                assert(binds_by(keymap.keytests(), default_binding_keys()[9], default_binding_table()[9], m9, t9));
            } else if i == 10 {
                assert(binds_by(keymap.keytests(), default_binding_keys()[10], default_binding_table()[10], m10, t10));
            } else if i == 11 {
                assert(binds_by(keymap.keytests(), default_binding_keys()[11], default_binding_table()[11], m11, t11));
            } else if i == 12 {
                assert(binds_by(keymap.keytests(), default_binding_keys()[12], default_binding_table()[12], m12, t12));
            } else if i == 13 {
                assert(binds_by(keymap.keytests(), default_binding_keys()[13], default_binding_table()[13], m13, t13));
            } else if i == 14 {
                assert(binds_by(keymap.keytests(), default_binding_keys()[14], default_binding_table()[14], m14, t14));
            } else if i == 15 {
                assert(binds_by(keymap.keytests(), default_binding_keys()[15], default_binding_table()[15], m15, t15));
            } else if i == 16 {
                assert(binds_by(keymap.keytests(), default_binding_keys()[16], default_binding_table()[16], m16, t16));
            } else if i == 17 {
                assert(binds_by(keymap.keytests(), default_binding_keys()[17], default_binding_table()[17], m17, t17));
            } else if i == 18 {
                assert(binds_by(keymap.keytests(), default_binding_keys()[18], default_binding_table()[18], m18, t18));
            } else if i == 19 {
                assert(binds_by(keymap.keytests(), default_binding_keys()[19], default_binding_table()[19], m19, t19));
            } else if i == 20 {
                assert(binds_by(keymap.keytests(), default_binding_keys()[20], default_binding_table()[20], m20, t20));
            } else if i == 21 {
                assert(binds_by(keymap.keytests(), default_binding_keys()[21], default_binding_table()[21], m21, t21));
            } else if i == 22 {
                assert(binds_by(keymap.keytests(), default_binding_keys()[22], default_binding_table()[22], m22, t22));
            } else if i == 23 {
                assert(binds_by(keymap.keytests(), default_binding_keys()[23], default_binding_table()[23], m23, t23));
            } else if i == 24 {
                assert(binds_by(keymap.keytests(), default_binding_keys()[24], default_binding_table()[24], m24, t24));
            }
        }
        let keys = default_binding_keys();
        assert forall|k: u64| keymap.keytests().dom().contains(k) implies keys.contains(k) by {
            let i: int = choose|i: int| 0 <= i < 25 && keys[i] == k;
            assert(keys[i] == k);
        }
        assert forall|k: u64| keys.contains(k) implies keymap.keytests().dom().contains(k) by {
            let i: int = choose|i: int| 0 <= i < keys.len() && keys[i] == k;
            assert(binds(keymap.keytests(), keys[i], default_binding_table()[i]));
        }
        assert(keymap.keytests().dom() =~= keys.to_set());
    }
    keymap
}

/// Takes back the last operation on the canvas; but if the tool in use is in
/// the middle of something, drops that instead and leaves the canvas alone.
pub fn undo<S, V, F, L, X, P, T, E, G, Y, M: Fn(&P, &T, bool) -> P>(
    mode_stack: &mut ModeStack<S, V, F, L, X>,
    canvas: &mut Canvas<P, T, E, G, Y>,
    transform: &M,
)
    requires
        old(canvas).wf(),
        forall|p: &P, u: &T, b: bool| call_requires(*transform, (p, u, b)),
    ensures
        final(canvas).wf(),
        tool_is_drafting(old(mode_stack).current()) ==> {
            &&& ModeStack::draft_discarded(*old(mode_stack), *final(mode_stack))
            &&& *final(canvas) == *old(canvas)
        },
        !tool_is_drafting(old(mode_stack).current()) ==> {
            &&& *final(mode_stack) == *old(mode_stack)
            &&& Canvas::undone(*old(canvas), *final(canvas), *transform)
        },
{
    if mode_stack.is_drafting() {
        mode_stack.discard_draft();
    } else {
        canvas.undo(transform);
    }
}

/// Applies again the last operation taken back; but if the tool in use is in
/// the middle of something, drops that instead and leaves the canvas alone.
pub fn redo<S, V, F, L, X, P, T, E, G, Y, M: Fn(&P, &T, bool) -> P>(
    mode_stack: &mut ModeStack<S, V, F, L, X>,
    canvas: &mut Canvas<P, T, E, G, Y>,
    transform: &M,
)
    requires
        old(canvas).wf(),
        forall|p: &P, u: &T, b: bool| call_requires(*transform, (p, u, b)),
    ensures
        final(canvas).wf(),
        tool_is_drafting(old(mode_stack).current()) ==> {
            &&& ModeStack::draft_discarded(*old(mode_stack), *final(mode_stack))
            &&& *final(canvas) == *old(canvas)
        },
        !tool_is_drafting(old(mode_stack).current()) ==> {
            &&& *final(mode_stack) == *old(mode_stack)
            &&& Canvas::redone(*old(canvas), *final(canvas), *transform)
        },
{
    if mode_stack.is_drafting() {
        mode_stack.discard_draft();
    } else {
        canvas.redo(transform);
    }
}

/// What `default_keymap` gives: each row of `default_binding_table` bound
/// under the number of its keys, and nothing waiting to be released.
pub open spec fn is_default_keymap(m: Keymap<Command>) -> bool {
    &&& m.keytests().dom() == default_binding_keys().to_set()
    &&& forall|i: int| 0 <= i < 25 ==> #[trigger] binds(m.keytests(), default_binding_keys()[i], default_binding_table()[i])
    &&& m.waiting_releases().len() == 0
}

/// Holding exactly `keys` and newly pressing `key` makes the keymap `k0`
/// run exactly `action`'s command: a triggered action runs alone, and a
/// pressed one runs and waits for those keys to be let go.
pub open spec fn sets_off(k0: Keymap<Command>, keys: Set<Key>, key: Key, action: Action<Command>) -> bool {
    forall|k1: Keymap<Command>, active: KeySet, fresh: KeySet, different: KeySet, actions: Seq<Command>|
        #[trigger] executed(k0, k1, active, fresh, different, actions) && active.valid() && active@ == keys
            && fresh@.contains(key) && different@.contains(key) ==> match action {
            Action::Trigger { on_trigger } => actions == seq![on_trigger] && k1.waiting_releases().len() == 0,
            Action::Discovery { on_press, on_release } => actions == seq![on_press] && k1.waiting_releases() == seq![(active, on_release)],
        }
}

proof fn lemma_default_row_sets_off(k0: Keymap<Command>, i: int, key: Key)
    requires
        is_default_keymap(k0),
        0 <= i < 25,
        default_binding_table()[i].1.contains(key),
    ensures
        sets_off(k0, default_binding_table()[i].0.union(default_binding_table()[i].1), key, default_binding_table()[i].3),
{
    let row = default_binding_table()[i];
    let n = default_binding_keys()[i];
    assert(binds(k0.keytests(), n, row));
    let (m, t) = choose|m: KeySet, t: KeySet| binds_by(k0.keytests(), n, row, m, t);
    assert forall|k1: Keymap<Command>, active: KeySet, fresh: KeySet, different: KeySet, actions: Seq<Command>|
        #[trigger] executed(k0, k1, active, fresh, different, actions) && active.valid() && active@ == row.0.union(row.1)
            && fresh@.contains(key) && different@.contains(key) implies match row.3 {
            Action::Trigger { on_trigger } => actions == seq![on_trigger] && k1.waiting_releases().len() == 0,
            Action::Discovery { on_press, on_release } => actions == seq![on_press] && k1.waiting_releases() == seq![(active, on_release)],
        } by {
        KeySet::lemma_union_bits(m, t, active);
        let keytest = k0.keytests()[n];
        let strikers = if keytest.is_repeatable { fresh@ } else { different@ };
        assert(keytest.triggers@.intersect(strikers).contains(key));
        let w = k0.waiting_releases();
        assert(w =~= Seq::<(KeySet, Command)>::empty());
        assert(released_actions(w, active@, different@) =~= Seq::<Command>::empty());
        assert(still_waiting(w, active@, different@) =~= Seq::<(KeySet, Command)>::empty());
    }
}

/// The application's shortcuts: holding the keys of each and newly pressing
/// its last key runs exactly its command (Control+C copies and Control+X
/// cuts, Z undoes and Shift+Z redoes, and so on), and the held tools (Space
/// to pan, Control+Space to zoom, Shift+Space to orbit, Tab for the colour
/// picker) are taken up and wait to be put down when their keys are let go.
pub proof fn law_default_shortcuts(k0: Keymap<Command>)
    requires
        is_default_keymap(k0),
    ensures
        sets_off(k0, set![Key::Control, Key::Shift, Key::S], Key::S, Action::Trigger { on_trigger: Command::SaveAsFile }),
        sets_off(k0, set![Key::Control, Key::S], Key::S, Action::Trigger { on_trigger: Command::SaveFile }),
        sets_off(k0, set![Key::Control, Key::O], Key::O, Action::Trigger { on_trigger: Command::LoadFromFile }),
        sets_off(k0, set![Key::Control, Key::N], Key::N, Action::Trigger { on_trigger: Command::NewFile }),
        sets_off(k0, set![Key::B], Key::B, Action::Trigger { on_trigger: Command::ChooseDrawTool }),
        sets_off(k0, set![Key::Backspace], Key::Backspace, Action::Trigger { on_trigger: Command::DeleteSelectedItems }),
        sets_off(k0, set![Key::Control, Key::Shift, Key::F], Key::F, Action::Trigger { on_trigger: Command::ToggleFullscreen }),
        sets_off(k0, set![Key::Control, Key::F], Key::F, Action::Trigger { on_trigger: Command::ToggleMaximized }),
        sets_off(k0, set![Key::Control, Key::X], Key::X, Action::Trigger { on_trigger: Command::Cut }),
        sets_off(k0, set![Key::Control, Key::C], Key::C, Action::Trigger { on_trigger: Command::Copy }),
        sets_off(k0, set![Key::Control, Key::V], Key::V, Action::Trigger { on_trigger: Command::Paste }),
        sets_off(k0, set![Key::A], Key::A, Action::Trigger { on_trigger: Command::SelectAll }),
        sets_off(k0, set![Key::Shift, Key::A], Key::A, Action::Trigger { on_trigger: Command::SelectNone }),
        sets_off(k0, set![Key::Tab, Key::R], Key::R, Action::Trigger { on_trigger: Command::RecolorSelection }),
        sets_off(k0, set![Key::S], Key::S, Action::Trigger { on_trigger: Command::ChooseSelectTool }),
        sets_off(k0, set![Key::T], Key::T, Action::Trigger { on_trigger: Command::ChooseMoveTool }),
        sets_off(k0, set![Key::Shift, Key::R], Key::R, Action::Trigger { on_trigger: Command::ChooseRotateTool }),
        sets_off(k0, set![Key::Control, Key::R], Key::R, Action::Trigger { on_trigger: Command::ChooseResizeTool }),
        sets_off(k0, set![Key::Z], Key::Z, Action::Trigger { on_trigger: Command::Undo }),
        sets_off(k0, set![Key::Shift, Key::Z], Key::Z, Action::Trigger { on_trigger: Command::Redo }),
        sets_off(k0, set![Key::Escape], Key::Escape, Action::Trigger { on_trigger: Command::DiscardDraft }),
        sets_off(k0, set![Key::Space], Key::Space, Action::Discovery { on_press: Command::HoldPanTool, on_release: Command::ReleasePanTool }),
        sets_off(k0, set![Key::Control, Key::Space], Key::Space, Action::Discovery { on_press: Command::HoldZoomTool, on_release: Command::ReleaseZoomTool }),
        sets_off(k0, set![Key::Shift, Key::Space], Key::Space, Action::Discovery { on_press: Command::HoldOrbitTool, on_release: Command::ReleaseOrbitTool }),
        sets_off(k0, set![Key::Tab], Key::Tab, Action::Discovery { on_press: Command::HoldColorPickerTool, on_release: Command::ReleaseColorPickerTool }),
{
    lemma_default_row_sets_off(k0, 0, Key::S);
    assert(default_binding_table()[0].0.union(default_binding_table()[0].1) =~= set![Key::Control, Key::Shift, Key::S]);
    lemma_default_row_sets_off(k0, 1, Key::S);
    assert(default_binding_table()[1].0.union(default_binding_table()[1].1) =~= set![Key::Control, Key::S]);
    lemma_default_row_sets_off(k0, 2, Key::O);
    assert(default_binding_table()[2].0.union(default_binding_table()[2].1) =~= set![Key::Control, Key::O]);
    lemma_default_row_sets_off(k0, 3, Key::N);
    assert(default_binding_table()[3].0.union(default_binding_table()[3].1) =~= set![Key::Control, Key::N]);
    lemma_default_row_sets_off(k0, 4, Key::B);
    assert(default_binding_table()[4].0.union(default_binding_table()[4].1) =~= set![Key::B]);
    lemma_default_row_sets_off(k0, 5, Key::Backspace);
    assert(default_binding_table()[5].0.union(default_binding_table()[5].1) =~= set![Key::Backspace]);
    lemma_default_row_sets_off(k0, 6, Key::F);
    assert(default_binding_table()[6].0.union(default_binding_table()[6].1) =~= set![Key::Control, Key::Shift, Key::F]);
    lemma_default_row_sets_off(k0, 7, Key::F);
    assert(default_binding_table()[7].0.union(default_binding_table()[7].1) =~= set![Key::Control, Key::F]);
    lemma_default_row_sets_off(k0, 8, Key::X);
    assert(default_binding_table()[8].0.union(default_binding_table()[8].1) =~= set![Key::Control, Key::X]);
    lemma_default_row_sets_off(k0, 9, Key::C);
    assert(default_binding_table()[9].0.union(default_binding_table()[9].1) =~= set![Key::Control, Key::C]);
    lemma_default_row_sets_off(k0, 10, Key::V);
    assert(default_binding_table()[10].0.union(default_binding_table()[10].1) =~= set![Key::Control, Key::V]);
    lemma_default_row_sets_off(k0, 11, Key::A);
    assert(default_binding_table()[11].0.union(default_binding_table()[11].1) =~= set![Key::A]);
    lemma_default_row_sets_off(k0, 12, Key::A);
    assert(default_binding_table()[12].0.union(default_binding_table()[12].1) =~= set![Key::Shift, Key::A]);
    lemma_default_row_sets_off(k0, 13, Key::R);
    assert(default_binding_table()[13].0.union(default_binding_table()[13].1) =~= set![Key::Tab, Key::R]);
    lemma_default_row_sets_off(k0, 14, Key::S);
    assert(default_binding_table()[14].0.union(default_binding_table()[14].1) =~= set![Key::S]);
    lemma_default_row_sets_off(k0, 15, Key::T);
    assert(default_binding_table()[15].0.union(default_binding_table()[15].1) =~= set![Key::T]);
    lemma_default_row_sets_off(k0, 16, Key::R);
    assert(default_binding_table()[16].0.union(default_binding_table()[16].1) =~= set![Key::Shift, Key::R]);
    lemma_default_row_sets_off(k0, 17, Key::R);
    assert(default_binding_table()[17].0.union(default_binding_table()[17].1) =~= set![Key::Control, Key::R]);
    lemma_default_row_sets_off(k0, 18, Key::Z);
    assert(default_binding_table()[18].0.union(default_binding_table()[18].1) =~= set![Key::Z]);
    lemma_default_row_sets_off(k0, 19, Key::Z);
    assert(default_binding_table()[19].0.union(default_binding_table()[19].1) =~= set![Key::Shift, Key::Z]);
    lemma_default_row_sets_off(k0, 20, Key::Escape);
    assert(default_binding_table()[20].0.union(default_binding_table()[20].1) =~= set![Key::Escape]);
    lemma_default_row_sets_off(k0, 21, Key::Space);
    assert(default_binding_table()[21].0.union(default_binding_table()[21].1) =~= set![Key::Space]);
    lemma_default_row_sets_off(k0, 22, Key::Space);
    assert(default_binding_table()[22].0.union(default_binding_table()[22].1) =~= set![Key::Control, Key::Space]);
    lemma_default_row_sets_off(k0, 23, Key::Space);
    assert(default_binding_table()[23].0.union(default_binding_table()[23].1) =~= set![Key::Shift, Key::Space]);
    lemma_default_row_sets_off(k0, 24, Key::Tab);
    assert(default_binding_table()[24].0.union(default_binding_table()[24].1) =~= set![Key::Tab]);
}

/// Holding exactly `keys` with `key` repeating (held, not newly pressed, and
/// no key changed) makes the keymap `k0` run exactly `expected`.
pub open spec fn on_repeat(k0: Keymap<Command>, keys: Set<Key>, key: Key, expected: Seq<Command>) -> bool {
    forall|k1: Keymap<Command>, active: KeySet, fresh: KeySet, different: KeySet, actions: Seq<Command>|
        #[trigger] executed(k0, k1, active, fresh, different, actions) && active.valid() && active@ == keys
            && fresh@.contains(key) && different@ == Set::<Key>::empty() ==> actions == expected
}

/// What a row of bindings runs when its key repeats.
pub open spec fn repeated_commands(row: (Set<Key>, Set<Key>, bool, Action<Command>)) -> Seq<Command> {
    if row.2 {
        match row.3 {
            Action::Trigger { on_trigger } => seq![on_trigger],
            Action::Discovery { on_press, .. } => seq![on_press],
        }
    } else {
        Seq::empty()
    }
}

proof fn lemma_default_row_on_repeat(k0: Keymap<Command>, i: int, key: Key)
    requires
        is_default_keymap(k0),
        0 <= i < 25,
        default_binding_table()[i].1.contains(key),
    ensures
        on_repeat(k0, default_binding_table()[i].0.union(default_binding_table()[i].1), key, repeated_commands(default_binding_table()[i])),
{
    let row = default_binding_table()[i];
    let n = default_binding_keys()[i];
    assert(binds(k0.keytests(), n, row));
    let (m, t) = choose|m: KeySet, t: KeySet| binds_by(k0.keytests(), n, row, m, t);
    assert forall|k1: Keymap<Command>, active: KeySet, fresh: KeySet, different: KeySet, actions: Seq<Command>|
        #[trigger] executed(k0, k1, active, fresh, different, actions) && active.valid() && active@ == row.0.union(row.1)
            && fresh@.contains(key) && different@ == Set::<Key>::empty() implies actions == repeated_commands(row) by {
        KeySet::lemma_union_bits(m, t, active);
        let keytest = k0.keytests()[n];
        if keytest.is_repeatable {
            assert(keytest.triggers@.intersect(fresh@).contains(key));
        } else {
            assert(keytest.triggers@.intersect(different@) =~= Set::<Key>::empty());
        }
        assert(Set::<Key>::full().difference(active@).intersect(different@) =~= Set::<Key>::empty());
        let w = k0.waiting_releases();
        assert(w =~= Seq::<(KeySet, Command)>::empty());
        assert(released_actions(w, active@, different@) =~= Seq::<Command>::empty());
    }
}

/// Held down, only Z (undo) and Shift+Z (redo) repeat; holding the keys of
/// any other shortcut runs nothing more after its first press.
pub proof fn law_default_repeats(k0: Keymap<Command>)
    requires
        is_default_keymap(k0),
    ensures
        on_repeat(k0, set![Key::Control, Key::Shift, Key::S], Key::S, Seq::<Command>::empty()),
        on_repeat(k0, set![Key::Control, Key::S], Key::S, Seq::<Command>::empty()),
        on_repeat(k0, set![Key::Control, Key::O], Key::O, Seq::<Command>::empty()),
        on_repeat(k0, set![Key::Control, Key::N], Key::N, Seq::<Command>::empty()),
        on_repeat(k0, set![Key::B], Key::B, Seq::<Command>::empty()),
        on_repeat(k0, set![Key::Backspace], Key::Backspace, Seq::<Command>::empty()),
        on_repeat(k0, set![Key::Control, Key::Shift, Key::F], Key::F, Seq::<Command>::empty()),
        on_repeat(k0, set![Key::Control, Key::F], Key::F, Seq::<Command>::empty()),
        on_repeat(k0, set![Key::Control, Key::X], Key::X, Seq::<Command>::empty()),
        on_repeat(k0, set![Key::Control, Key::C], Key::C, Seq::<Command>::empty()),
        on_repeat(k0, set![Key::Control, Key::V], Key::V, Seq::<Command>::empty()),
        on_repeat(k0, set![Key::A], Key::A, Seq::<Command>::empty()),
        on_repeat(k0, set![Key::Shift, Key::A], Key::A, Seq::<Command>::empty()),
        on_repeat(k0, set![Key::Tab, Key::R], Key::R, Seq::<Command>::empty()),
        on_repeat(k0, set![Key::S], Key::S, Seq::<Command>::empty()),
        on_repeat(k0, set![Key::T], Key::T, Seq::<Command>::empty()),
        on_repeat(k0, set![Key::Shift, Key::R], Key::R, Seq::<Command>::empty()),
        on_repeat(k0, set![Key::Control, Key::R], Key::R, Seq::<Command>::empty()),
        on_repeat(k0, set![Key::Z], Key::Z, seq![Command::Undo]),
        on_repeat(k0, set![Key::Shift, Key::Z], Key::Z, seq![Command::Redo]),
        on_repeat(k0, set![Key::Escape], Key::Escape, Seq::<Command>::empty()),
        on_repeat(k0, set![Key::Space], Key::Space, Seq::<Command>::empty()),
        on_repeat(k0, set![Key::Control, Key::Space], Key::Space, Seq::<Command>::empty()),
        on_repeat(k0, set![Key::Shift, Key::Space], Key::Space, Seq::<Command>::empty()),
        on_repeat(k0, set![Key::Tab], Key::Tab, Seq::<Command>::empty()),
{
    lemma_default_row_on_repeat(k0, 0, Key::S);
    assert(default_binding_table()[0].0.union(default_binding_table()[0].1) =~= set![Key::Control, Key::Shift, Key::S]);
    lemma_default_row_on_repeat(k0, 1, Key::S);
    assert(default_binding_table()[1].0.union(default_binding_table()[1].1) =~= set![Key::Control, Key::S]);
    lemma_default_row_on_repeat(k0, 2, Key::O);
    assert(default_binding_table()[2].0.union(default_binding_table()[2].1) =~= set![Key::Control, Key::O]);
    lemma_default_row_on_repeat(k0, 3, Key::N);
    assert(default_binding_table()[3].0.union(default_binding_table()[3].1) =~= set![Key::Control, Key::N]);
    lemma_default_row_on_repeat(k0, 4, Key::B);
    assert(default_binding_table()[4].0.union(default_binding_table()[4].1) =~= set![Key::B]);
    lemma_default_row_on_repeat(k0, 5, Key::Backspace);
    assert(default_binding_table()[5].0.union(default_binding_table()[5].1) =~= set![Key::Backspace]);
    lemma_default_row_on_repeat(k0, 6, Key::F);
    assert(default_binding_table()[6].0.union(default_binding_table()[6].1) =~= set![Key::Control, Key::Shift, Key::F]);
    lemma_default_row_on_repeat(k0, 7, Key::F);
    assert(default_binding_table()[7].0.union(default_binding_table()[7].1) =~= set![Key::Control, Key::F]);
    lemma_default_row_on_repeat(k0, 8, Key::X);
    assert(default_binding_table()[8].0.union(default_binding_table()[8].1) =~= set![Key::Control, Key::X]);
    lemma_default_row_on_repeat(k0, 9, Key::C);
    assert(default_binding_table()[9].0.union(default_binding_table()[9].1) =~= set![Key::Control, Key::C]);
    lemma_default_row_on_repeat(k0, 10, Key::V);
    assert(default_binding_table()[10].0.union(default_binding_table()[10].1) =~= set![Key::Control, Key::V]);
    lemma_default_row_on_repeat(k0, 11, Key::A);
    assert(default_binding_table()[11].0.union(default_binding_table()[11].1) =~= set![Key::A]);
    lemma_default_row_on_repeat(k0, 12, Key::A);
    assert(default_binding_table()[12].0.union(default_binding_table()[12].1) =~= set![Key::Shift, Key::A]);
    lemma_default_row_on_repeat(k0, 13, Key::R);
    assert(default_binding_table()[13].0.union(default_binding_table()[13].1) =~= set![Key::Tab, Key::R]);
    lemma_default_row_on_repeat(k0, 14, Key::S);
    assert(default_binding_table()[14].0.union(default_binding_table()[14].1) =~= set![Key::S]);
    lemma_default_row_on_repeat(k0, 15, Key::T);
    assert(default_binding_table()[15].0.union(default_binding_table()[15].1) =~= set![Key::T]);
    lemma_default_row_on_repeat(k0, 16, Key::R);
    assert(default_binding_table()[16].0.union(default_binding_table()[16].1) =~= set![Key::Shift, Key::R]);
    lemma_default_row_on_repeat(k0, 17, Key::R);
    assert(default_binding_table()[17].0.union(default_binding_table()[17].1) =~= set![Key::Control, Key::R]);
    lemma_default_row_on_repeat(k0, 18, Key::Z);
    assert(default_binding_table()[18].0.union(default_binding_table()[18].1) =~= set![Key::Z]);
    lemma_default_row_on_repeat(k0, 19, Key::Z);
    assert(default_binding_table()[19].0.union(default_binding_table()[19].1) =~= set![Key::Shift, Key::Z]);
    lemma_default_row_on_repeat(k0, 20, Key::Escape);
    assert(default_binding_table()[20].0.union(default_binding_table()[20].1) =~= set![Key::Escape]);
    lemma_default_row_on_repeat(k0, 21, Key::Space);
    assert(default_binding_table()[21].0.union(default_binding_table()[21].1) =~= set![Key::Space]);
    lemma_default_row_on_repeat(k0, 22, Key::Space);
    assert(default_binding_table()[22].0.union(default_binding_table()[22].1) =~= set![Key::Control, Key::Space]);
    lemma_default_row_on_repeat(k0, 23, Key::Space);
    assert(default_binding_table()[23].0.union(default_binding_table()[23].1) =~= set![Key::Shift, Key::Space]);
    lemma_default_row_on_repeat(k0, 24, Key::Tab);
    assert(default_binding_table()[24].0.union(default_binding_table()[24].1) =~= set![Key::Tab]);
}

} // verus!
