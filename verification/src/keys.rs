use vstd::prelude::*;

use crate::presets::PresetEntry;
use crate::settings::{hotkey_pressed, AppSettings};

verus! {

/// The keys pressed in one frame.
#[derive(Debug, Clone)]
pub struct KeyInput {
    pub escape: bool,
    pub f5: bool,
    pub f11: bool,
    pub m: bool,
    pub w: bool,
    pub s: bool,
    pub d: bool,
    pub a: bool,
    pub left: bool,
    pub up: bool,
    pub right: bool,
    pub down: bool,
    /// `digits[n]`: the number key `n` was pressed.
    pub digits: [bool; 10],
    /// Numbers of the function keys pressed (1 for F1 and so on).
    pub function_keys: Vec<u8>,
}

/// What a key press asks for.
#[derive(Debug, Clone, PartialEq, Eq)]
pub enum KeyAction {
    CloseSettings,
    ActivatePreset(String),
    ReloadFolder,
    SetFullscreen(bool),
    ToggleMute,
    VolumeUp,
    VolumeDown,
    ShuffleMultiview,
    NextVideo,
    /// Multiview cannot go back; the user is told so.
    NoPreviousInMultiview,
    PreviousVideo,
    SwitchFolder(Option<usize>),
}

/// `seq![action]` when `pressed`, else nothing.
#[verifier::opaque]
pub open spec fn when(pressed: bool, action: KeyAction) -> Seq<KeyAction> {
    if pressed {
        seq![action]
    } else {
        Seq::empty()
    }
}

/// The actions of the ordinary keys, in the order they are handled. `fullscreen` is the state
/// before the frame; F11 toggles it before Escape is looked at.
pub open spec fn ordinary_actions(keys: KeyInput, fullscreen: bool, multiview: bool, numpad: bool) -> Seq<KeyAction> {
    let toggled = if keys.f11 {
        !fullscreen
    } else {
        fullscreen
    };
    when(keys.f5, KeyAction::ReloadFolder) + when(keys.f11, KeyAction::SetFullscreen(!fullscreen))
        + when(keys.escape && toggled, KeyAction::SetFullscreen(false)) + when(keys.m, KeyAction::ToggleMute)
        + when(keys.w, KeyAction::VolumeUp) + when(keys.s, KeyAction::VolumeDown) + when(
        keys.d,
        if multiview {
            KeyAction::ShuffleMultiview
        } else {
            KeyAction::NextVideo
        },
    ) + when(
        keys.a,
        if multiview {
            KeyAction::NoPreviousInMultiview
        } else {
            KeyAction::PreviousVideo
        },
    ) + when(keys.left, KeyAction::SwitchFolder(Some(0))) + when(keys.up, KeyAction::SwitchFolder(Some(1)))
        + when(keys.right, KeyAction::SwitchFolder(Some(2))) + when(keys.down, KeyAction::SwitchFolder(None))
        + if numpad {
        numpad_actions(keys.digits@)
    } else {
        Seq::empty()
    }
}

/// Number keys 1 to 9 switch to groups 1 to 9, and 0 to all groups, in that order.
pub open spec fn numpad_actions(digits: Seq<bool>) -> Seq<KeyAction> {
    when(digits[1], KeyAction::SwitchFolder(Some(0))) + when(digits[2], KeyAction::SwitchFolder(Some(1)))
        + when(digits[3], KeyAction::SwitchFolder(Some(2))) + when(digits[4], KeyAction::SwitchFolder(Some(3)))
        + when(digits[5], KeyAction::SwitchFolder(Some(4))) + when(digits[6], KeyAction::SwitchFolder(Some(5)))
        + when(digits[7], KeyAction::SwitchFolder(Some(6))) + when(digits[8], KeyAction::SwitchFolder(Some(7)))
        + when(digits[9], KeyAction::SwitchFolder(Some(8))) + when(digits[0], KeyAction::SwitchFolder(None))
}

/// Whether some preset is triggered by the pressed function keys.
pub open spec fn some_preset_pressed(s: Seq<PresetEntry>, pressed: Seq<u8>) -> bool {
    exists|i: int| 0 <= i < s.len() && hotkey_pressed(#[trigger] s[i].preset.hotkey, pressed)
}

fn push_when(out: &mut Vec<KeyAction>, pressed: bool, action: KeyAction)
    ensures
        final(out)@ == old(out)@ + when(pressed, action),
{
    reveal(when);
    if pressed {
        out.push(action);
    }
    assert(final(out)@ =~= old(out)@ + when(pressed, action));
}

/// The actions asked for by the keys of one frame. With the settings open only Escape counts
/// (it closes them); a preset's function key activates that preset and nothing else; otherwise
/// each pressed key's action, in a fixed order.
pub fn handle_keyboard(settings: &AppSettings, show_settings: bool, fullscreen: bool, keys: &KeyInput) -> (r:
    Vec<KeyAction>)
    ensures
        show_settings ==> r@ == when(keys.escape, KeyAction::CloseSettings),
        !show_settings && some_preset_pressed(settings.presets.entries(), keys.function_keys@) ==> {
            &&& r@.len() == 1
            &&& r@[0] matches KeyAction::ActivatePreset(name)
            &&& exists|i: int|
                0 <= i < settings.presets.entries().len() && hotkey_pressed(
                    #[trigger] settings.presets.entries()[i].preset.hotkey,
                    keys.function_keys@,
                ) && name@ == settings.presets.entries()[i].name@ && forall|j: int|
                    0 <= j < i ==> !hotkey_pressed(
                        #[trigger] settings.presets.entries()[j].preset.hotkey,
                        keys.function_keys@,
                    )
        },
        !show_settings && !some_preset_pressed(settings.presets.entries(), keys.function_keys@) ==> r@
            == ordinary_actions(
            *keys,
            fullscreen,
            settings.multiview_enabled,
            settings.numpad_folder_switching,
        ),
{
    let mut out: Vec<KeyAction> = Vec::new();
    if show_settings {
        push_when(&mut out, keys.escape, KeyAction::CloseSettings);
        assert(out@ =~= when(keys.escape, KeyAction::CloseSettings));
        return out;
    }
    if let Some(name) = settings.pressed_preset_name(&keys.function_keys) {
        out.push(KeyAction::ActivatePreset(name));
        return out;
    }
    ordinary_key_actions(keys, fullscreen, settings.multiview_enabled, settings.numpad_folder_switching)
}

fn numpad_key_actions(out: &mut Vec<KeyAction>, digits: &[bool; 10])
    ensures
        final(out)@ == old(out)@ + numpad_actions(digits@),
{
    let mut local: Vec<KeyAction> = Vec::new();
    push_when(&mut local, digits[1], KeyAction::SwitchFolder(Some(0)));
    assert(local@ =~= when(digits@[1], KeyAction::SwitchFolder(Some(0))));
    push_when(&mut local, digits[2], KeyAction::SwitchFolder(Some(1)));
    push_when(&mut local, digits[3], KeyAction::SwitchFolder(Some(2)));
    push_when(&mut local, digits[4], KeyAction::SwitchFolder(Some(3)));
    push_when(&mut local, digits[5], KeyAction::SwitchFolder(Some(4)));
    push_when(&mut local, digits[6], KeyAction::SwitchFolder(Some(5)));
    push_when(&mut local, digits[7], KeyAction::SwitchFolder(Some(6)));
    push_when(&mut local, digits[8], KeyAction::SwitchFolder(Some(7)));
    push_when(&mut local, digits[9], KeyAction::SwitchFolder(Some(8)));
    push_when(&mut local, digits[0], KeyAction::SwitchFolder(None));
    assert(local@ == numpad_actions(digits@));
    out.append(&mut local);
}

/// The actions of the ordinary keys of one frame, in the order they are handled.
pub fn ordinary_key_actions(keys: &KeyInput, fullscreen: bool, multiview: bool, numpad: bool) -> (r: Vec<KeyAction>)
    ensures
        r@ == ordinary_actions(*keys, fullscreen, multiview, numpad),
{
    let mut out: Vec<KeyAction> = Vec::new();
    push_when(&mut out, keys.f5, KeyAction::ReloadFolder);
    assert(out@ =~= when(keys.f5, KeyAction::ReloadFolder));
    let toggled = if keys.f11 {
        !fullscreen
    } else {
        fullscreen
    };
    push_when(&mut out, keys.f11, KeyAction::SetFullscreen(!fullscreen));
    push_when(&mut out, keys.escape && toggled, KeyAction::SetFullscreen(false));
    push_when(&mut out, keys.m, KeyAction::ToggleMute);
    push_when(&mut out, keys.w, KeyAction::VolumeUp);
    push_when(&mut out, keys.s, KeyAction::VolumeDown);
    push_when(
        &mut out,
        keys.d,
        if multiview {
            KeyAction::ShuffleMultiview
        } else {
            KeyAction::NextVideo
        },
    );
    push_when(
        &mut out,
        keys.a,
        if multiview {
            KeyAction::NoPreviousInMultiview
        } else {
            KeyAction::PreviousVideo
        },
    );
    push_when(&mut out, keys.left, KeyAction::SwitchFolder(Some(0)));
    push_when(&mut out, keys.up, KeyAction::SwitchFolder(Some(1)));
    push_when(&mut out, keys.right, KeyAction::SwitchFolder(Some(2)));
    push_when(&mut out, keys.down, KeyAction::SwitchFolder(None));
    let ghost base = out@;
    if numpad {
        numpad_key_actions(&mut out, &keys.digits);
    } else {
        assert(out@ =~= base + Seq::<KeyAction>::empty());
    }
    out
}

/// No key of the frame is pressed but the number key `n`.
pub open spec fn only_number_key(keys: KeyInput, n: int) -> bool {
    &&& !keys.escape && !keys.f5 && !keys.f11 && !keys.m && !keys.w && !keys.s && !keys.d && !keys.a
    &&& !keys.left && !keys.up && !keys.right && !keys.down
    &&& forall|i: int| 0 <= i < 10 ==> (#[trigger] keys.digits@[i] <==> i == n)
}

/// With numeric-keypad switching on, number key `n` alone switches to folder group `n` (counted
/// from 1, so the group with index `n - 1`), and number key 0 to all groups; with it off, a
/// number key does nothing.
pub proof fn law_number_keys_switch_folder_groups(keys: KeyInput, fullscreen: bool, multiview: bool, n: int)
    requires
        0 <= n < 10,
        only_number_key(keys, n),
    ensures
        ordinary_actions(keys, fullscreen, multiview, true) == seq![
            KeyAction::SwitchFolder(if n == 0 {
                None
            } else {
                Some((n - 1) as usize)
            }),
        ],
        ordinary_actions(keys, fullscreen, multiview, false) == Seq::<KeyAction>::empty(),
{
    reveal(when);
    assert(keys.digits@.len() == 10);
    let d = keys.digits@;
    assert(d[0] == (n == 0) && d[1] == (n == 1) && d[2] == (n == 2) && d[3] == (n == 3) && d[4] == (n == 4));
    assert(d[5] == (n == 5) && d[6] == (n == 6) && d[7] == (n == 7) && d[8] == (n == 8) && d[9] == (n == 9));
    let e = Seq::<KeyAction>::empty();
    assert(ordinary_actions(keys, fullscreen, multiview, false) =~= e);
    assert(ordinary_actions(keys, fullscreen, multiview, true) =~= numpad_actions(d));
    assert(numpad_actions(d) =~= seq![
        KeyAction::SwitchFolder(if n == 0 {
            None
        } else {
            Some((n - 1) as usize)
        }),
    ]);
}

} // verus!
