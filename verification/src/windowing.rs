//! Window-message decisions: the dispatch bridge's handler-association
//! plan, and the main window's reaction to every message it handles. The
//! native window, its message loop and the OS calls live outside this
//! crate; they hand events in as plain values and carry the decided
//! actions out.

use vstd::prelude::*;
use crate::paste::{inject, Clipboard, KeyStroke, PasteError};
use crate::shortcuts::{
    first_event_match, first_key_match, loaded_from, load_records, find_match, find_key_match,
    Shortcut,
};
use crate::utils::{dec_digits, u8_to_dec};

verus! {

/// Window-creation message.
pub const WM_CREATE: u32 = 0x0001;

/// Destruction notification; hotkeys are unregistered here.
pub const WM_DESTROY: u32 = 0x0002;

/// The final teardown notification, after which the handle is never
/// reused.
pub const WM_NCDESTROY: u32 = 0x0082;

/// Repaint request.
pub const WM_PAINT: u32 = 0x000F;

/// Command notification from a child control.
pub const WM_COMMAND: u32 = 0x0111;

/// A registered global hotkey fired.
pub const WM_HOTKEY: u32 = 0x0312;

/// Change notification code of the hotkey-capture control.
pub const EN_CHANGE: u32 = 0x0300;

/// The low half of a 32-bit message parameter.
pub fn loword(x: u32) -> (r: u16)
    ensures
        r == x % 0x10000,
{
    proof {
        assert(x & 0xFFFF == x % 0x10000) by (bit_vector);
    }
    (x & 0xFFFF) as u16
}

/// The high half of a 32-bit message parameter.
pub fn hiword(x: u32) -> (r: u16)
    ensures
        r == x / 0x10000,
{
    proof {
        assert(x >> 16 == x / 0x10000) by (bit_vector);
        assert(x >> 16 <= 0xFFFF) by (bit_vector);
    }
    (x >> 16) as u16
}

/// The low byte of a 16-bit word.
pub fn lobyte(x: u16) -> (r: u8)
    ensures
        r == x % 0x100,
{
    proof {
        assert(x & 0xFF == x % 0x100) by (bit_vector);
    }
    (x & 0xFF) as u8
}

/// The high byte of a 16-bit word.
pub fn hibyte(x: u16) -> (r: u8)
    ensures
        r == x / 0x100,
{
    proof {
        assert(x >> 8 == x / 0x100) by (bit_vector);
        assert(x >> 8 <= 0xFF) by (bit_vector);
    }
    (x >> 8) as u8
}

/// What the dispatch bridge does with one message for one window: attach
/// the handler association on creation, route the message to the handler
/// while one is attached, and release the association on the final
/// teardown notification — never earlier, so in-flight messages still
/// reach a live handler, and never more than once.
pub struct BridgePlan {
    /// Store the handler association in the window's user-data slot.
    pub attach: bool,
    /// Route this message to the attached handler.
    pub invoke: bool,
    /// Drop the association; only the final teardown notification does.
    pub release: bool,
}

/// Decide the bridge's actions for one message. `attached` says whether
/// the window's user-data slot holds a handler association after the
/// attach step of this very message.
pub fn bridge_plan(msg: u32, attached: bool) -> (r: BridgePlan)
    ensures
        r.attach == (msg == WM_CREATE),
        r.invoke == attached,
        r.release == (attached && msg == WM_NCDESTROY),
{
    BridgePlan { attach: msg == WM_CREATE, invoke: attached, release: attached && msg == WM_NCDESTROY }
}

/// Whether the association is attached after one message is processed.
pub open spec fn assoc_after(attached: bool, msg: u32) -> bool {
    if msg == WM_CREATE {
        true
    } else if msg == WM_NCDESTROY {
        false
    } else {
        attached
    }
}

/// How many times one message releases the association.
pub open spec fn assoc_releases(attached: bool, msg: u32) -> nat {
    let held = if msg == WM_CREATE {
        true
    } else {
        attached
    };
    if held && msg == WM_NCDESTROY {
        1
    } else {
        0
    }
}

/// How often a run of messages releases the association.
pub open spec fn total_releases(attached: bool, msgs: Seq<u32>) -> nat
    decreases msgs.len(),
{
    if msgs.len() == 0 {
        0
    } else {
        assoc_releases(attached, msgs[0]) + total_releases(
            assoc_after(attached, msgs[0]),
            msgs.drop_first(),
        )
    }
}

/// While the association is held and the final teardown notification
/// only comes last, exactly that last message releases.
proof fn lemma_release_at_last(msgs: Seq<u32>)
    requires
        msgs.len() >= 1,
        msgs.last() == WM_NCDESTROY,
        forall|j: int| 0 <= j < msgs.len() - 1 ==> msgs[j] != WM_NCDESTROY,
    ensures
        total_releases(true, msgs) == 1,
    decreases msgs.len(),
{
    if msgs.len() == 1 {
        assert(msgs[0] == msgs.last());
        assert(assoc_releases(true, msgs[0]) == 1);
        assert(total_releases(assoc_after(true, msgs[0]), msgs.drop_first()) == 0);
    } else {
        assert(msgs[0] != WM_NCDESTROY);
        assert(assoc_after(true, msgs[0]));
        let rest = msgs.drop_first();
        assert(rest.last() == msgs.last());
        assert forall|j: int| 0 <= j < rest.len() - 1 implies rest[j] != WM_NCDESTROY by {
            assert(rest[j] == msgs[j + 1]);
        }
        lemma_release_at_last(rest);
    }
}

/// A run without the final teardown notification never releases.
proof fn lemma_no_teardown_no_release(attached: bool, msgs: Seq<u32>)
    requires
        forall|j: int| 0 <= j < msgs.len() ==> msgs[j] != WM_NCDESTROY,
    ensures
        total_releases(attached, msgs) == 0,
    decreases msgs.len(),
{
    if msgs.len() > 0 {
        let rest = msgs.drop_first();
        assert forall|j: int| 0 <= j < rest.len() implies rest[j] != WM_NCDESTROY by {
            assert(rest[j] == msgs[j + 1]);
        }
        lemma_no_teardown_no_release(assoc_after(attached, msgs[0]), rest);
    }
}

/// The handler association of a window's lifetime — creation first, the
/// final teardown notification last and nowhere else — is released
/// exactly once, by that last notification and never earlier.
pub proof fn lemma_association_released_exactly_once(msgs: Seq<u32>)
    requires
        msgs.len() >= 2,
        msgs[0] == WM_CREATE,
        msgs.last() == WM_NCDESTROY,
        forall|j: int| 0 <= j < msgs.len() - 1 ==> msgs[j] != WM_NCDESTROY,
    ensures
        total_releases(false, msgs) == 1,
        forall|k: int|
            0 <= k < msgs.len() ==> total_releases(false, #[trigger] msgs.subrange(0, k)) == 0,
{
    let rest = msgs.drop_first();
    assert(rest.last() == msgs.last());
    assert forall|j: int| 0 <= j < rest.len() - 1 implies rest[j] != WM_NCDESTROY by {
        assert(rest[j] == msgs[j + 1]);
    }
    lemma_release_at_last(rest);
    assert(assoc_releases(false, msgs[0]) == 0);
    assert forall|k: int| 0 <= k < msgs.len() implies total_releases(
        false,
        #[trigger] msgs.subrange(0, k),
    ) == 0 by {
        let pre = msgs.subrange(0, k);
        assert forall|j: int| 0 <= j < pre.len() implies pre[j] != WM_NCDESTROY by {
            assert(pre[j] == msgs[j]);
        }
        lemma_no_teardown_no_release(false, pre);
    }
}

/// One hotkey registration request: what is handed to the OS for one
/// record — disabled records included, to reserve their combination.
#[derive(Clone, Copy, Debug, PartialEq, Eq, Structural)]
pub struct HotkeyRegistration {
    /// The record's id, used as the OS hotkey identifier.
    pub id: i32,
    /// The record's modifier bitmask.
    pub modifiers: u16,
    /// The record's virtual key code.
    pub keycode: u16,
}

/// What a fired hotkey event leads to.
pub enum HotkeyAction {
    /// Inject the record's data: the first enabled record matching the
    /// event's key combination and the focused process.
    Paste {
        /// Position of the selected record in the loaded set.
        index: usize,
    },
    /// No record is bound to the focused process, the tool's own window
    /// has focus, and this enabled record already holds the combination:
    /// tell the user instead of pasting.
    Notice {
        /// Position of the record already holding the combination.
        index: usize,
    },
    /// No paste and no notice.
    Nothing,
}

/// The main window's own state: the definition directory, the last
/// combination observed in the hotkey-capture control, and the loaded
/// records.
pub struct MainWindow {
    /// Directory the shortcut definition files are read from.
    pub path: String,
    /// Last captured (modifiers, keycode), for on-screen feedback.
    pub last_keys: (u8, u8),
    /// The loaded shortcut records, in enumeration order.
    pub register: Vec<Shortcut>,
}

impl MainWindow {
    /// A fresh handler for a definition directory: nothing captured,
    /// nothing loaded yet.
    pub fn new(path: String) -> (r: MainWindow)
        ensures
            r.path == path,
            r.last_keys == (0u8, 0u8),
            r.register@.len() == 0,
    {
        MainWindow { path, last_keys: (0, 0), register: Vec::new() }
    }

    /// React to window creation: load one record per well-formed
    /// definition-file content and hand back one registration request
    /// per loaded record — disabled ones included, reserving their key
    /// combination with the OS.
    pub fn on_create(&mut self, contents: &Vec<String>) -> (regs: Vec<HotkeyRegistration>)
        requires
            contents@.len() <= 0x7FFF_FFFF,
        ensures
            loaded_from(final(self).register@, contents.deep_view()),
            final(self).path == old(self).path,
            final(self).last_keys == old(self).last_keys,
            regs@.len() == final(self).register@.len(),
            forall|i: int|
                0 <= i < regs@.len() ==> #[trigger] regs@[i] == (HotkeyRegistration {
                    id: final(self).register@[i].id,
                    modifiers: final(self).register@[i].modifiers,
                    keycode: final(self).register@[i].keycode,
                }),
    {
        self.register = load_records(contents);
        let mut regs: Vec<HotkeyRegistration> = Vec::new();
        let mut i: usize = 0;
        while i < self.register.len()
            invariant
                i <= self.register@.len(),
                regs@.len() == i,
                forall|j: int|
                    0 <= j < i ==> #[trigger] regs@[j] == (HotkeyRegistration {
                        id: self.register@[j].id,
                        modifiers: self.register@[j].modifiers,
                        keycode: self.register@[j].keycode,
                    }),
            decreases self.register@.len() - i,
        {
            let rec = &self.register[i];
            regs.push(HotkeyRegistration { id: rec.id, modifiers: rec.modifiers, keycode: rec.keycode });
            i += 1;
        }
        regs
    }

    /// React to a change notification from the hotkey-capture control:
    /// the control reports the keycode in the low byte and the modifiers
    /// in the high byte of the low word, with the shift/alt swap that
    /// the correcting transform undoes — applied here, at capture time,
    /// not at match time. The caller repaints afterwards.
    pub fn on_hotkey_captured(&mut self, raw: u32)
        ensures
            final(self).last_keys.0 == crate::fixed_modifiers(((raw % 0x10000) / 0x100) as u8),
            final(self).last_keys.1 == ((raw % 0x10000) % 0x100) as u8,
            final(self).path == old(self).path,
            final(self).register == old(self).register,
    {
        let word = loword(raw);
        let keycode = lobyte(word);
        let modifiers = crate::fix_modifiers(hibyte(word));
        self.last_keys = (modifiers, keycode);
    }

    /// The feedback line the window paints: the last captured keycode
    /// and modifier byte, in decimal.
    pub fn render_status(&self) -> (s: String)
        ensures
            s@ == "Keycode: "@ + dec_digits(self.last_keys.1 as nat) + ", Modifier: "@ + dec_digits(
                self.last_keys.0 as nat,
            ),
    {
        let mut s = "Keycode: ".to_owned();
        s.append(u8_to_dec(self.last_keys.1).as_str());
        s.append(", Modifier: ");
        s.append(u8_to_dec(self.last_keys.0).as_str());
        s
    }

    /// React to a fired hotkey event. The event's modifiers are the low
    /// word and its keycode the high word of `lparam`; `focused_process`
    /// is the lowercased executable name owning the focused window, and
    /// `own_window_focused` says whether that window is the tool's own.
    /// The first enabled record matching combination and process is
    /// pasted; with none, a matching enabled record surfaces the
    /// duplicate-binding notice — only when the tool's own window has
    /// focus.
    pub fn on_hotkey(&self, lparam: u32, focused_process: &String, own_window_focused: bool) -> (r:
        HotkeyAction)
        ensures
            ({
                let mods = (lparam % 0x10000) as u16;
                let key = (lparam / 0x10000) as u16;
                match r {
                    HotkeyAction::Paste { index } => first_event_match(
                        self.register@,
                        mods,
                        key,
                        focused_process@,
                    ) == Some(index as int),
                    HotkeyAction::Notice { index } => first_event_match(
                        self.register@,
                        mods,
                        key,
                        focused_process@,
                    ) is None && own_window_focused && first_key_match(self.register@, mods, key)
                        == Some(index as int),
                    HotkeyAction::Nothing => first_event_match(
                        self.register@,
                        mods,
                        key,
                        focused_process@,
                    ) is None && (!own_window_focused || first_key_match(
                        self.register@,
                        mods,
                        key,
                    ) is None),
                }
            }),
    {
        let mods = loword(lparam);
        let key = hiword(lparam);
        match find_match(&self.register, mods, key, focused_process) {
            Some(index) => HotkeyAction::Paste { index },
            None => {
                if own_window_focused {
                    match find_key_match(&self.register, mods, key) {
                        Some(index) => HotkeyAction::Notice { index },
                        None => HotkeyAction::Nothing,
                    }
                } else {
                    HotkeyAction::Nothing
                }
            },
        }
    }

    /// The text of the duplicate-binding notice for one record.
    pub fn notice_text(&self, index: usize) -> (s: String)
        requires
            index < self.register@.len(),
        ensures
            s@ == "Hotkey is already setup for process: "@ + self.register@[index as int].process@,
    {
        let mut s = "Hotkey is already setup for process: ".to_owned();
        s.append(self.register[index].process.as_str());
        s
    }

    /// React to window destruction: every loaded record's hotkey is
    /// unregistered, by the same identifiers that registered them.
    pub fn on_destroy(&self) -> (ids: Vec<i32>)
        ensures
            ids@.len() == self.register@.len(),
            forall|i: int| 0 <= i < ids@.len() ==> #[trigger] ids@[i] == self.register@[i].id,
    {
        let mut ids: Vec<i32> = Vec::new();
        let mut i: usize = 0;
        while i < self.register.len()
            invariant
                i <= self.register@.len(),
                ids@.len() == i,
                forall|j: int| 0 <= j < i ==> #[trigger] ids@[j] == self.register@[j].id,
            decreases self.register@.len() - i,
        {
            ids.push(self.register[i].id);
            i += 1;
        }
        ids
    }

    /// Perform the paste for a selected record against the modeled
    /// clipboard and key-event log: the record's data goes out through
    /// the paste protocol, and whenever the clipboard was opened its
    /// content survives — the record's data and then the prior content
    /// are what reaches the clipboard, in that order.
    pub fn paste_record(&self, index: usize, clip: &mut Clipboard, keys: &mut Vec<KeyStroke>,
        available: bool, accepted: bool) -> (r: Result<(), PasteError>)
        requires
            index < self.register@.len(),
        ensures
            available ==> final(clip).content@ == old(clip).content@
                && final(clip).writes.deep_view() == old(clip).writes.deep_view() + seq![
                self.register@[index as int].data@,
                old(clip).content@,
            ],
            available && accepted ==> r is Ok && final(keys)@ == old(keys)@
                + crate::paste::paste_keys(),
            available && !accepted ==> r == Err::<(), PasteError>(PasteError::InjectionFailed)
                && final(keys)@ == old(keys)@,
            !available ==> r == Err::<(), PasteError>(PasteError::ClipboardUnavailable)
                && *final(clip) == *old(clip) && final(keys)@ == old(keys)@,
    {
        inject(clip, keys, &self.register[index].data, available, accepted)
    }
}

} // verus!
