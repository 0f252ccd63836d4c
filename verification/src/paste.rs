//! The paste engine: the clipboard save/replace/keystroke/restore protocol,
//! modeled over the clipboard's text content and the log of synthesized key
//! events. The engine decides every step; performing them against the OS
//! clipboard and input queue is the caller's part.

use vstd::prelude::*;

verus! {

/// Virtual key code of the Control key.
pub const VK_CONTROL: u16 = 0x11;

/// Virtual key code of the V key.
pub const VK_V: u16 = 0x56;

/// How often opening the clipboard is attempted before giving up.
pub const CLIPBOARD_OPEN_ATTEMPTS: u32 = 10;

/// Why a paste attempt failed.
#[derive(Clone, Copy, Debug, PartialEq, Eq, Structural)]
pub enum PasteError {
    /// The clipboard could not be opened within the attempt bound.
    ClipboardUnavailable,
    /// A synthesized key event was not accepted.
    InjectionFailed,
    /// The original clipboard content could not be written back.
    RestoreFailed,
}

/// One synthesized low-level keyboard event.
#[derive(Clone, Copy, Debug, PartialEq, Eq, Structural)]
pub struct KeyStroke {
    /// Virtual key code.
    pub vk: u16,
    /// A key-up event; otherwise key-down.
    pub up: bool,
}

/// The synthesized paste chord, in order: control down, V down, V up,
/// control up — no modifier key stays logically stuck.
pub open spec fn paste_keys() -> Seq<KeyStroke> {
    seq![
        KeyStroke { vk: VK_CONTROL, up: false },
        KeyStroke { vk: VK_V, up: false },
        KeyStroke { vk: VK_V, up: true },
        KeyStroke { vk: VK_CONTROL, up: true },
    ]
}

/// The key events that make the focused application paste.
pub fn paste_keystrokes() -> (r: Vec<KeyStroke>)
    ensures
        r@ == paste_keys(),
{
    let mut r: Vec<KeyStroke> = Vec::new();
    r.push(KeyStroke { vk: VK_CONTROL, up: false });
    r.push(KeyStroke { vk: VK_V, up: false });
    r.push(KeyStroke { vk: VK_V, up: true });
    r.push(KeyStroke { vk: VK_CONTROL, up: true });
    proof {
        assert(r@ =~= paste_keys());
    }
    r
}

/// The system clipboard as the protocol sees it: the text it currently
/// holds, and the history of texts written to it — the observable trace
/// of the save/replace/restore discipline.
pub struct Clipboard {
    /// The text the clipboard holds now.
    pub content: String,
    /// Every text written so far, in order.
    pub writes: Vec<String>,
}

impl Clipboard {
    /// A clipboard holding some text, with nothing written yet.
    pub fn holding(content: String) -> (r: Clipboard)
        ensures
            r.content == content,
            r.writes@.len() == 0,
    {
        Clipboard { content, writes: Vec::new() }
    }

    /// Write a text: it becomes the content and joins the history.
    fn write(&mut self, text: &String)
        ensures
            final(self).content@ == text@,
            final(self).writes.deep_view() == old(self).writes.deep_view().push(text@),
    {
        self.content = text.clone();
        self.writes.push(text.clone());
        proof {
            assert(self.writes.deep_view() =~= old(self).writes.deep_view().push(text@));
        }
    }
}

/// An exclusive clipboard session holding the content to restore and the
/// payload to write: steps one and two of the protocol (bounded-retry
/// open, then save) have happened when a session exists.
pub struct PasteSession {
    saved: String,
    payload: String,
}

impl PasteSession {
    /// The retained content that the protocol restores at the end.
    pub closed spec fn saved(&self) -> Seq<char> {
        self.saved@
    }

    /// The text the session will place on the clipboard.
    pub closed spec fn payload(&self) -> Seq<char> {
        self.payload@
    }

    /// Open the clipboard and retain its current content. `available`
    /// says whether one of the bounded open attempts succeeded; when none
    /// did, the protocol stops before touching anything.
    pub fn open(clip: &Clipboard, text: String, available: bool) -> (r: Result<
        PasteSession,
        PasteError,
    >)
        ensures
            available ==> r is Ok && r->Ok_0.saved() == clip.content@ && r->Ok_0.payload()
                == text@,
            !available ==> r == Err::<PasteSession, PasteError>(PasteError::ClipboardUnavailable),
    {
        if available {
            Ok(PasteSession { saved: clip.content.clone(), payload: text })
        } else {
            Err(PasteError::ClipboardUnavailable)
        }
    }

    /// Step three: put the payload on the clipboard, replacing its
    /// content until the restore step.
    pub fn write_payload(&self, clip: &mut Clipboard)
        ensures
            final(clip).content@ == self.payload(),
            final(clip).writes.deep_view() == old(clip).writes.deep_view().push(self.payload()),
    {
        clip.write(&self.payload);
    }

    /// Step five: the chord of key events to synthesize.
    pub fn keystrokes(&self) -> (r: Vec<KeyStroke>)
        ensures
            r@ == paste_keys(),
    {
        paste_keystrokes()
    }

    /// Step six: write the retained content back.
    pub fn restore(&self, clip: &mut Clipboard)
        ensures
            final(clip).content@ == self.saved(),
            final(clip).writes.deep_view() == old(clip).writes.deep_view().push(self.saved()),
    {
        clip.write(&self.saved);
    }
}

/// Run the whole paste protocol against the clipboard content `clip` and
/// the key-event log `keys`. `available` says whether one of the bounded
/// clipboard-open attempts succeeded, `accepted` whether the input queue
/// took the synthesized chord. Whenever the clipboard was opened, its
/// prior content is restored — the restore step runs even when the
/// injection fails, since the user's clipboard is the highest-priority
/// invariant; only a clipboard that never opened leaves everything
/// untouched.
pub fn inject(clip: &mut Clipboard, keys: &mut Vec<KeyStroke>, text: &String, available: bool,
    accepted: bool) -> (r: Result<(), PasteError>)
    ensures
        available ==> final(clip).content@ == old(clip).content@ && final(clip).writes.deep_view()
            == old(clip).writes.deep_view() + seq![text@, old(clip).content@],
        available && accepted ==> r is Ok && final(keys)@ == old(keys)@ + paste_keys(),
        available && !accepted ==> r == Err::<(), PasteError>(PasteError::InjectionFailed)
            && final(keys)@ == old(keys)@,
        !available ==> r == Err::<(), PasteError>(PasteError::ClipboardUnavailable) && *final(clip)
            == *old(clip) && final(keys)@ == old(keys)@,
{
    let session = match PasteSession::open(clip, text.clone(), available) {
        Ok(s) => s,
        Err(e) => {
            return Err(e);
        },
    };
    session.write_payload(clip);
    if !accepted {
        session.restore(clip);
        proof {
            assert(clip.writes.deep_view() =~= old(clip).writes.deep_view() + seq![
                text@,
                old(clip).content@,
            ]);
        }
        return Err(PasteError::InjectionFailed);
    }
    let chord = session.keystrokes();
    let mut i: usize = 0;
    while i < chord.len()
        invariant
            i <= chord@.len(),
            chord@ == paste_keys(),
            keys@ == old(keys)@ + chord@.subrange(0, i as int),
        decreases chord@.len() - i,
    {
        keys.push(chord[i]);
        proof {
            assert(chord@.subrange(0, i + 1) =~= chord@.subrange(0, i as int).push(chord@[i as int]));
            assert(keys@ =~= old(keys)@ + chord@.subrange(0, i + 1));
        }
        i += 1;
    }
    session.restore(clip);
    proof {
        assert(chord@.subrange(0, chord@.len() as int) =~= chord@);
        assert(clip.writes.deep_view() =~= old(clip).writes.deep_view() + seq![
            text@,
            old(clip).content@,
        ]);
    }
    Ok(())
}

} // verus!
