//! The tray icon's menu: what it shows and what each choice does; and the UTF-16
//! text the tray icon's tooltip is written in.
//!
//! The tray keeps whether blocking is on, as last told by the main window, and at
//! most one handler to call when the menu switches blocking. The handler is held
//! here; calling it is the caller's work, as [`TrayAction::Toggle`] says.

use vstd::prelude::*;

verus! {

/// Menu command of "Open".
pub const TRAY_MENU_OPEN: usize = 1001;
/// Menu command of the blocking switch.
pub const TRAY_MENU_TOGGLE: usize = 1002;
/// Menu command of "Exit".
pub const TRAY_MENU_EXIT: usize = 1003;

/// The tray's state: the blocking switch as it stands, and the handler told
/// when the menu turns it.
pub struct TrayState<H> {
    pub service_active: bool,
    pub toggle_handler: Option<H>,
}

/// What a menu choice asks of the caller.
#[derive(Clone, Copy, Debug, PartialEq, Eq, Structural)]
pub enum TrayAction {
    /// Bring the main window back.
    OpenMainWindow,
    /// Blocking was switched to `active`; call the handler with it when `notify`.
    Toggle { active: bool, notify: bool },
    /// Ask the program to exit.
    Exit,
    /// Nothing to do.
    Ignore,
}

impl<H> TrayState<H> {
    /// Blocking on, no handler yet.
    pub fn new() -> (r: TrayState<H>)
        ensures
            r.service_active,
            r.toggle_handler is None,
    {
        TrayState { service_active: true, toggle_handler: None }
    }
}

/// Registers the handler told when the menu switches blocking. Only the first
/// registration counts; later ones are dropped.
pub fn set_tray_toggle_handler<H>(tray: &mut TrayState<H>, handler: H)
    ensures
        final(tray).service_active == old(tray).service_active,
        final(tray).toggle_handler == (match old(tray).toggle_handler {
            Some(h) => Some(h),
            None => Some(handler),
        }),
{
    if tray.toggle_handler.is_none() {
        tray.toggle_handler = Some(handler);
    }
}

/// Records whether blocking is on, as the main window last set it.
pub fn set_tray_service_active<H>(tray: &mut TrayState<H>, active: bool)
    ensures
        final(tray).service_active == active,
        final(tray).toggle_handler == old(tray).toggle_handler,
{
    tray.service_active = active;
}

/// The label of the blocking switch in the menu.
pub open spec fn toggle_label_spec(active: bool) -> Seq<char> {
    if active { "Disable Blocking"@ } else { "Enable Blocking"@ }
}

/// The label of the blocking switch: it offers the opposite of the current state.
pub fn toggle_label<H>(tray: &TrayState<H>) -> (r: &'static str)
    ensures
        r@ == toggle_label_spec(tray.service_active),
{
    if tray.service_active {
        "Disable Blocking"
    } else {
        "Enable Blocking"
    }
}

/// Carries out a menu choice. The switch flips the recorded state and asks for
/// the handler to be told, when there is one.
pub fn tray_menu_command<H>(tray: &mut TrayState<H>, command: usize) -> (action: TrayAction)
    ensures
        final(tray).toggle_handler == old(tray).toggle_handler,
        command == TRAY_MENU_TOGGLE ==> {
            &&& final(tray).service_active == !old(tray).service_active
            &&& action == (TrayAction::Toggle {
                active: !old(tray).service_active,
                notify: old(tray).toggle_handler is Some,
            })
        },
        command != TRAY_MENU_TOGGLE ==> final(tray).service_active == old(tray).service_active,
        command == TRAY_MENU_OPEN ==> action == TrayAction::OpenMainWindow,
        command == TRAY_MENU_EXIT ==> action == TrayAction::Exit,
        (command != TRAY_MENU_OPEN && command != TRAY_MENU_TOGGLE && command != TRAY_MENU_EXIT)
            ==> action == TrayAction::Ignore,
{
    if command == TRAY_MENU_OPEN {
        TrayAction::OpenMainWindow
    } else if command == TRAY_MENU_TOGGLE {
        let next = !tray.service_active;
        tray.service_active = next;
        TrayAction::Toggle { active: next, notify: tray.toggle_handler.is_some() }
    } else if command == TRAY_MENU_EXIT {
        TrayAction::Exit
    } else {
        TrayAction::Ignore
    }
}


// ───────────────────────── UTF-16 text ─────────────────────────

/// The UTF-16 code units of one character: itself below U+10000, else a
/// surrogate pair.
pub open spec fn utf16_of_char(c: char) -> Seq<u16> {
    let v = c as u32;
    if v < 0x10000 {
        seq![v as u16]
    } else {
        seq![(0xD800 + (v - 0x10000) / 0x400) as u16, (0xDC00 + (v - 0x10000) % 0x400) as u16]
    }
}

/// The UTF-16 encoding of a text.
pub open spec fn utf16_units(s: Seq<char>) -> Seq<u16>
    decreases s.len(),
{
    if s.len() == 0 {
        Seq::empty()
    } else {
        utf16_units(s.drop_last()) + utf16_of_char(s.last())
    }
}

/// The text encoded as UTF-16, unit by unit, in order.
fn encode_utf16(s: &str) -> (r: Vec<u16>)
    ensures
        r@ == utf16_units(s@),
{
    let chars = crate::text::chars_of(s);
    let mut r: Vec<u16> = Vec::new();
    let mut i: usize = 0;
    while i < chars.len()
        invariant
            i <= chars@.len(),
            chars@ == s@,
            r@ == utf16_units(chars@.subrange(0, i as int)),
        decreases chars@.len() - i,
    {
        let c = chars[i];
        let v = c as u32;
        let ghost before = r@;
        proof {
            let next = chars@.subrange(0, i + 1);
            assert(next.drop_last() =~= chars@.subrange(0, i as int));
            assert(next.last() == c);
        }
        if v < 0x10000 {
            r.push(v as u16);
        } else {
            let high = (0xD800 + (v - 0x10000) / 0x400) as u16;
            let low = (0xDC00 + (v - 0x10000) % 0x400) as u16;
            r.push(high);
            r.push(low);
        }
        assert(r@ =~= before + utf16_of_char(c));
        i = i + 1;
    }
    assert(chars@.subrange(0, chars@.len() as int) =~= chars@);
    r
}

/// A text as the Windows API takes it: UTF-16 with a terminating zero.
pub fn wide_null(value: &str) -> (r: Vec<u16>)
    ensures
        r@ == utf16_units(value@).push(0),
{
    let mut units = encode_utf16(value);
    units.push(0);
    units
}

/// The tooltip buffer after writing `encoded` into it: at most 127 units are
/// copied, so that the last unit of the buffer stays as it was.
pub open spec fn tip_written(data: Seq<u16>, encoded: Seq<u16>) -> Seq<u16> {
    let n = if encoded.len() < 127 { encoded.len() as int } else { 127 };
    Seq::new(128, |i: int| if i < n { encoded[i] } else { data[i] })
}

/// Writes already encoded units into the tooltip buffer, as [`tip_written`] says.
pub fn copy_tip(data: [u16; 128], encoded: &[u16]) -> (r: [u16; 128])
    ensures
        r@ == tip_written(data@, encoded@),
{
    let mut out = data;
    let n: usize = if encoded.len() < 127 { encoded.len() } else { 127 };
    let mut i: usize = 0;
    while i < n
        invariant
            n <= 127,
            n <= encoded@.len(),
            n == (if encoded@.len() < 127 { encoded@.len() as int } else { 127 }),
            i <= n,
            out@.len() == 128,
            forall|k: int| 0 <= k < i ==> out@[k] == encoded@[k],
            forall|k: int| i <= k < 128 ==> out@[k] == data@[k],
        decreases n - i,
    {
        out[i] = encoded[i];
        i = i + 1;
    }
    assert(out@ =~= tip_written(data@, encoded@));
    out
}

/// The tooltip buffer with `tip` written in (zero-terminated when it fits).
pub fn with_tip(data: [u16; 128], tip: &str) -> (r: [u16; 128])
    ensures
        r@ == tip_written(data@, utf16_units(tip@).push(0)),
{
    let encoded = wide_null(tip);
    copy_tip(data, encoded.as_slice())
}

} // verus!
