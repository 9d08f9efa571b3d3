//! The icon in the system tray: what its events mean.

use vstd::prelude::*;

use crate::text;

verus! {

/// Commands from the tray icon back to the main application.
#[derive(Debug, Clone, Copy, PartialEq, Eq, Structural)]
pub enum TrayCommand {
    /// User clicked "Open" or left-clicked the tray icon — restore the window.
    Open,
    /// User clicked "Exit" — quit the application.
    Exit,
}

/// The number of the menu item "Open".
pub const IDM_OPEN: u32 = 1001;

/// The number of the menu item "Exit".
pub const IDM_EXIT: u32 = 1002;

/// The left mouse button was released.
pub const WM_LBUTTONUP: u32 = 514;

/// The right mouse button was released.
pub const WM_RBUTTONUP: u32 = 517;

/// A context menu was asked for.
pub const WM_CONTEXTMENU: u32 = 123;

/// How many UTF-16 units the tip of an icon holds.
pub const TIP_UNITS: usize = 128;

/// What an event of the icon leads to.
#[derive(Debug, Clone, Copy, PartialEq, Eq, Structural)]
pub enum TrayAction {
    /// The menu is shown.
    ShowMenu,
    /// A command is sent.
    Send(TrayCommand),
    /// Nothing.
    Nothing,
}

/// What an event of the icon leads to: it stands in the lower 16 bits of what the
/// system hands over.
pub fn on_icon_event(lparam: u32) -> (r: TrayAction)
    ensures
        r == ({
            let event = lparam % 65536;
            if event == WM_RBUTTONUP || event == WM_CONTEXTMENU {
                TrayAction::ShowMenu
            } else if event == WM_LBUTTONUP {
                TrayAction::Send(TrayCommand::Open)
            } else {
                TrayAction::Nothing
            }
        }),
{
    let event: u32 = lparam % 65536;
    if event == WM_RBUTTONUP || event == WM_CONTEXTMENU {
        TrayAction::ShowMenu
    } else if event == WM_LBUTTONUP {
        TrayAction::Send(TrayCommand::Open)
    } else {
        TrayAction::Nothing
    }
}

/// The command of a menu item; none where no item was chosen.
pub fn menu_command(item: u32) -> (r: Option<TrayCommand>)
    ensures
        r == if item == IDM_OPEN {
            Some(TrayCommand::Open)
        } else if item == IDM_EXIT {
            Some(TrayCommand::Exit)
        } else {
            None
        },
{
    if item == IDM_OPEN {
        Some(TrayCommand::Open)
    } else if item == IDM_EXIT {
        Some(TrayCommand::Exit)
    } else {
        None
    }
}

/// The UTF-16 units of a character: itself, or a pair of surrogates.
pub open spec fn utf16_of(c: char) -> Seq<u16> {
    let n = (c as u32) as int;
    if n < 65536 {
        seq![n as u16]
    } else {
        seq![(55296 + (n - 65536) / 1024) as u16, (56320 + (n - 65536) % 1024) as u16]
    }
}

/// The UTF-16 units of a text.
pub open spec fn utf16(s: Seq<char>) -> Seq<u16>
    decreases s.len(),
{
    if s.len() == 0 {
        Seq::empty()
    } else {
        utf16(s.drop_last()) + utf16_of(s.last())
    }
}

/// A text as a null-terminated UTF-16 wide string.
pub fn to_wide(s: &str) -> (r: Vec<u16>)
    ensures
        r@ == utf16(s@).push(0),
{
    let chars: Vec<char> = text::chars_of(s);
    let mut r: Vec<u16> = Vec::new();
    let mut i: usize = 0;
    assert(chars@.take(0) =~= Seq::<char>::empty());
    while i < chars.len()
        invariant
            i <= chars@.len(),
            r@ == utf16(chars@.take(i as int)),
        decreases chars@.len() - i,
    {
        let c: char = chars[i];
        let n: u32 = c as u32;
        let ghost before = r@;
        proof {
            assert(chars@.take(i + 1).drop_last() =~= chars@.take(i as int));
            assert(chars@.take(i + 1).last() == c);
            vstd::utf8::char_is_scalar(c);
            assert(n <= 1114111);
        }
        if n < 65536 {
            r.push(n as u16);
        } else {
            let high: u32 = 55296 + (n - 65536) / 1024;
            let low: u32 = 56320 + (n - 65536) % 1024;
            r.push(high as u16);
            r.push(low as u16);
            proof {
                assert(high <= 65535 && low <= 65535);
                assert(utf16_of(c)[0] == high as u16);
                assert(utf16_of(c)[1] == low as u16);
            }
        }
        assert(r@ =~= before + utf16_of(c));
        i = i + 1;
    }
    assert(chars@.take(chars@.len() as int) =~= s@);
    r.push(0);
    r
}

/// The tip of the icon: the units of a text, as many as it holds, and zeros behind
/// them.
pub open spec fn tip_of(s: Seq<char>) -> Seq<u16> {
    Seq::new(
        TIP_UNITS as nat,
        |i: int|
            if i < utf16(s).len() {
                utf16(s)[i]
            } else {
                0u16
            },
    )
}

/// The tip of the icon.
pub fn tip_units(tooltip: &str) -> (r: Vec<u16>)
    ensures
        r@ == tip_of(tooltip@),
{
    let wide: Vec<u16> = to_wide(tooltip);
    let mut r: Vec<u16> = Vec::new();
    let mut i: usize = 0;
    while i < TIP_UNITS
        invariant
            i <= TIP_UNITS,
            wide@ == utf16(tooltip@).push(0),
            r@ == tip_of(tooltip@).take(i as int),
        decreases TIP_UNITS - i,
    {
        let unit: u16 = if i < wide.len() {
            wide[i]
        } else {
            0
        };
        r.push(unit);
        assert(r@ =~= tip_of(tooltip@).take(i + 1));
        i = i + 1;
    }
    assert(tip_of(tooltip@).take(TIP_UNITS as int) =~= tip_of(tooltip@));
    r
}

/// Whether the application starts without its window: one of the arguments says so.
pub fn starts_minimized(args: &[String]) -> (r: bool)
    ensures
        r == text::texts(args@).contains("--minimized"@),
{
    text::contains_text(args, "--minimized")
}

/// A text is written in UTF-16 one character after another: one below 65536 as itself,
/// any other as a pair of surrogates. The tip of the icon holds the first 128 units.
pub proof fn texts_are_written_in_units(s: Seq<char>, c: char, i: int)
    ensures
        utf16(Seq::empty()) == Seq::<u16>::empty(),
        (c as u32) < 65536 ==> utf16(s.push(c)) == utf16(s).push(c as u16),
        (c as u32) >= 65536 ==> utf16(s.push(c)) == utf16(s).push(
            (55296 + (c as u32 - 65536) / 1024) as u16,
        ).push((56320 + (c as u32 - 65536) % 1024) as u16),
        tip_of(s).len() == 128,
        0 <= i < 128 && i < utf16(s).len() ==> tip_of(s)[i] == utf16(s)[i],
        utf16(s).len() <= i < 128 ==> tip_of(s)[i] == 0,
{
    assert(s.push(c).drop_last() =~= s);
    if (c as u32) < 65536 {
        assert(utf16(s) + utf16_of(c) =~= utf16(s).push(c as u16));
    } else {
        let a = (55296 + (c as u32 - 65536) / 1024) as u16;
        let b = (56320 + (c as u32 - 65536) % 1024) as u16;
        assert(utf16_of(c) =~= seq![a, b]);
        assert(utf16(s) + seq![a, b] =~= utf16(s).push(a).push(b));
    }
}

/// A click with the right button on the icon, or a call for its menu, shows the menu, one
/// with the left button opens the window, and nothing else does anything; only the lower
/// 16 bits of what the system hands over count.
pub proof fn clicks_on_the_icon_are_told_apart(
    lparam: u32,
    other: u32,
    r: TrayAction,
    again: TrayAction,
)
    requires
        call_ensures(on_icon_event, (lparam,), r),
        call_ensures(on_icon_event, (other,), again),
    ensures
        r is ShowMenu <==> lparam % 0x10000 == 0x205 || lparam % 0x10000 == 0x7B,
        r == TrayAction::Send(TrayCommand::Open) <==> lparam % 0x10000 == 0x202,
        r != TrayAction::Send(TrayCommand::Exit),
        lparam % 0x10000 == other % 0x10000 ==> r == again,
{
}

/// Each item of the menu has its command, and no other number has one.
pub proof fn items_of_the_menu_are_told_apart(item: u32, r: Option<TrayCommand>)
    requires
        call_ensures(menu_command, (item,), r),
    ensures
        r == Some(TrayCommand::Open) <==> item == 1001,
        r == Some(TrayCommand::Exit) <==> item == 1002,
{
}

/// The application starts without its window exactly where an argument says so.
pub proof fn arguments_start_it_minimized(args: &[String], r: bool, i: int)
    requires
        call_ensures(starts_minimized, (args,), r),
    ensures
        0 <= i < args@.len() && args@[i]@ == "--minimized"@ ==> r,
        (forall|k: int| 0 <= k < args@.len() ==> (#[trigger] args@[k])@ != "--minimized"@) ==> !r,
{
    if 0 <= i < args@.len() {
        assert(text::texts(args@)[i] == args@[i]@);
    }
    if r {
        let k = choose|k: int|
            0 <= k < text::texts(args@).len() && text::texts(args@)[k] == "--minimized"@;
        assert(args@[k]@ == "--minimized"@);
    }
}

} // verus!
