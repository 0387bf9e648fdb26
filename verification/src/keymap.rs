//! Keys and what they mean everywhere: global shortcuts, tab switching, and
//! which dialog gets the keys.

use vstd::prelude::*;

verus! {

/// A key.
#[derive(Clone, Copy, Debug, PartialEq, Eq, Structural)]
pub enum KeyCode {
    Char(char),
    F(u8),
    Enter,
    Esc,
    Tab,
    BackTab,
    Backspace,
    Delete,
    Left,
    Right,
    Up,
    Down,
    Home,
    End,
    PageUp,
    PageDown,
    Other,
}

/// The modifier keys held down.
#[derive(Clone, Copy, Debug, PartialEq, Eq, Structural)]
pub struct KeyModifiers {
    pub shift: bool,
    pub control: bool,
    pub alt: bool,
}

impl KeyModifiers {
    /// No modifier.
    pub fn bare_key() -> (m: Self)
        ensures
            m == (KeyModifiers { shift: false, control: false, alt: false }),
    {
        KeyModifiers { shift: false, control: false, alt: false }
    }

    /// Shift.
    pub fn with_shift() -> (m: Self)
        ensures
            m == (KeyModifiers { shift: true, control: false, alt: false }),
    {
        KeyModifiers { shift: true, control: false, alt: false }
    }

    /// Control.
    pub fn with_control() -> (m: Self)
        ensures
            m == (KeyModifiers { shift: false, control: true, alt: false }),
    {
        KeyModifiers { shift: false, control: true, alt: false }
    }

    /// Alt.
    pub fn with_alt() -> (m: Self)
        ensures
            m == (KeyModifiers { shift: false, control: false, alt: true }),
    {
        KeyModifiers { shift: false, control: false, alt: true }
    }

    /// No modifier is held down.
    pub open spec fn bare(self) -> bool {
        !self.shift && !self.control && !self.alt
    }

    /// No modifier is held down.
    pub fn is_empty(self) -> (r: bool)
        ensures
            r == self.bare(),
    {
        !self.shift && !self.control && !self.alt
    }
}

/// A key press.
#[derive(Clone, Copy, Debug, PartialEq, Eq, Structural)]
pub struct KeyEvent {
    pub code: KeyCode,
    pub modifiers: KeyModifiers,
}

impl KeyEvent {
    /// A key press.
    pub fn new(code: KeyCode, modifiers: KeyModifiers) -> (k: Self)
        ensures
            k == (KeyEvent { code, modifiers }),
    {
        KeyEvent { code, modifiers }
    }
}

/// What a global shortcut is for.
#[derive(Clone, Copy, Debug, PartialEq, Eq, Structural)]
pub enum GlobalKey {
    /// Quit, if pressed twice.
    QuitArmed,
    QuitNow,
    NewSession,
    ThinkingOverlay,
    CloseTab,
    SessionList,
    ToggleSettings,
    Help,
    ToggleReasoning,
    ToggleWorkspace,
    ToggleTodoDetail,
    ToggleToolExpand,
    Reconnect,
}

/// The global shortcut of a key.
pub open spec fn global_key(key: KeyEvent) -> Option<GlobalKey> {
    let ctrl = key.modifiers.control;
    match key.code {
        KeyCode::Char(c) => if ctrl && c == 'c' {
            Some(GlobalKey::QuitArmed)
        } else if ctrl && c == 'q' {
            Some(GlobalKey::QuitNow)
        } else if ctrl && c == 't' {
            Some(GlobalKey::NewSession)
        } else if ctrl && c == 'l' {
            Some(GlobalKey::SessionList)
        } else if ctrl && c == ',' {
            Some(GlobalKey::ToggleSettings)
        } else if key.modifiers.alt && c == 'w' {
            Some(GlobalKey::CloseTab)
        } else {
            None
        },
        KeyCode::F(n) => if n == 1 {
            Some(GlobalKey::Help)
        } else if n == 3 {
            Some(GlobalKey::ToggleReasoning)
        } else if n == 4 {
            Some(GlobalKey::ToggleWorkspace)
        } else if n == 6 {
            Some(GlobalKey::ToggleTodoDetail)
        } else if n == 7 {
            Some(GlobalKey::ToggleToolExpand)
        } else if n == 10 {
            Some(GlobalKey::ToggleSettings)
        } else {
            None
        },
        _ => None,
    }
}

/// The global shortcut of a key.
pub fn map_global_key(key: &KeyEvent) -> (r: Option<GlobalKey>)
    ensures
        r == global_key(*key),
{
    let ctrl = key.modifiers.control;
    match key.code {
        KeyCode::Char('c') if ctrl => Some(GlobalKey::QuitArmed),
        KeyCode::Char('q') if ctrl => Some(GlobalKey::QuitNow),
        KeyCode::Char('t') if ctrl => Some(GlobalKey::NewSession),
        KeyCode::Char('l') if ctrl => Some(GlobalKey::SessionList),
        KeyCode::Char(',') if ctrl => Some(GlobalKey::ToggleSettings),
        KeyCode::Char('w') if key.modifiers.alt => Some(GlobalKey::CloseTab),
        KeyCode::F(1) => Some(GlobalKey::Help),
        KeyCode::F(3) => Some(GlobalKey::ToggleReasoning),
        KeyCode::F(4) => Some(GlobalKey::ToggleWorkspace),
        KeyCode::F(6) => Some(GlobalKey::ToggleTodoDetail),
        KeyCode::F(7) => Some(GlobalKey::ToggleToolExpand),
        KeyCode::F(10) => Some(GlobalKey::ToggleSettings),
        _ => None,
    }
}

/// The tab that Alt with a key leads to: a digit names it, and stays where it
/// is if there is none; the arrows go round, and stay where they are if there
/// are no tabs.
pub open spec fn tab_target(active: nat, tab_count: nat, code: KeyCode) -> Option<nat> {
    match code {
        KeyCode::Char(c) => if '1' <= c <= '9' {
            let idx = (c as int - '1' as int) as nat;
            Some(
                if idx < tab_count {
                    idx
                } else {
                    active
                },
            )
        } else {
            None
        },
        KeyCode::Left => Some(
            if tab_count == 0 {
                active
            } else if active > 0 {
                (active - 1) as nat
            } else {
                (tab_count - 1) as nat
            },
        ),
        KeyCode::Right => Some(
            if tab_count == 0 {
                active
            } else if active + 1 < tab_count {
                active + 1
            } else {
                0
            },
        ),
        _ => None,
    }
}

/// The tab that Alt with a key leads to.
pub fn alt_tab_target(active: usize, tab_count: usize, code: KeyCode) -> (r: Option<usize>)
    ensures
        match r {
            Some(n) => tab_target(active as nat, tab_count as nat, code) == Some(n as nat),
            None => tab_target(active as nat, tab_count as nat, code) is None,
        },
{
    match code {
        KeyCode::Char(c) => {
            if c >= '1' && c <= '9' {
                let idx: usize = (c as u32 - '1' as u32) as usize;
                Some(
                    if idx < tab_count {
                        idx
                    } else {
                        active
                    },
                )
            } else {
                None
            }
        },
        KeyCode::Left => Some(
            if tab_count == 0 {
                active
            } else if active > 0 {
                active - 1
            } else {
                tab_count - 1
            },
        ),
        KeyCode::Right => Some(
            if tab_count == 0 {
                active
            } else if active < tab_count - 1 {
                active + 1
            } else {
                0
            },
        ),
        _ => None,
    }
}

/// Switching tabs never leaves the tabs.
pub proof fn law_tab_target_is_a_tab(active: nat, tab_count: nat, code: KeyCode)
    requires
        active < tab_count,
    ensures
        tab_target(active, tab_count, code) matches Some(n) ==> n < tab_count,
{
}

/// Without tabs no key leads anywhere else.
pub proof fn law_no_tabs_no_move(active: nat, code: KeyCode)
    ensures
        tab_target(active, 0, code) matches Some(n) ==> n == active,
        tab_target(active, 0, KeyCode::Left) == Some(active),
        tab_target(active, 0, KeyCode::Right) == Some(active),
{
}

/// One step left and one step right lead back.
pub proof fn law_tab_arrows_undo_each_other(active: nat, tab_count: nat)
    requires
        active < tab_count,
    ensures
        tab_target(tab_target(active, tab_count, KeyCode::Left)->0, tab_count, KeyCode::Right) == Some(
            active,
        ),
        tab_target(tab_target(active, tab_count, KeyCode::Right)->0, tab_count, KeyCode::Left) == Some(
            active,
        ),
{
}

/// The dialog that gets the keys.
#[derive(Clone, Copy, Debug, PartialEq, Eq, Structural)]
pub enum ModalRoute {
    Permission,
    Ask,
    Plan,
}

/// The dialog that gets the keys: a permission before a question before a plan.
pub open spec fn route(has_permission: bool, has_ask: bool, has_plan: bool) -> Option<ModalRoute> {
    if has_permission {
        Some(ModalRoute::Permission)
    } else if has_ask {
        Some(ModalRoute::Ask)
    } else if has_plan {
        Some(ModalRoute::Plan)
    } else {
        None
    }
}

/// The dialog that gets the keys.
pub fn modal_route(has_permission: bool, has_ask: bool, has_plan: bool) -> (r: Option<ModalRoute>)
    ensures
        r == route(has_permission, has_ask, has_plan),
{
    if has_permission {
        Some(ModalRoute::Permission)
    } else if has_ask {
        Some(ModalRoute::Ask)
    } else if has_plan {
        Some(ModalRoute::Plan)
    } else {
        None
    }
}

/// A control character.
pub open spec fn control_char(c: char) -> bool {
    (c as u32) < 0x20 || 0x7f <= (c as u32) <= 0x9f
}

/// A control character.
pub fn is_control_char(c: char) -> (r: bool)
    ensures
        r == control_char(c),
{
    let n: u32 = c as u32;
    n < 0x20 || (n >= 0x7f && n <= 0x9f)
}

} // verus!
