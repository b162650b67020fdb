//! The pause menu: when it opens and closes, and what its buttons do.
//!
//! Escape is layered, so that it never surprises: it closes the menu if that is
//! open; else it puts away the tool or the selection; and only when there is
//! nothing else to back out of does it open the menu.
use vstd::prelude::*;

use crate::interact::Tool;
use crate::session::AppState;
use crate::sim::season::Clock;

verus! {

/// Is the menu open, and was the clock stopped already when it opened? A game
/// that the player had paused stays paused when the menu closes.
#[derive(Clone, Copy, PartialEq, Eq, Structural, Debug)]
pub struct MenuState {
    pub open: bool,
    pub was_paused: bool,
}

impl MenuState {
    /// The menu is closed.
    pub fn new() -> (r: MenuState)
        ensures
            r == (MenuState { open: false, was_paused: false }),
    {
        MenuState { open: false, was_paused: false }
    }

    /// Close the menu. What becomes of the clock is another matter.
    pub fn dismiss_menu(&mut self)
        ensures
            *final(self) == (MenuState { open: false, ..*old(self) }),
    {
        self.open = false;
    }

    /// Open the menu and stop the clock.
    pub fn open_menu(&mut self, clock: &mut Clock)
        ensures
            *final(self) == (MenuState { open: true, was_paused: old(clock).paused }),
            *final(clock) == (Clock { paused: true, ..*old(clock) }),
    {
        self.was_paused = clock.paused;
        self.open = true;
        clock.paused = true;
    }
}

/// Do keys reach the game? They do where there is no menu, or it is closed.
pub fn menu_closed(menu: Option<&MenuState>) -> (r: bool)
    ensures
        r == match menu {
            Some(m) => !m.open,
            None => true,
        },
{
    match menu {
        Some(m) => !m.open,
        None => true,
    }
}

/// What Escape did.
#[derive(Clone, Copy, PartialEq, Eq, Structural, Debug)]
pub enum Escaped {
    Closed,
    Cancelled,
    Opened,
}

/// The menu, the clock, the tool and the selection: all that Escape touches.
pub ghost struct Desk {
    pub menu: MenuState,
    pub clock: Clock,
    pub tool: Tool,
    pub selected: Option<u64>,
}

impl Desk {
    /// The menu closes, and the clock runs again unless it stood before.
    pub open spec fn resumed(self) -> Desk {
        Desk {
            menu: MenuState { open: false, ..self.menu },
            clock: if self.menu.was_paused {
                self.clock
            } else {
                Clock { paused: false, ..self.clock }
            },
            ..self
        }
    }

    pub open spec fn cancelled(self) -> Desk {
        Desk { tool: Tool::Select, selected: None, ..self }
    }

    pub open spec fn opened(self) -> Desk {
        Desk {
            menu: MenuState { open: true, was_paused: self.clock.paused },
            clock: Clock { paused: true, ..self.clock },
            ..self
        }
    }

    /// What Escape does.
    pub open spec fn escape(self) -> Escaped {
        if self.menu.open {
            Escaped::Closed
        } else if self.tool != Tool::Select || self.selected is Some {
            Escaped::Cancelled
        } else {
            Escaped::Opened
        }
    }

    /// What Escape makes of it.
    pub open spec fn escaped(self) -> Desk {
        match self.escape() {
            Escaped::Closed => self.resumed(),
            Escaped::Cancelled => self.cancelled(),
            Escaped::Opened => self.opened(),
        }
    }
}

pub open spec fn desk(menu: MenuState, clock: Clock, tool: Tool, selected: Option<u64>) -> Desk {
    Desk { menu, clock, tool, selected }
}

/// The player pressed Escape.
pub fn handle_escape(
    menu: &mut MenuState,
    clock: &mut Clock,
    tool: &mut Tool,
    selected: &mut Option<u64>,
) -> (r: Escaped)
    ensures
        r == desk(*old(menu), *old(clock), *old(tool), *old(selected)).escape(),
        desk(*final(menu), *final(clock), *final(tool), *final(selected)) == desk(
            *old(menu),
            *old(clock),
            *old(tool),
            *old(selected),
        ).escaped(),
{
    if menu.open {
        resume(menu, clock);
        Escaped::Closed
    } else if *tool != Tool::Select || selected.is_some() {
        *tool = Tool::Select;
        *selected = None;
        Escaped::Cancelled
    } else {
        menu.open_menu(clock);
        Escaped::Opened
    }
}

/// Close the menu and let the clock run again, unless it stood before.
pub fn resume(menu: &mut MenuState, clock: &mut Clock)
    ensures
        forall|tool: Tool, selected: Option<u64>|
            #![trigger desk(*old(menu), *old(clock), tool, selected)]
            #![trigger desk(*final(menu), *final(clock), tool, selected)]
            desk(*final(menu), *final(clock), tool, selected) == desk(
                *old(menu),
                *old(clock),
                tool,
                selected,
            ).resumed(),
{
    let runs = !menu.was_paused;
    menu.dismiss_menu();
    if runs {
        clock.paused = false;
    }
}

/// The buttons of the menu.
#[derive(Clone, Copy, PartialEq, Eq, Structural, Debug)]
pub enum MenuButton {
    Resume,
    Restart,
    QuitToTitle,
    QuitToDesktop,
}

impl MenuButton {
    pub open spec fn words(self) -> Seq<char> {
        match self {
            MenuButton::Resume => "Resume"@,
            MenuButton::Restart => "Restart"@,
            MenuButton::QuitToTitle => "Quit to title"@,
            MenuButton::QuitToDesktop => "Quit to desktop"@,
        }
    }

    /// What is written on the button.
    pub fn title(&self) -> (r: &'static str)
        ensures
            r@ == self.words(),
    {
        match self {
            MenuButton::Resume => "Resume",
            MenuButton::Restart => "Restart",
            MenuButton::QuitToTitle => "Quit to title",
            MenuButton::QuitToDesktop => "Quit to desktop",
        }
    }

    /// The buttons from the top down.
    pub fn column() -> (r: Vec<MenuButton>)
        ensures
            r@ == seq![
                MenuButton::Resume,
                MenuButton::Restart,
                MenuButton::QuitToTitle,
                MenuButton::QuitToDesktop,
            ],
    {
        vec![
            MenuButton::Resume,
            MenuButton::Restart,
            MenuButton::QuitToTitle,
            MenuButton::QuitToDesktop,
        ]
    }
}

/// Where a button leads: to another state of the game, out of it, or nowhere.
#[derive(Clone, Copy, PartialEq, Eq, Structural, Debug)]
pub enum Leads {
    Nowhere,
    To(AppState),
    Out,
}

/// A button of the menu was pressed. Playing anew is a change of state too, from
/// playing to playing, at which a fresh colony is founded.
pub fn press(button: MenuButton, menu: &mut MenuState, clock: &mut Clock) -> (r: Leads)
    ensures
        r == match button {
            MenuButton::Resume => Leads::Nowhere,
            MenuButton::Restart => Leads::To(AppState::Playing),
            MenuButton::QuitToTitle => Leads::To(AppState::Intro),
            MenuButton::QuitToDesktop => Leads::Out,
        },
        *final(menu) == if button == MenuButton::QuitToDesktop {
            *old(menu)
        } else {
            MenuState { open: false, ..*old(menu) }
        },
        *final(clock) == if button == MenuButton::QuitToTitle || (button == MenuButton::Resume
            && !old(menu).was_paused) {
            Clock { paused: false, ..*old(clock) }
        } else {
            *old(clock)
        },
{
    match button {
        MenuButton::Resume => {
            if !menu.was_paused {
                clock.paused = false;
            }
            menu.dismiss_menu();
            Leads::Nowhere
        },
        MenuButton::Restart => {
            menu.dismiss_menu();
            Leads::To(AppState::Playing)
        },
        MenuButton::QuitToTitle => {
            menu.dismiss_menu();
            clock.paused = false;
            Leads::To(AppState::Intro)
        },
        MenuButton::QuitToDesktop => Leads::Out,
    }
}

/// Opening the menu and closing it again leaves the clock as it was, whether it
/// ran or the player had stopped it.
pub proof fn closing_restores_the_clock(d: Desk)
    requires
        !d.menu.open,
        d.tool == Tool::Select,
        d.selected is None,
    ensures
        d.escaped().escaped().clock == d.clock,
        !d.escaped().escaped().menu.open,
        d.escaped().clock.paused,
{
}

/// While a tool is in hand or something is selected, Escape puts it away and
/// opens no menu; a second Escape then does.
pub proof fn escape_is_layered(d: Desk)
    requires
        !d.menu.open,
        d.tool != Tool::Select || d.selected is Some,
    ensures
        d.escape() == Escaped::Cancelled,
        d.escaped().menu == d.menu,
        d.escaped().clock == d.clock,
        d.escaped().escape() == Escaped::Opened,
{
}

} // verus!
