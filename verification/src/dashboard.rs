//! The dashboard loop's state machine: one cooperative controller that
//! consumes input and tick events, dispatches to the store and the
//! selection, and tells its caller which outside action to perform. Also
//! the timing rules of the event pump that feeds it.

use vstd::prelude::*;
use crate::selection::{nav_down_spec, nav_up_spec, Selection};

verus! {

/// The tick interval of the dashboard, in milliseconds.
pub const TICK_RATE_MS: u64 = 200;

/// The two panels the dashboard can show.
#[derive(Clone, Copy, Debug, PartialEq, Eq, Structural)]
pub enum MenuItem {
    Home,
    Assets,
}

impl From<MenuItem> for usize {
    /// The tab position of each panel in the menu row.
    fn from(input: MenuItem) -> (r: usize) {
        match input {
            MenuItem::Home => 0,
            MenuItem::Assets => 1,
        }
    }
}

impl vstd::std_specs::convert::FromSpecImpl<MenuItem> for usize {
    open spec fn obeys_from_spec() -> bool {
        true
    }

    open spec fn from_spec(t: MenuItem) -> usize {
        match t {
            MenuItem::Home => 0,
            MenuItem::Assets => 1,
        }
    }
}

/// The keys the dashboard reacts to.
#[derive(Clone, Copy, Debug, PartialEq, Eq, Structural)]
pub enum Key {
    Quit,
    Home,
    Assets,
    Add,
    Delete,
    Fetch,
    Down,
    Up,
    Other,
}

/// The key a typed character is bound to.
pub open spec fn key_of_char_spec(c: char) -> Key {
    if c == 'q' {
        Key::Quit
    } else if c == 'h' {
        Key::Home
    } else if c == 'p' {
        Key::Assets
    } else if c == 'a' {
        Key::Add
    } else if c == 'd' {
        Key::Delete
    } else if c == 'f' {
        Key::Fetch
    } else {
        Key::Other
    }
}

/// Translate a typed character to its binding.
pub fn key_of_char(c: char) -> (k: Key)
    ensures
        k == key_of_char_spec(c),
{
    match c {
        'q' => Key::Quit,
        'h' => Key::Home,
        'p' => Key::Assets,
        'a' => Key::Add,
        'd' => Key::Delete,
        'f' => Key::Fetch,
        _ => Key::Other,
    }
}

/// One event delivered over the pump's channel.
#[derive(Clone, Copy, Debug, PartialEq, Eq, Structural)]
pub enum Event {
    Input(Key),
    Tick,
}

/// What the caller of the loop must do after one event is handled. The
/// caller performs the action against the outside world and, on a removal
/// or an addition, drives the store.
#[derive(Clone, Copy, Debug, PartialEq, Eq, Structural)]
pub enum Action {
    /// Nothing beyond the redraw.
    DoNothing,
    /// Append a freshly drawn asset to the store.
    AddAsset,
    /// Remove the asset at this index from the store.
    RemoveAt(usize),
    /// Trigger the external data-sync collaborator.
    SyncData,
    /// Leave raw input mode and end the loop.
    Quit,
}

/// The dashboard's whole state: the active panel, the selection, and
/// whether the loop is still running (`Terminating` is absorbing).
pub struct Dashboard {
    pub active: MenuItem,
    pub selection: Selection,
    pub running: bool,
}

impl Dashboard {
    /// The loop starts running, on the home panel, with row 0 selected.
    pub fn new() -> (d: Dashboard)
        ensures
            d.active == MenuItem::Home,
            d.selection.index == 0,
            d.running,
    {
        Dashboard { active: MenuItem::Home, selection: Selection::initial(), running: true }
    }

    /// Handle one event while running: quit ends the loop; the panel keys
    /// switch the view; add, delete and fetch are handed back as actions;
    /// the arrow keys move the selection over `count` rows; anything else,
    /// and every tick, is a redraw alone. A loop that is no longer running
    /// changes nothing.
    pub fn handle_event(&mut self, ev: Event, count: usize) -> (act: Action)
        ensures
            !old(self).running ==> *final(self) == *old(self) && act == Action::DoNothing,
            old(self).running ==> match ev {
                Event::Tick => *final(self) == *old(self) && act == Action::DoNothing,
                Event::Input(k) => match k {
                    Key::Quit => !final(self).running && final(self).active == old(self).active
                        && final(self).selection == old(self).selection && act == Action::Quit,
                    Key::Home => *final(self) == (Dashboard {
                        active: MenuItem::Home,
                        ..*old(self)
                    }) && act == Action::DoNothing,
                    Key::Assets => *final(self) == (Dashboard {
                        active: MenuItem::Assets,
                        ..*old(self)
                    }) && act == Action::DoNothing,
                    Key::Add => *final(self) == *old(self) && act == Action::AddAsset,
                    Key::Delete => *final(self) == *old(self) && act == Action::RemoveAt(
                        old(self).selection.index,
                    ),
                    Key::Fetch => *final(self) == *old(self) && act == Action::SyncData,
                    Key::Down => final(self).selection.index == nav_down_spec(
                        old(self).selection.index as int,
                        count as int,
                    ) && final(self).active == old(self).active && final(self).running && act
                        == Action::DoNothing,
                    Key::Up => final(self).selection.index == nav_up_spec(
                        old(self).selection.index as int,
                        count as int,
                    ) && final(self).active == old(self).active && final(self).running && act
                        == Action::DoNothing,
                    Key::Other => *final(self) == *old(self) && act == Action::DoNothing,
                },
            },
    {
        if !self.running {
            return Action::DoNothing;
        }
        match ev {
            Event::Tick => Action::DoNothing,
            Event::Input(k) => match k {
                Key::Quit => {
                    self.running = false;
                    Action::Quit
                },
                Key::Home => {
                    self.active = MenuItem::Home;
                    Action::DoNothing
                },
                Key::Assets => {
                    self.active = MenuItem::Assets;
                    Action::DoNothing
                },
                Key::Add => Action::AddAsset,
                Key::Delete => Action::RemoveAt(self.selection.index),
                Key::Fetch => Action::SyncData,
                Key::Down => {
                    self.selection.on_navigate_down(count);
                    Action::DoNothing
                },
                Key::Up => {
                    self.selection.on_navigate_up(count);
                    Action::DoNothing
                },
                Key::Other => Action::DoNothing,
            },
        }
    }
}

/// How long the pump may block waiting for input: the time left until the
/// tick deadline, and nothing once the deadline has passed.
pub fn poll_timeout(elapsed_ms: u64, tick_rate_ms: u64) -> (t: u64)
    ensures
        t == if elapsed_ms <= tick_rate_ms {
            tick_rate_ms - elapsed_ms
        } else {
            0int
        },
{
    if elapsed_ms <= tick_rate_ms {
        tick_rate_ms - elapsed_ms
    } else {
        0
    }
}

/// Whether a tick is due: the tick interval has elapsed since the last
/// tick. Input arriving earlier never resets the deadline.
pub fn tick_due(elapsed_ms: u64, tick_rate_ms: u64) -> (b: bool)
    ensures
        b == (elapsed_ms >= tick_rate_ms),
{
    elapsed_ms >= tick_rate_ms
}

} // verus!
