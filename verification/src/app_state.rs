//! The application state machine: the current query, the viewing/editing
//! mode, and the exit flag, driven by abstract key events.
//!
//! The machine only decides; the surrounding program performs what the
//! returned action asks for (starting a scan, shutting down).

use vstd::prelude::*;

verus! {

/// One key event, reduced to what the state machine distinguishes.
#[derive(Clone, Copy, PartialEq, Eq, Structural, Debug)]
pub enum Key {
    Char(char),
    Esc,
    Backspace,
    Enter,
    Other,
}

/// What the surrounding program must do after a key was handled.
#[derive(Clone, Copy, PartialEq, Eq, Structural, Debug)]
pub enum AppAction {
    /// Nothing beyond rendering.
    Idle,
    /// The query was committed: restart the scan for the current query.
    StartScan,
    /// The user asked to quit: shut the scan controller down, then exit.
    Quit,
}

/// The query buffer, the mode flag and the exit flag.
pub struct AppState {
    query: String,
    editing: bool,
    exit: bool,
}

/// How one key event transforms the state, and which action it demands.
pub open spec fn step(
    before: AppState,
    key: Key,
    after: AppState,
    action: AppAction,
) -> bool {
    if !before.spec_editing() {
        match key {
            Key::Char(c) => {
                if c == 'q' {
                    after.spec_query() == before.spec_query() && !after.spec_editing()
                        && after.spec_exit() && action == AppAction::Quit
                } else if c == '/' {
                    after.spec_query() == before.spec_query() && after.spec_editing()
                        && after.spec_exit() == before.spec_exit() && action == AppAction::Idle
                } else {
                    after == before && action == AppAction::Idle
                }
            },
            Key::Esc => after.spec_query() == before.spec_query() && !after.spec_editing()
                && after.spec_exit() && action == AppAction::Quit,
            _ => after == before && action == AppAction::Idle,
        }
    } else {
        match key {
            Key::Char(c) => after.spec_query() == before.spec_query().push(c)
                && after.spec_editing() && after.spec_exit() == before.spec_exit() && action
                == AppAction::Idle,
            Key::Esc => after.spec_query() == before.spec_query() && !after.spec_editing()
                && after.spec_exit() == before.spec_exit() && action == AppAction::StartScan,
            Key::Enter => after.spec_query() == before.spec_query() && !after.spec_editing()
                && after.spec_exit() == before.spec_exit() && action == AppAction::StartScan,
            Key::Backspace => after.spec_query() == (if before.spec_query().len() == 0 {
                before.spec_query()
            } else {
                before.spec_query().drop_last()
            }) && after.spec_editing() && after.spec_exit() == before.spec_exit() && action
                == AppAction::Idle,
            Key::Other => after == before && action == AppAction::Idle,
        }
    }
}

impl AppState {
    /// The query buffer's characters.
    pub closed spec fn spec_query(&self) -> Seq<char> {
        self.query@
    }

    /// Whether the machine is in the editing state rather than viewing.
    pub closed spec fn spec_editing(&self) -> bool {
        self.editing
    }

    /// Whether the user asked to leave.
    pub closed spec fn spec_exit(&self) -> bool {
        self.exit
    }

    /// The starting state: viewing an initial query where one was supplied,
    /// otherwise editing an empty one.
    pub fn new(initial_query: Option<String>) -> (s: AppState)
        ensures
            !s.spec_exit(),
            (match initial_query {
                Some(q) => s.spec_query() == q@ && !s.spec_editing(),
                None => s.spec_query().len() == 0 && s.spec_editing(),
            }),
    {
        match initial_query {
            Some(q) => AppState { query: q, editing: false, exit: false },
            None => AppState { query: String::new(), editing: true, exit: false },
        }
    }

    /// The current query string.
    pub fn query(&self) -> (r: &String)
        ensures
            r@ == self.spec_query(),
    {
        &self.query
    }

    pub fn is_editing(&self) -> (r: bool)
        ensures
            r == self.spec_editing(),
    {
        self.editing
    }

    pub fn should_exit(&self) -> (r: bool)
        ensures
            r == self.spec_exit(),
    {
        self.exit
    }

    /// Consumes one key event: while viewing, `q` or escape asks to quit and
    /// `/` enters editing; while editing, characters extend the query,
    /// backspace shortens it, and escape or enter commits it, asking for a
    /// scan restart.
    pub fn handle_key(&mut self, key: Key) -> (action: AppAction)
        ensures
            step(*old(self), key, *final(self), action),
    {
        if !self.editing {
            match key {
                Key::Char(c) => {
                    if c == 'q' {
                        self.exit = true;
                        AppAction::Quit
                    } else if c == '/' {
                        self.editing = true;
                        AppAction::Idle
                    } else {
                        AppAction::Idle
                    }
                },
                Key::Esc => {
                    self.exit = true;
                    AppAction::Quit
                },
                _ => AppAction::Idle,
            }
        } else {
            match key {
                Key::Char(c) => {
                    push_char(&mut self.query, c);
                    AppAction::Idle
                },
                Key::Esc => {
                    self.editing = false;
                    AppAction::StartScan
                },
                Key::Enter => {
                    self.editing = false;
                    AppAction::StartScan
                },
                Key::Backspace => {
                    pop_char(&mut self.query);
                    AppAction::Idle
                },
                Key::Other => AppAction::Idle,
            }
        }
    }
}

/// Relies on String::push: appends exactly one character at the end.
#[verifier::external_body]
fn push_char(s: &mut String, c: char)
    ensures
        final(s)@ == old(s)@.push(c),
{
    s.push(c);
}

/// Relies on String::pop: removes and returns the last character, if any.
#[verifier::external_body]
fn pop_char(s: &mut String) -> (r: Option<char>)
    ensures
        old(s)@.len() == 0 ==> r is None && final(s)@ == old(s)@,
        old(s)@.len() > 0 ==> r == Some(old(s)@.last()) && final(s)@ == old(s)@.drop_last(),
{
    s.pop()
}

} // verus!
