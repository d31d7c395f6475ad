//! What a key press asks for. The terminal's key events are turned into `Key` by the
//! caller, which then carries out the `Command` on the state.
use crate::drawer::app::{Input, Pane, Screen};
use vstd::prelude::*;

verus! {

/// Rows one page up or down moves the cursor.
pub const PAGE: isize = 10;

/// A key the interface reacts to.
#[derive(Debug, Clone, Copy, PartialEq, Eq, Structural)]
pub enum Key {
    Char(char),
    Up,
    Down,
    Left,
    Right,
    PageUp,
    PageDown,
    Home,
    End,
    Tab,
    BackTab,
    Enter,
    Esc,
    Backspace,
    /// Ctrl-C.
    Interrupt,
}

/// What a key asks the state to do.
#[derive(Debug, Clone, Copy, PartialEq, Eq, Structural)]
pub enum Command {
    Nothing,
    Quit,
    /// Esc: dismiss a message, leave the namespace, quit.
    Back,
    /// Move the cursor by this many rows.
    Move(isize),
    FocusNext,
    FocusPrev,
    /// Step back from the detail screen to the overview.
    Leave,
    Activate,
    StartSearch,
    /// Leave the search, keeping what was typed or not.
    EndSearch(bool),
    SearchPush(char),
    SearchPop,
    CycleFilter,
    CycleSort,
    ToggleMode,
    Refresh,
    Relist,
    ToggleHelp,
}

/// What `key` asks for while typing a search.
pub open spec fn search_command(key: Key) -> Command {
    match key {
        Key::Enter => Command::EndSearch(true),
        Key::Esc => Command::EndSearch(false),
        Key::Backspace => Command::SearchPop,
        Key::Char(c) => Command::SearchPush(c),
        Key::Up => Command::Move(-1isize),
        Key::Down => Command::Move(1isize),
        _ => Command::Nothing,
    }
}

/// What a step to the left is on the detail screen: back to the overview from the
/// leftmost pane on screen, to the pane on the left otherwise.
pub open spec fn left_command(screen: Screen, pane: Pane, narrow: bool) -> Command {
    match screen {
        Screen::Overview => Command::Nothing,
        Screen::Detail => if pane == Pane::Namespaces || (narrow && pane == Pane::Pods) {
            Command::Leave
        } else {
            Command::FocusPrev
        },
    }
}

/// What `key` asks for with nothing else going on.
pub open spec fn normal_command(screen: Screen, pane: Pane, narrow: bool, key: Key) -> Command {
    match key {
        Key::Char('q') => Command::Quit,
        Key::Esc => Command::Back,
        Key::Up | Key::Char('k') => Command::Move(-1isize),
        Key::Down | Key::Char('j') => Command::Move(1isize),
        Key::PageUp => Command::Move((-PAGE) as isize),
        Key::PageDown => Command::Move(PAGE),
        Key::Home => Command::Move(isize::MIN),
        Key::End => Command::Move(isize::MAX),
        Key::Right | Key::Char('l') | Key::Tab => match screen {
            Screen::Detail => Command::FocusNext,
            Screen::Overview => Command::Nothing,
        },
        Key::Left | Key::Char('h') | Key::BackTab => left_command(screen, pane, narrow),
        Key::Enter => Command::Activate,
        Key::Char('/') => Command::StartSearch,
        Key::Char('f') => Command::CycleFilter,
        Key::Char('s') => Command::CycleSort,
        Key::Char('m') => Command::ToggleMode,
        Key::Char('r') => Command::Refresh,
        Key::Char('R') => Command::Relist,
        Key::Char('?') => Command::ToggleHelp,
        _ => Command::Nothing,
    }
}

/// What `key` asks for: Ctrl-C always quits, the search takes what is typed, the help
/// only closes, and otherwise each key does what the key map says.
pub open spec fn command_spec(input: Input, screen: Screen, pane: Pane, narrow: bool, key: Key) -> Command {
    if key == Key::Interrupt {
        Command::Quit
    } else {
        match input {
            Input::Search => search_command(key),
            Input::Help => match key {
                Key::Esc | Key::Char('?') => Command::ToggleHelp,
                _ => Command::Nothing,
            },
            Input::Normal => normal_command(screen, pane, narrow, key),
        }
    }
}

/// What `key` asks for in the given situation.
pub fn command_for(input: Input, screen: Screen, pane: Pane, narrow: bool, key: Key) -> (r: Command)
    ensures
        r == command_spec(input, screen, pane, narrow, key),
{
    if let Key::Interrupt = key {
        return Command::Quit;
    }
    match input {
        Input::Search => match key {
            Key::Enter => Command::EndSearch(true),
            Key::Esc => Command::EndSearch(false),
            Key::Backspace => Command::SearchPop,
            Key::Char(c) => Command::SearchPush(c),
            Key::Up => Command::Move(-1),
            Key::Down => Command::Move(1),
            _ => Command::Nothing,
        },
        Input::Help => match key {
            Key::Esc | Key::Char('?') => Command::ToggleHelp,
            _ => Command::Nothing,
        },
        Input::Normal => match key {
            Key::Char('q') => Command::Quit,
            Key::Esc => Command::Back,
            Key::Up | Key::Char('k') => Command::Move(-1),
            Key::Down | Key::Char('j') => Command::Move(1),
            Key::PageUp => Command::Move(-PAGE),
            Key::PageDown => Command::Move(PAGE),
            Key::Home => Command::Move(isize::MIN),
            Key::End => Command::Move(isize::MAX),
            Key::Right | Key::Char('l') | Key::Tab => match screen {
                Screen::Detail => Command::FocusNext,
                Screen::Overview => Command::Nothing,
            },
            Key::Left | Key::Char('h') | Key::BackTab => match screen {
                Screen::Overview => Command::Nothing,
                Screen::Detail => {
                    if pane == Pane::Namespaces || (narrow && pane == Pane::Pods) {
                        Command::Leave
                    } else {
                        Command::FocusPrev
                    }
                },
            },
            Key::Enter => Command::Activate,
            Key::Char('/') => Command::StartSearch,
            Key::Char('f') => Command::CycleFilter,
            Key::Char('s') => Command::CycleSort,
            Key::Char('m') => Command::ToggleMode,
            Key::Char('r') => Command::Refresh,
            Key::Char('R') => Command::Relist,
            Key::Char('?') => Command::ToggleHelp,
            _ => Command::Nothing,
        },
    }
}

/// Ctrl-C quits whatever is going on, and every other key typed into the search goes to the
/// search rather than acting as a command.
pub proof fn interrupt_always_quits_and_typing_stays_in_the_search(
    screen: Screen,
    pane: Pane,
    narrow: bool,
    c: char,
)
    ensures
        forall|input: Input|
            command_spec(input, screen, pane, narrow, Key::Interrupt) == Command::Quit,
        command_spec(Input::Search, screen, pane, narrow, Key::Char(c)) == Command::SearchPush(c),
{
}

} // verus!
