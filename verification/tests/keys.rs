use giter::drawer::app::{Input, Pane, Screen};
use giter::drawer::keys::{command_for, Command, Key, PAGE};

fn normal(screen: Screen, pane: Pane, key: Key) -> Command {
    command_for(Input::Normal, screen, pane, false, key)
}

#[test]
fn keys_do_what_the_key_map_says() {
    assert_eq!(normal(Screen::Overview, Pane::Pods, Key::Char('q')), Command::Quit);
    assert_eq!(normal(Screen::Overview, Pane::Pods, Key::Esc), Command::Back);
    assert_eq!(normal(Screen::Overview, Pane::Pods, Key::Char('j')), Command::Move(1));
    assert_eq!(normal(Screen::Overview, Pane::Pods, Key::PageUp), Command::Move(-PAGE));
    assert_eq!(normal(Screen::Overview, Pane::Pods, Key::End), Command::Move(isize::MAX));
    assert_eq!(normal(Screen::Overview, Pane::Pods, Key::Char('R')), Command::Relist);
    assert_eq!(normal(Screen::Overview, Pane::Pods, Key::Char('/')), Command::StartSearch);
    assert_eq!(normal(Screen::Overview, Pane::Pods, Key::Char('x')), Command::Nothing);
}

#[test]
fn left_steps_back_from_the_leftmost_pane_on_screen() {
    assert_eq!(normal(Screen::Detail, Pane::Containers, Key::Left), Command::FocusPrev);
    assert_eq!(normal(Screen::Detail, Pane::Namespaces, Key::Left), Command::Leave);
    assert_eq!(
        command_for(Input::Normal, Screen::Detail, Pane::Pods, true, Key::Char('h')),
        Command::Leave
    );
    assert_eq!(normal(Screen::Detail, Pane::Pods, Key::BackTab), Command::FocusPrev);
    assert_eq!(normal(Screen::Overview, Pane::Pods, Key::Tab), Command::Nothing);
    assert_eq!(normal(Screen::Detail, Pane::Pods, Key::Tab), Command::FocusNext);
}

#[test]
fn typing_goes_to_the_search() {
    let search = |key| command_for(Input::Search, Screen::Overview, Pane::Pods, false, key);

    assert_eq!(search(Key::Char('q')), Command::SearchPush('q'));
    assert_eq!(search(Key::Backspace), Command::SearchPop);
    assert_eq!(search(Key::Enter), Command::EndSearch(true));
    assert_eq!(search(Key::Esc), Command::EndSearch(false));
    assert_eq!(search(Key::Interrupt), Command::Quit);
}

#[test]
fn help_only_closes() {
    let help = |key| command_for(Input::Help, Screen::Overview, Pane::Pods, false, key);

    assert_eq!(help(Key::Char('?')), Command::ToggleHelp);
    assert_eq!(help(Key::Esc), Command::ToggleHelp);
    assert_eq!(help(Key::Char('q')), Command::Nothing);
}
