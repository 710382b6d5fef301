use asset_cli::{key_of_char, Action, Dashboard, Event, Key, MenuItem};

#[test]
fn key_bindings() {
    assert_eq!(key_of_char('q'), Key::Quit);
    assert_eq!(key_of_char('h'), Key::Home);
    assert_eq!(key_of_char('p'), Key::Assets);
    assert_eq!(key_of_char('a'), Key::Add);
    assert_eq!(key_of_char('d'), Key::Delete);
    assert_eq!(key_of_char('f'), Key::Fetch);
    assert_eq!(key_of_char('x'), Key::Other);
}

#[test]
fn menu_tab_positions() {
    assert_eq!(usize::from(MenuItem::Home), 0);
    assert_eq!(usize::from(MenuItem::Assets), 1);
}

#[test]
fn quit_key_terminates_the_loop() {
    let mut d = Dashboard::new();
    assert!(d.running);
    let act = d.handle_event(Event::Input(Key::Quit), 0);
    assert_eq!(act, Action::Quit);
    assert!(!d.running);
    // Terminating is absorbing.
    let act = d.handle_event(Event::Input(Key::Add), 0);
    assert_eq!(act, Action::DoNothing);
    assert!(!d.running);
}

#[test]
fn panel_keys_switch_the_view() {
    let mut d = Dashboard::new();
    assert_eq!(d.active, MenuItem::Home);
    d.handle_event(Event::Input(Key::Assets), 0);
    assert_eq!(d.active, MenuItem::Assets);
    d.handle_event(Event::Input(Key::Home), 0);
    assert_eq!(d.active, MenuItem::Home);
}

#[test]
fn add_delete_and_fetch_become_actions() {
    let mut d = Dashboard::new();
    assert_eq!(d.handle_event(Event::Input(Key::Add), 3), Action::AddAsset);
    assert_eq!(d.handle_event(Event::Input(Key::Delete), 3), Action::RemoveAt(0));
    assert_eq!(d.handle_event(Event::Input(Key::Fetch), 3), Action::SyncData);
    assert!(d.running);
}

#[test]
fn arrow_keys_move_the_selection() {
    let mut d = Dashboard::new();
    d.handle_event(Event::Input(Key::Down), 3);
    assert_eq!(d.selection.index, 1);
    d.handle_event(Event::Input(Key::Up), 3);
    assert_eq!(d.selection.index, 0);
    d.handle_event(Event::Input(Key::Up), 3);
    assert_eq!(d.selection.index, 2);
}

#[test]
fn tick_and_unbound_keys_do_nothing() {
    let mut d = Dashboard::new();
    assert_eq!(d.handle_event(Event::Tick, 3), Action::DoNothing);
    assert_eq!(d.handle_event(Event::Input(Key::Other), 3), Action::DoNothing);
    assert_eq!(d.active, MenuItem::Home);
    assert_eq!(d.selection.index, 0);
    assert!(d.running);
}

#[test]
fn pump_timing() {
    assert_eq!(asset_cli::poll_timeout(50, 200), 150);
    assert_eq!(asset_cli::poll_timeout(200, 200), 0);
    assert_eq!(asset_cli::poll_timeout(250, 200), 0);
    assert!(!asset_cli::tick_due(199, 200));
    assert!(asset_cli::tick_due(200, 200));
    assert!(asset_cli::tick_due(201, 200));
}
