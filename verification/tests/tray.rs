use aw_tauri::supervisor::Supervisor;
use aw_tauri::tray::{build_menu, handle_event, MenuNode, TrayDirective, TrayEvent};

fn names(list: &[&str]) -> Vec<String> {
    list.iter().map(|s| s.to_string()).collect()
}

#[test]
fn menu_has_fixed_entries_and_one_item_per_module() {
    let mut sup = Supervisor::initialize(&names(&["a", "b"]));
    sup.start(&"a".to_string());
    let menu = build_menu(&sup.snapshot());
    assert_eq!(menu.len(), 5);
    match &menu[0] {
        MenuNode::Item(it) => {
            assert_eq!(it.id, "open");
            assert_eq!(it.label, "Open");
        }
        _ => panic!("expected the fixed open entry first"),
    }
    assert!(matches!(menu[1], MenuNode::Separator));
    match &menu[2] {
        MenuNode::Submenu { title, items } => {
            assert_eq!(title, "Modules");
            assert_eq!(items.len(), 2);
            assert_eq!(items[0].id, "a");
            assert_eq!(items[0].label, "a (Running)");
            assert_eq!(items[1].id, "b");
            assert_eq!(items[1].label, "b (Stopped)");
        }
        _ => panic!("expected the modules submenu in the middle"),
    }
    assert!(matches!(menu[3], MenuNode::Separator));
    match &menu[4] {
        MenuNode::Item(it) => {
            assert_eq!(it.id, "quit");
            assert_eq!(it.label, "Quit");
        }
        _ => panic!("expected the fixed quit entry last"),
    }
}

#[test]
fn menu_from_an_empty_snapshot_keeps_the_fixed_entries() {
    let sup = Supervisor::initialize(&names(&[]));
    let menu = build_menu(&sup.snapshot());
    assert_eq!(menu.len(), 5);
    match &menu[2] {
        MenuNode::Submenu { items, .. } => assert!(items.is_empty()),
        _ => panic!("expected an empty modules submenu"),
    }
}

#[test]
fn double_click_and_open_ask_for_the_window() {
    let mut sup = Supervisor::initialize(&names(&["a"]));
    let d = handle_event(&mut sup, TrayEvent::DoubleClick);
    assert!(matches!(d, TrayDirective::ShowWindow));
    let d = handle_event(&mut sup, TrayEvent::MenuItemClick("open".to_string()));
    assert!(matches!(d, TrayDirective::ShowWindow));
    assert_eq!(sup.is_running(&"a".to_string()), Some(false));
}

#[test]
fn module_click_toggles_the_module() {
    let mut sup = Supervisor::initialize(&names(&["a"]));
    let d = handle_event(&mut sup, TrayEvent::MenuItemClick("a".to_string()));
    match d {
        TrayDirective::LaunchModule(m) => assert_eq!(m, "a"),
        _ => panic!("first click on a stopped module must launch it"),
    }
    assert_eq!(sup.is_running(&"a".to_string()), Some(true));
    let d = handle_event(&mut sup, TrayEvent::MenuItemClick("a".to_string()));
    match d {
        TrayDirective::SignalModule(m) => assert_eq!(m, "a"),
        _ => panic!("second click on a running module must stop it"),
    }
    assert_eq!(sup.is_running(&"a".to_string()), Some(false));
}

#[test]
fn unknown_menu_id_changes_nothing() {
    let mut sup = Supervisor::initialize(&names(&["a"]));
    let d = handle_event(&mut sup, TrayEvent::MenuItemClick("nope".to_string()));
    match d {
        TrayDirective::UnknownModule(m) => assert_eq!(m, "nope"),
        _ => panic!("an id that names no module is reported as unknown"),
    }
    assert_eq!(sup.is_running(&"a".to_string()), Some(false));
}

#[test]
fn quit_stops_every_running_module_before_exit() {
    let mut sup = Supervisor::initialize(&names(&["a", "b"]));
    sup.start(&"a".to_string());
    sup.start(&"b".to_string());
    let d = handle_event(&mut sup, TrayEvent::MenuItemClick("quit".to_string()));
    match d {
        TrayDirective::QuitAfterStops(to_signal) => {
            // Both running modules are attempted; the host exits only after
            // working through this whole list.
            assert_eq!(to_signal, vec!["a".to_string(), "b".to_string()]);
        }
        _ => panic!("quit must direct stop attempts and then exit"),
    }
    assert_eq!(sup.is_running(&"a".to_string()), Some(false));
    assert_eq!(sup.is_running(&"b".to_string()), Some(false));
}
