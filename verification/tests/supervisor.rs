use aw_tauri::supervisor::{StartOutcome, StopOutcome, Supervisor, ToggleOutcome};

fn names(list: &[&str]) -> Vec<String> {
    list.iter().map(|s| s.to_string()).collect()
}

fn snapshot_pairs(sup: &Supervisor) -> Vec<(String, bool)> {
    sup.snapshot().into_iter().map(|e| (e.name, e.running)).collect()
}

#[test]
fn initialize_registers_each_name_stopped() {
    let sup = Supervisor::initialize(&names(&["a", "b"]));
    assert_eq!(sup.module_count(), 2);
    assert_eq!(
        snapshot_pairs(&sup),
        vec![("a".to_string(), false), ("b".to_string(), false)]
    );
}

#[test]
fn initialize_keeps_one_entry_per_distinct_name() {
    let sup = Supervisor::initialize(&names(&["a", "a", "b", "a"]));
    assert_eq!(
        snapshot_pairs(&sup),
        vec![("a".to_string(), false), ("b".to_string(), false)]
    );
}

#[test]
fn snapshot_after_initialize_reflects_each_start_outcome() {
    // Bring both modules up right after initialization; the launch of "a"
    // succeeds while the launch of "b" fails.
    let mut sup = Supervisor::initialize(&names(&["a", "b"]));
    assert!(matches!(sup.start(&"a".to_string()), StartOutcome::Launch));
    assert!(matches!(sup.start(&"b".to_string()), StartOutcome::Launch));
    assert!(sup.record_launch_failure(&"b".to_string()));
    assert_eq!(
        snapshot_pairs(&sup),
        vec![("a".to_string(), true), ("b".to_string(), false)]
    );
}

#[test]
fn failed_launch_is_recorded_stopped_without_fatal_error() {
    let mut sup = Supervisor::initialize(&names(&["collector-a"]));
    assert!(matches!(
        sup.start(&"collector-a".to_string()),
        StartOutcome::Launch
    ));
    // The launch of collector-a fails deterministically; the failure is
    // recorded and nothing else is disturbed.
    assert!(sup.record_launch_failure(&"collector-a".to_string()));
    assert_eq!(
        snapshot_pairs(&sup),
        vec![("collector-a".to_string(), false)]
    );
}

#[test]
fn start_is_idempotent() {
    let mut sup = Supervisor::initialize(&names(&["a"]));
    let a = "a".to_string();
    assert!(matches!(sup.start(&a), StartOutcome::Launch));
    assert!(matches!(sup.start(&a), StartOutcome::AlreadyRunning));
    assert!(matches!(sup.start(&a), StartOutcome::AlreadyRunning));
    assert_eq!(sup.is_running(&a), Some(true));
}

#[test]
fn stop_is_idempotent() {
    let mut sup = Supervisor::initialize(&names(&["a"]));
    let a = "a".to_string();
    assert!(matches!(sup.stop(&a), StopOutcome::AlreadyStopped));
    assert!(matches!(sup.start(&a), StartOutcome::Launch));
    assert!(matches!(sup.stop(&a), StopOutcome::Signal));
    assert!(matches!(sup.stop(&a), StopOutcome::AlreadyStopped));
    assert_eq!(sup.is_running(&a), Some(false));
}

#[test]
fn final_flag_equals_net_effect_of_last_effective_call() {
    let mut sup = Supervisor::initialize(&names(&["a"]));
    let a = "a".to_string();
    // start, start, toggle, toggle, stop, stop, start: the last effective
    // call is the start, so the module ends running.
    sup.start(&a);
    sup.start(&a);
    assert!(matches!(sup.toggle(&a), ToggleOutcome::Signal));
    assert!(matches!(sup.toggle(&a), ToggleOutcome::Launch));
    sup.stop(&a);
    sup.stop(&a);
    sup.start(&a);
    assert_eq!(sup.is_running(&a), Some(true));
}

#[test]
fn toggle_never_starts_twice_in_a_row() {
    let mut sup = Supervisor::initialize(&names(&["a"]));
    let a = "a".to_string();
    // Two toggles dispatched back to back: whichever order they run in,
    // the second one observes the first and stops, never starts again.
    assert!(matches!(sup.toggle(&a), ToggleOutcome::Launch));
    assert!(matches!(sup.toggle(&a), ToggleOutcome::Signal));
    assert_eq!(sup.is_running(&a), Some(false));
}

#[test]
fn operations_on_an_unknown_name_change_nothing() {
    let mut sup = Supervisor::initialize(&names(&["a"]));
    let ghost_name = "b".to_string();
    assert!(matches!(sup.start(&ghost_name), StartOutcome::UnknownModule));
    assert!(matches!(sup.stop(&ghost_name), StopOutcome::UnknownModule));
    assert!(matches!(
        sup.toggle(&ghost_name),
        ToggleOutcome::UnknownModule
    ));
    assert!(!sup.record_launch_failure(&ghost_name));
    assert_eq!(sup.is_running(&ghost_name), None);
    assert!(!sup.contains(&ghost_name));
    assert_eq!(snapshot_pairs(&sup), vec![("a".to_string(), false)]);
}

#[test]
fn stop_all_attempts_every_running_module() {
    let mut sup = Supervisor::initialize(&names(&["a", "b", "c"]));
    sup.start(&"a".to_string());
    sup.start(&"c".to_string());
    let to_signal = sup.stop_all();
    assert_eq!(to_signal, vec!["a".to_string(), "c".to_string()]);
    assert_eq!(
        snapshot_pairs(&sup),
        vec![
            ("a".to_string(), false),
            ("b".to_string(), false),
            ("c".to_string(), false)
        ]
    );
}

#[test]
fn start_all_launches_every_stopped_module() {
    let mut sup = Supervisor::initialize(&names(&["a", "b", "c"]));
    sup.start(&"b".to_string());
    let to_launch = sup.start_all();
    assert_eq!(to_launch, vec!["a".to_string(), "c".to_string()]);
    assert_eq!(
        snapshot_pairs(&sup),
        vec![
            ("a".to_string(), true),
            ("b".to_string(), true),
            ("c".to_string(), true)
        ]
    );
    // Right after initialization, every configured module is launched.
    let mut sup = Supervisor::initialize(&names(&["a", "b"]));
    assert_eq!(sup.start_all(), vec!["a".to_string(), "b".to_string()]);
}

#[test]
fn stop_all_with_nothing_running_signals_nobody() {
    let mut sup = Supervisor::initialize(&names(&["a"]));
    let to_signal = sup.stop_all();
    assert!(to_signal.is_empty());
}

#[test]
fn initialize_with_no_modules_yields_an_empty_registry() {
    let sup = Supervisor::initialize(&names(&[]));
    assert_eq!(sup.module_count(), 0);
    assert!(sup.snapshot().is_empty());
}
