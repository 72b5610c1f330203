//! Tray presentation adapter.
//!
//! Builds a menu description from a registry snapshot and routes tray
//! events into supervisor operations.  The dispatch is closed: a double
//! activation and the fixed "open" entry ask for the main window, the fixed
//! "quit" entry stops every module and asks for process exit, and every
//! other menu id is treated as a module name to toggle.

use vstd::prelude::*;
use vstd::string::StringExecFns;
use crate::supervisor::{
    all_stopped, has_module, running_names, running_of, toggle_spec, ModuleRegistrySnapshot,
    Supervisor, ToggleOutcome, views_of,
};

verus! {

/// The id of the fixed menu entry that opens the main window.
pub open spec fn open_id() -> Seq<char> {
    "open"@
}

/// The id of the fixed menu entry that quits the application.
pub open spec fn quit_id() -> Seq<char> {
    "quit"@
}

/// The label of a module's menu entry: its name and its current state.
pub open spec fn module_label(p: (Seq<char>, bool)) -> Seq<char> {
    p.0 + if p.1 {
        " (Running)"@
    } else {
        " (Stopped)"@
    }
}

/// A discrete event delivered by the tray toolkit.
pub enum TrayEvent {
    /// A double activation of the tray icon itself.
    DoubleClick,
    /// An activation of the menu entry with this id.
    MenuItemClick(String),
}

/// What the host must do after an event was dispatched.  The supervisor
/// state is already updated; the directive carries only the outward action.
pub enum TrayDirective {
    /// Make the main window visible.
    ShowWindow,
    /// Signal each named process to terminate, in order, letting no failure
    /// abort the rest, and exit the process with success status afterwards.
    QuitAfterStops(Vec<String>),
    /// Launch the named module's process; report a failed launch with
    /// `Supervisor::record_launch_failure`.
    LaunchModule(String),
    /// Signal the named module's process to terminate.
    SignalModule(String),
    /// The id names no registered module; nothing to do.
    UnknownModule(String),
}

/// One menu entry: a stable id that comes back in click events, and a
/// human-readable label.
pub struct MenuItem {
    /// The id delivered back by the toolkit on activation.
    pub id: String,
    /// The text shown to the user.
    pub label: String,
}

/// One node of the menu description handed to the toolkit.
pub enum MenuNode {
    /// A clickable entry.
    Item(MenuItem),
    /// A visual separator.
    Separator,
    /// A titled submenu of clickable entries.
    Submenu {
        /// The submenu's title.
        title: String,
        /// Its entries.
        items: Vec<MenuItem>,
    },
}

/// Builds the menu description from a registry snapshot: the fixed "Open"
/// entry, a "Modules" submenu with one entry per snapshot entry labelled
/// with its individual state, and the fixed "Quit" entry.  Pure and
/// deterministic in the snapshot; an empty snapshot yields an empty
/// submenu but both fixed entries.
pub fn build_menu(snapshot: &ModuleRegistrySnapshot) -> (menu: Vec<MenuNode>)
    ensures
        menu@.len() == 5,
        menu@[0] matches MenuNode::Item(it) && it.id@ == open_id() && it.label@ == "Open"@,
        menu@[1] is Separator,
        menu@[2] matches MenuNode::Submenu { title, items } && {
            &&& title@ == "Modules"@
            &&& items@.len() == snapshot@.len()
            &&& forall|j: int|
                0 <= j < snapshot@.len() ==> (#[trigger] items@[j]).id@ == views_of(snapshot@)[j].0
                    && items@[j].label@ == module_label(views_of(snapshot@)[j])
        },
        menu@[3] is Separator,
        menu@[4] matches MenuNode::Item(it) && it.id@ == quit_id() && it.label@ == "Quit"@,
{
    let ghost sv = views_of(snapshot@);
    let mut items: Vec<MenuItem> = Vec::new();
    let mut i: usize = 0;
    while i < snapshot.len()
        invariant
            i <= snapshot@.len(),
            items@.len() == i,
            sv == views_of(snapshot@),
            forall|j: int|
                0 <= j < i ==> (#[trigger] items@[j]).id@ == sv[j].0 && items@[j].label@
                    == module_label(sv[j]),
        decreases snapshot@.len() - i,
    {
        proof {
            assert(sv[i as int] == snapshot@[i as int]@);
        }
        let suffix: &str = if snapshot[i].running {
            " (Running)"
        } else {
            " (Stopped)"
        };
        let label = snapshot[i].name.clone().concat(suffix);
        items.push(MenuItem { id: snapshot[i].name.clone(), label });
        i += 1;
    }
    let mut menu: Vec<MenuNode> = Vec::new();
    menu.push(
        MenuNode::Item(MenuItem { id: "open".to_owned(), label: "Open".to_owned() }),
    );
    menu.push(MenuNode::Separator);
    menu.push(MenuNode::Submenu { title: "Modules".to_owned(), items });
    menu.push(MenuNode::Separator);
    menu.push(
        MenuNode::Item(MenuItem { id: "quit".to_owned(), label: "Quit".to_owned() }),
    );
    menu
}

/// Dispatches one tray event.
///
/// A double activation or the fixed "open" id asks for the main window and
/// leaves the registry alone.  The fixed "quit" id stops every module and
/// directs the host to signal each previously-running one and then exit
/// with success status, only after all stop attempts completed.  Every
/// other id is treated as a module name and toggled in one critical
/// section; an unknown name changes nothing.
pub fn handle_event(sup: &mut Supervisor, event: TrayEvent) -> (d: TrayDirective)
    requires
        old(sup).wf(),
    ensures
        final(sup).wf(),
        event is DoubleClick ==> d is ShowWindow && final(sup)@ == old(sup)@,
        event matches TrayEvent::MenuItemClick(id) ==> {
            if id@ == open_id() {
                &&& d is ShowWindow
                &&& final(sup)@ == old(sup)@
            } else if id@ == quit_id() {
                &&& final(sup)@ == all_stopped(old(sup)@)
                &&& d matches TrayDirective::QuitAfterStops(names) && names@.map_values(
                    |s: String| s@,
                ) == running_names(old(sup)@)
            } else {
                &&& final(sup)@ == toggle_spec(old(sup)@, id@)
                &&& !has_module(old(sup)@, id@) ==> (d matches TrayDirective::UnknownModule(m)
                    && m@ == id@)
                &&& has_module(old(sup)@, id@) && !running_of(old(sup)@, id@) ==> (
                d matches TrayDirective::LaunchModule(m) && m@ == id@)
                &&& has_module(old(sup)@, id@) && running_of(old(sup)@, id@) ==> (
                d matches TrayDirective::SignalModule(m) && m@ == id@)
            }
        },
{
    match event {
        TrayEvent::DoubleClick => TrayDirective::ShowWindow,
        TrayEvent::MenuItemClick(id) => {
            let open_entry: String = "open".to_owned();
            let quit_entry: String = "quit".to_owned();
            if id == open_entry {
                TrayDirective::ShowWindow
            } else if id == quit_entry {
                let names = sup.stop_all();
                TrayDirective::QuitAfterStops(names)
            } else {
                match sup.toggle(&id) {
                    ToggleOutcome::UnknownModule => TrayDirective::UnknownModule(id),
                    ToggleOutcome::Launch => TrayDirective::LaunchModule(id),
                    ToggleOutcome::Signal => TrayDirective::SignalModule(id),
                }
            }
        }
    }
}

} // verus!
