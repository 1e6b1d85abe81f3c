//! The menu of the tray icon: what it shows of the history and of the state
//! of the synchronization.
use vstd::prelude::*;
use vstd::string::*;
use crate::gui::history::{ActionEntry, ActionHistory};

verus! {

/// The number of entries of the history that the menu shows.
pub const RECENT_ENTRIES_COUNT: usize = 10;

/// What choosing an entry of the menu does.
#[derive(Debug, Clone, Copy, PartialEq, Eq, Structural)]
pub enum MenuAction {
    /// Shows the main window.
    OpenPanel,
    /// Opens the mount point in the file manager.
    OpenFiles,
    /// Ends the application.
    Quit,
}

/// An entry of the menu.
#[derive(Debug)]
pub enum MenuEntry {
    /// A line that only informs.
    Info(String),
    /// A line between groups.
    Separator,
    /// A line that does something.
    Action(MenuAction, String),
    /// The switch that pauses the synchronization.
    PauseToggle { label: String, checked: bool },
}

/// What an entry of the menu says.
pub enum MenuModel {
    Info(Seq<char>),
    Separator,
    Action(MenuAction, Seq<char>),
    PauseToggle { label: Seq<char>, checked: bool },
}

impl View for MenuEntry {
    type V = MenuModel;

    open spec fn view(&self) -> MenuModel {
        match *self {
            MenuEntry::Info(s) => MenuModel::Info(s@),
            MenuEntry::Separator => MenuModel::Separator,
            MenuEntry::Action(a, s) => MenuModel::Action(a, s@),
            MenuEntry::PauseToggle { label, checked } => MenuModel::PauseToggle {
                label: label@,
                checked,
            },
        }
    }
}

/// The view of a menu.
pub open spec fn menu_view(v: Seq<MenuEntry>) -> Seq<MenuModel> {
    Seq::new(v.len(), |i: int| v[i]@)
}

/// The lines that the menu shows of the history at time `now`: the newest
/// entries, or one line that says that there are none.
pub open spec fn history_lines(history: Seq<ActionEntry>, now: u64) -> Seq<MenuModel> {
    if history.len() == 0 {
        seq![MenuModel::Info("Sin actividad reciente"@)]
    } else {
        Seq::new(
            if history.len() < RECENT_ENTRIES_COUNT {
                history.len()
            } else {
                RECENT_ENTRIES_COUNT as nat
            },
            |i: int| MenuModel::Info(history[i].menu_line(now)),
        )
    }
}

/// The menu: the lines of the history, the entries that open the main
/// window and the file manager, the switch that pauses the synchronization,
/// and the entry that ends the application.
pub open spec fn menu_spec(history: Seq<ActionEntry>, paused: bool, now: u64) -> Seq<MenuModel> {
    history_lines(history, now) + seq![
        MenuModel::Separator,
        MenuModel::Action(MenuAction::OpenPanel, "Abrir Panel"@),
        MenuModel::Action(MenuAction::OpenFiles, "Abrir en Archivos"@),
        MenuModel::Separator,
        MenuModel::PauseToggle { label: "Pausar sincronización"@, checked: paused },
        MenuModel::Separator,
        MenuModel::Action(MenuAction::Quit, "Salir"@),
    ]
}

/// The name of the icon: one for a synchronization that runs, one for a
/// synchronization that is paused.
pub fn icon_name(paused: bool) -> (name: &'static str)
    ensures
        name@ == (if paused {
            "folder-cloud-offline"@
        } else {
            "folder-cloud"@
        }),
{
    if paused {
        "folder-cloud-offline"
    } else {
        "folder-cloud"
    }
}

/// What the tool tip says of the synchronization.
pub fn tool_tip(paused: bool) -> (text: &'static str)
    ensures
        text@ == (if paused {
            "Sincronización pausada"@
        } else {
            "Sincronizando"@
        }),
{
    if paused {
        "Sincronización pausada"
    } else {
        "Sincronizando"
    }
}

/// The menu of the tray icon at time `now`.
pub fn menu(history: &ActionHistory, paused: bool, now: u64) -> (items: Vec<MenuEntry>)
    ensures
        menu_view(items@) == menu_spec(history@, paused, now),
{
    let mut items: Vec<MenuEntry> = Vec::new();
    let recent = history.recent(RECENT_ENTRIES_COUNT);
    let ghost lines = history_lines(history@, now);
    if recent.len() == 0 {
        items.push(MenuEntry::Info(String::from_str("Sin actividad reciente")));
        proof {
            assert(menu_view(items@) =~= lines);
        }
    } else {
        let mut i: usize = 0;
        while i < recent.len()
            invariant
                i <= recent.len(),
                items@.len() == i,
                recent@.len() == lines.len(),
                forall|k: int| 0 <= k < recent@.len() ==> recent@[k] == history@[k],
                lines == history_lines(history@, now),
                history@.len() > 0,
                forall|k: int| 0 <= k < i ==> (#[trigger] items@[k])@ == lines[k],
            decreases recent.len() - i,
        {
            let line = recent[i].format_for_menu(now);
            items.push(MenuEntry::Info(line));
            i += 1;
        }
        proof {
            assert(menu_view(items@) =~= lines);
        }
    }
    let ghost shown = items@;
    items.push(MenuEntry::Separator);
    items.push(MenuEntry::Action(MenuAction::OpenPanel, String::from_str("Abrir Panel")));
    items.push(MenuEntry::Action(MenuAction::OpenFiles, String::from_str("Abrir en Archivos")));
    items.push(MenuEntry::Separator);
    items.push(
        MenuEntry::PauseToggle { label: String::from_str("Pausar sincronización"), checked: paused },
    );
    items.push(MenuEntry::Separator);
    items.push(MenuEntry::Action(MenuAction::Quit, String::from_str("Salir")));
    proof {
        let want = menu_spec(history@, paused, now);
        assert(menu_view(items@).len() == want.len());
        assert forall|k: int| 0 <= k < want.len() implies menu_view(items@)[k] == want[k] by {
            if k < shown.len() {
                assert(items@[k] == shown[k]);
                assert(menu_view(shown)[k] == lines[k]);
            }
        }
        assert(menu_view(items@) =~= want);
    }
    items
}

} // verus!
