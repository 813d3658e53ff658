//! The navigation bar: the selected tab and the menus that are open.

use vstd::prelude::*;

verus! {

/// A tab of the navigation bar.
#[derive(Debug, Clone, Copy, PartialEq, Eq, Structural)]
pub enum NavigationTab {
    Notes,
    Tags,
    Search,
    Trash,
    Account,
    Settings,
}

impl NavigationTab {
    /// The symbol shown on the tab's button.
    pub fn icon(&self) -> (r: &'static str)
        ensures
            r@ == (match *self {
                NavigationTab::Notes => "📝"@,
                NavigationTab::Tags => "🏷️"@,
                NavigationTab::Search => "🔍"@,
                NavigationTab::Trash => "🗑️"@,
                NavigationTab::Account => "👤"@,
                NavigationTab::Settings => "⚙️"@,
            }),
    {
        match self {
            NavigationTab::Notes => "📝",
            NavigationTab::Tags => "🏷️",
            NavigationTab::Search => "🔍",
            NavigationTab::Trash => "🗑️",
            NavigationTab::Account => "👤",
            NavigationTab::Settings => "⚙️",
        }
    }

    /// The key of the text shown when the pointer rests on the tab.
    pub fn tooltip(&self) -> (r: &'static str)
        ensures
            r@ == (match *self {
                NavigationTab::Notes => "notes"@,
                NavigationTab::Tags => "tags"@,
                NavigationTab::Search => "search"@,
                NavigationTab::Trash => "trash"@,
                NavigationTab::Account => "account"@,
                NavigationTab::Settings => "settings"@,
            }),
    {
        match self {
            NavigationTab::Notes => "notes",
            NavigationTab::Tags => "tags",
            NavigationTab::Search => "search",
            NavigationTab::Trash => "trash",
            NavigationTab::Account => "account",
            NavigationTab::Settings => "settings",
        }
    }
}

/// A menu that opens beside the navigation bar.
#[derive(Debug, Clone, Copy, PartialEq, Eq, Structural)]
pub enum ShowMenu {
    Account,
    Settings,
}

/// An entry of a menu: a submenu, or the line that separates two groups.
#[derive(Debug, Clone, Copy, PartialEq, Eq, Structural)]
pub enum ShowSubmenu {
    Theme,
    Language,
    Export,
    Import,
    /// The separator.
    Separator,
}

impl ShowSubmenu {
    /// The title of the submenu; the separator has none.
    pub fn title(&self) -> (r: Option<&'static str>)
        ensures
            match *self {
                ShowSubmenu::Theme => r.is_some() && r.unwrap()@ == "Theme"@,
                ShowSubmenu::Language => r.is_some() && r.unwrap()@ == "Language"@,
                ShowSubmenu::Export => r.is_some() && r.unwrap()@ == "Export"@,
                ShowSubmenu::Import => r.is_some() && r.unwrap()@ == "Import"@,
                ShowSubmenu::Separator => r.is_none(),
            },
    {
        match self {
            ShowSubmenu::Theme => Some("Theme"),
            ShowSubmenu::Language => Some("Language"),
            ShowSubmenu::Export => Some("Export"),
            ShowSubmenu::Import => Some("Import"),
            ShowSubmenu::Separator => None,
        }
    }
}

impl ShowMenu {
    /// The entries of the menu, from top to bottom.
    pub fn submenus(&self) -> (r: Vec<ShowSubmenu>)
        ensures
            r@ == (match *self {
                ShowMenu::Account => Seq::<ShowSubmenu>::empty(),
                ShowMenu::Settings => seq![
                    ShowSubmenu::Theme,
                    ShowSubmenu::Language,
                    ShowSubmenu::Separator,
                    ShowSubmenu::Export,
                    ShowSubmenu::Import,
                ],
            }),
    {
        match self {
            ShowMenu::Account => Vec::new(),
            ShowMenu::Settings => {
                let mut entries: Vec<ShowSubmenu> = Vec::new();
                entries.push(ShowSubmenu::Theme);
                entries.push(ShowSubmenu::Language);
                entries.push(ShowSubmenu::Separator);
                entries.push(ShowSubmenu::Export);
                entries.push(ShowSubmenu::Import);
                assert(entries@ =~= seq![
                    ShowSubmenu::Theme,
                    ShowSubmenu::Language,
                    ShowSubmenu::Separator,
                    ShowSubmenu::Export,
                    ShowSubmenu::Import,
                ]);
                entries
            },
        }
    }
}

/// The navigation bar: the selected tab and the menu and submenu that are
/// open. A submenu is open only while a menu is.
#[derive(Debug)]
pub struct NavigationBar {
    selected: NavigationTab,
    show_menu: Option<ShowMenu>,
    show_submenu: Option<ShowSubmenu>,
}

impl NavigationBar {
    /// The selected tab, as a mathematical value.
    pub closed spec fn selected_tab(&self) -> NavigationTab {
        self.selected
    }

    /// The open menu, as a mathematical value.
    pub closed spec fn menu(&self) -> Option<ShowMenu> {
        self.show_menu
    }

    /// The open submenu, as a mathematical value.
    pub closed spec fn submenu(&self) -> Option<ShowSubmenu> {
        self.show_submenu
    }

    /// A bar with the notes tab selected and no menu open.
    pub fn new() -> (r: NavigationBar)
        ensures
            r.selected_tab() == NavigationTab::Notes,
            r.menu() is None,
            r.submenu() is None,
    {
        NavigationBar { selected: NavigationTab::Notes, show_menu: None, show_submenu: None }
    }

    /// The selected tab.
    pub fn selected(&self) -> (r: NavigationTab)
        ensures
            r == self.selected_tab(),
    {
        self.selected
    }

    /// The open menu.
    pub fn open_menu(&self) -> (r: Option<ShowMenu>)
        ensures
            r == self.menu(),
    {
        self.show_menu
    }

    /// The open submenu.
    pub fn open_submenu(&self) -> (r: Option<ShowSubmenu>)
        ensures
            r == self.submenu(),
    {
        self.show_submenu
    }

    /// Selects `tab`.
    pub fn select(&mut self, tab: NavigationTab)
        ensures
            final(self).selected_tab() == tab,
            final(self).menu() == old(self).menu(),
            final(self).submenu() == old(self).submenu(),
    {
        self.selected = tab;
    }

    /// Reacts to a click on the button of `menu`: with no menu open, `menu`
    /// opens; with a menu open, be it `menu` or the other one, no menu is
    /// open afterwards.
    pub fn toggle_menu(&mut self, menu: ShowMenu)
        ensures
            final(self).menu() == (if old(self).menu() is None {
                Some(menu)
            } else {
                None
            }),
            final(self).selected_tab() == old(self).selected_tab(),
            final(self).submenu() == old(self).submenu(),
    {
        self.show_menu = match self.show_menu {
            None => Some(menu),
            Some(_) => None,
        };
    }

    /// Reacts to a click on the entry `submenu` of the open menu: the
    /// submenu opens, or closes if it was the open one.
    pub fn toggle_submenu(&mut self, submenu: ShowSubmenu)
        ensures
            final(self).submenu() == (if old(self).submenu() == Some(submenu) {
                None
            } else {
                Some(submenu)
            }),
            final(self).selected_tab() == old(self).selected_tab(),
            final(self).menu() == old(self).menu(),
    {
        self.show_submenu = match self.show_submenu {
            Some(open) => if open == submenu {
                None
            } else {
                Some(submenu)
            },
            None => Some(submenu),
        };
    }

    /// Closes the menu and the submenu.
    pub fn close_menus(&mut self)
        ensures
            final(self).menu() is None,
            final(self).submenu() is None,
            final(self).selected_tab() == old(self).selected_tab(),
    {
        self.show_menu = None;
        self.show_submenu = None;
    }
}

} // verus!
