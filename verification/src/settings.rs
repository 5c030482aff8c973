//! The pages of the settings view.
use vstd::prelude::*;

verus! {

/// The pages of the settings view.
#[derive(Debug, PartialEq, Eq, Structural, Clone, Copy)]
pub enum SettingsMenu {
    Radio,
    Audio,
    Library,
    Ui,
}

/// The heading of a settings page.
pub open spec fn settings_label(m: SettingsMenu) -> Seq<char> {
    match m {
        SettingsMenu::Radio => seq!['R', 'a', 'd', 'i', 'o', ' ', 'S', 'e', 't', 't', 'i', 'n', 'g', 's'],
        SettingsMenu::Audio => seq!['A', 'u', 'd', 'i', 'o', ' ', 'S', 'e', 't', 't', 'i', 'n', 'g', 's'],
        SettingsMenu::Library => seq!['T', 'r', 'a', 'c', 'k', ' ', 'L', 'i', 'b', 'r', 'a', 'r', 'y'],
        SettingsMenu::Ui => seq!['U', 'i', ' ', 'S', 'e', 't', 't', 'i', 'n', 'g', 's'],
    }
}

impl SettingsMenu {
    /// The heading of this settings page.
    pub fn label(&self) -> (r: String)
        ensures
            r@ == settings_label(*self),
    {
        match self {
            SettingsMenu::Radio => {
                let s = String::from_str("Radio Settings");
                proof {
                    reveal_strlit("Radio Settings");
                    assert(s@ =~= settings_label(*self));
                }
                s
            },
            SettingsMenu::Audio => {
                let s = String::from_str("Audio Settings");
                proof {
                    reveal_strlit("Audio Settings");
                    assert(s@ =~= settings_label(*self));
                }
                s
            },
            SettingsMenu::Library => {
                let s = String::from_str("Track Library");
                proof {
                    reveal_strlit("Track Library");
                    assert(s@ =~= settings_label(*self));
                }
                s
            },
            SettingsMenu::Ui => {
                let s = String::from_str("Ui Settings");
                proof {
                    reveal_strlit("Ui Settings");
                    assert(s@ =~= settings_label(*self));
                }
                s
            },
        }
    }
}

/// The settings view: the page shown, and whether the list of pages is
/// unfolded.
#[derive(Debug, PartialEq, Eq, Structural, Clone, Copy)]
pub struct SettingsView {
    pub menu: SettingsMenu,
    pub list_open: bool,
}

impl SettingsView {
    /// The audio page, with the list of pages folded.
    pub fn new() -> (r: Self)
        ensures
            r.menu == SettingsMenu::Audio,
            !r.list_open,
    {
        SettingsView { menu: SettingsMenu::Audio, list_open: false }
    }

    /// Unfolds or folds the list of pages.
    pub fn toggle_list(&mut self)
        ensures
            final(self).list_open == !old(self).list_open,
            final(self).menu == old(self).menu,
    {
        self.list_open = !self.list_open;
    }

    /// Shows page `menu` and folds the list of pages.
    pub fn set_menu(&mut self, menu: SettingsMenu)
        ensures
            final(self).menu == menu,
            !final(self).list_open,
    {
        self.menu = menu;
        self.list_open = false;
    }
}

} // verus!
