//! The tray menu: its labels in the user's language, the launch-at-login
//! check mark, and what choosing an item does.
use vstd::prelude::*;

use crate::text::{chars_of, same_text};

verus! {

/// What the tray menu shows.
pub struct MenuModel {
    /// Label of the launch-at-login check item.
    pub autostart_label: &'static str,
    /// Whether the launch-at-login item is checked.
    pub autostart_checked: bool,
    /// Label of the quit item.
    pub quit_label: &'static str,
}

/// The tray menu for the given language; the check mark shows the current
/// launch-at-login setting, and a setting that could not be read shows as off.
pub fn menu_model(chinese: bool, autostart_enabled: Option<bool>) -> (m: MenuModel)
    ensures
        m.autostart_label@ == (if chinese {
            "开机启动"@
        } else {
            "Launch at Login"@
        }),
        m.quit_label@ == (if chinese {
            "退出"@
        } else {
            "Quit"@
        }),
        m.autostart_checked == (autostart_enabled == Some(true)),
{
    let checked = match autostart_enabled {
        Some(b) => b,
        None => false,
    };
    MenuModel {
        autostart_label: if chinese {
            "开机启动"
        } else {
            "Launch at Login"
        },
        autostart_checked: checked,
        quit_label: if chinese {
            "退出"
        } else {
            "Quit"
        },
    }
}

/// What a menu event asks for.
#[derive(Clone, Copy, PartialEq, Eq, Debug)]
pub enum MenuAction {
    /// Not an event this menu handles itself.
    Nothing,
    EnableAutostart,
    DisableAutostart,
}

/// The launch-at-login item turns the setting off where it is on, and on
/// otherwise (also where it could not be read); other items do nothing here.
pub open spec fn menu_action_for(event_id: Seq<char>, autostart_enabled: Option<bool>) -> MenuAction {
    if event_id == "autostart"@ {
        if autostart_enabled == Some(true) {
            MenuAction::DisableAutostart
        } else {
            MenuAction::EnableAutostart
        }
    } else {
        MenuAction::Nothing
    }
}

/// The launch-at-login setting after carrying out `action`.
pub open spec fn autostart_after(action: MenuAction, enabled: bool) -> bool {
    match action {
        MenuAction::Nothing => enabled,
        MenuAction::EnableAutostart => true,
        MenuAction::DisableAutostart => false,
    }
}

/// What choosing the menu item `event_id` asks for, given the current
/// launch-at-login setting (`None` where it could not be read).
pub fn menu_action(event_id: &str, autostart_enabled: Option<bool>) -> (a: MenuAction)
    ensures
        a == menu_action_for(event_id@, autostart_enabled),
{
    let id = chars_of(event_id);
    let autostart = chars_of("autostart");
    if same_text(&id, &autostart) {
        match autostart_enabled {
            Some(true) => MenuAction::DisableAutostart,
            _ => MenuAction::EnableAutostart,
        }
    } else {
        MenuAction::Nothing
    }
}

/// Choosing the launch-at-login item flips a setting that could be read.
pub proof fn autostart_item_flips_setting(enabled: bool)
    ensures
        autostart_after(menu_action_for("autostart"@, Some(enabled)), enabled) == !enabled,
{
}

} // verus!
