//! Keys taken away from a webview before WebView2 acts on them.
use vstd::prelude::*;

verus! {

/// A key-down, already stripped of auto-repeat.
#[derive(Debug, Clone, Copy, PartialEq, Eq)]
pub struct Key {
    /// Win32 virtual-key code. Letters arrive as their uppercase ASCII value.
    pub vk: u32,
    pub ctrl: bool,
}

/// What a tab shortcut asks for.
#[derive(Debug, Clone, Copy, PartialEq, Eq)]
pub enum Shortcut {
    /// Ctrl+W: close a tab.
    CloseTab,
    /// Ctrl+T: open a tab.
    NewTab,
}

/// The tab shortcut a key is, if any: Ctrl+W or Ctrl+T. The key is then
/// consumed so WebView2 never sees it.
pub fn tab_shortcut(key: Key) -> (r: Option<Shortcut>)
    ensures
        r == (if !key.ctrl {
            None
        } else if key.vk == 87 {
            Some(Shortcut::CloseTab)
        } else if key.vk == 84 {
            Some(Shortcut::NewTab)
        } else {
            None
        }),
{
    if !key.ctrl {
        return None;
    }
    if key.vk == 87 {
        Some(Shortcut::CloseTab)
    } else if key.vk == 84 {
        Some(Shortcut::NewTab)
    } else {
        None
    }
}

/// The refresh keys the main window swallows: F5 and Ctrl+R. A reload would
/// wipe the accounts, which live only in the page.
pub fn is_refresh_key(key: Key) -> (r: bool)
    ensures
        r == (key.vk == 0x74 || (key.ctrl && key.vk == 82)),
{
    key.vk == 0x74 || (key.ctrl && key.vk == 82)
}

} // verus!
