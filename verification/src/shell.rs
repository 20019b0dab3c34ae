//! Decisions around the Windows shell: what a registry status means, which
//! taskbar theme is in use, and when the tray icon is created or redrawn.
use vstd::prelude::*;

verus! {

/// The status a registry call returns on success.
pub const STATUS_SUCCESS: u32 = 0;

/// The status a registry call returns when the value is not there.
pub const STATUS_FILE_NOT_FOUND: u32 = 2;

/// What a registry write that returned `status` means: success, or the failing
/// status. Deleting a value that is already missing counts as success.
pub fn registry_outcome(status: u32, deleting: bool) -> (r: Result<(), u32>)
    ensures
        (status == STATUS_SUCCESS || (deleting && status == STATUS_FILE_NOT_FOUND)) ==> r is Ok,
        !(status == STATUS_SUCCESS || (deleting && status == STATUS_FILE_NOT_FOUND)) ==> r
            == Err::<(), u32>(status),
{
    if status == STATUS_SUCCESS || (deleting && status == STATUS_FILE_NOT_FOUND) {
        Ok(())
    } else {
        Err(status)
    }
}

/// Whether the taskbar is light, from the `SystemUsesLightTheme` value when it
/// could be read: a missing value means dark.
pub fn light_taskbar(value: Option<u32>) -> (r: bool)
    ensures
        r == (value matches Some(v) && v != 0),
{
    match value {
        Some(v) => v != 0,
        None => false,
    }
}

/// Whether the tray uses the small icon set, for a small-icon width of
/// `width` pixels.
pub fn small_tray_icon(width: i32) -> (r: bool)
    ensures
        r == (width <= 16),
{
    width <= 16
}

/// The tray icon's life: it is created once the taskbar exists (a tray that is
/// registered before the taskbar is lost), and redrawn when the taskbar theme
/// changes.
#[derive(Debug)]
pub struct TrayKeeper {
    /// Whether the tray icon exists.
    pub created: bool,
    /// Whether the tray icon is drawn for a light taskbar.
    pub light: bool,
}

impl TrayKeeper {
    /// No tray icon yet.
    pub fn new() -> (r: TrayKeeper)
        ensures
            !r.created,
    {
        TrayKeeper { created: false, light: false }
    }

    /// On the retry timer: whether to try creating the tray icon now, which is
    /// when there is none yet and the taskbar exists.
    pub fn should_create(&self, taskbar_exists: bool) -> (r: bool)
        ensures
            r == (!self.created && taskbar_exists),
    {
        !self.created && taskbar_exists
    }

    /// The tray icon was created, drawn for a light taskbar when `light`; the
    /// retry timer stops.
    pub fn tray_created(&mut self, light: bool)
        ensures
            final(self).created,
            final(self).light == light,
    {
        self.created = true;
        self.light = light;
    }

    /// On the theme timer, with the taskbar now light when `light`: whether the
    /// tray icon has to be redrawn, which is when it exists and was drawn for
    /// the other theme. The icon is then drawn for `light`.
    pub fn theme_checked(&mut self, light: bool) -> (r: bool)
        ensures
            r == (old(self).created && old(self).light != light),
            final(self).created == old(self).created,
            final(self).light == (if old(self).created { light } else { old(self).light }),
    {
        if self.created && self.light != light {
            self.light = light;
            true
        } else {
            false
        }
    }
}

} // verus!
