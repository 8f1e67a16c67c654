//! User settings and the small pieces of state the desktop window reads.
use vstd::prelude::*;

verus! {

/// Settings and window state kept while the program runs.
pub struct AppSettings {
    pub tray_mode: bool,
    pub clear_on_close: bool,
    pub sound_enabled: bool,
    pub sound_name: String,
    pub lang: String,
    pub mobile_lang_mode: String,
    pub auto_receive: bool,
    pub auto_destroy: bool,
    /// The QR popup's address and title.
    pub popup_data: Option<(String, String)>,
    /// Paths given on the command line, not yet fetched by the window.
    pub pending_cli_paths: Vec<String>,
}

/// The sound name set by a reset to defaults.
pub open spec fn reset_sound_name() -> Seq<char> {
    "鎶曢€?"@
}

impl AppSettings {
    /// Settings at start-up.
    pub fn new() -> (r: Self)
        ensures
            !r.tray_mode,
            !r.clear_on_close,
            r.sound_enabled,
            r.sound_name@ == "u6295u9012"@,
            r.lang@ == "zh-CN"@,
            r.mobile_lang_mode@ == "server"@,
            r.auto_receive,
            !r.auto_destroy,
            r.popup_data is None,
            r.pending_cli_paths@.len() == 0,
    {
        AppSettings {
            tray_mode: false,
            clear_on_close: false,
            sound_enabled: true,
            sound_name: String::from_str("u6295u9012"),
            lang: String::from_str("zh-CN"),
            mobile_lang_mode: String::from_str("server"),
            auto_receive: true,
            auto_destroy: false,
            popup_data: None,
            pending_cli_paths: Vec::new(),
        }
    }

    /// Back to defaults: tray mode and clear-on-close off, sound on with the
    /// default sound; language settings are kept.
    pub fn reset_defaults(&mut self)
        ensures
            final(self).sound_name@ == reset_sound_name(),
            *final(self) == (AppSettings {
                tray_mode: false,
                clear_on_close: false,
                sound_enabled: true,
                sound_name: final(self).sound_name,
                ..*old(self)
            }),
    {
        self.tray_mode = false;
        self.clear_on_close = false;
        self.sound_enabled = true;
        self.sound_name = String::from_str("鎶曢€?");
    }

    pub fn set_sound_settings(&mut self, enabled: bool, name: String)
        ensures
            *final(self) == (AppSettings { sound_enabled: enabled, sound_name: name, ..*old(self) }),
    {
        self.sound_enabled = enabled;
        self.sound_name = name;
    }

    /// The QR popup's address and title, both empty when none was stored.
    pub fn get_popup_data(&self) -> (r: (String, String))
        ensures
            match self.popup_data {
                Some((u, n)) => r.0@ == u@ && r.1@ == n@,
                None => r.0@.len() == 0 && r.1@.len() == 0,
            },
    {
        match &self.popup_data {
            Some((u, n)) => (u.clone(), n.clone()),
            None => (String::new(), String::new()),
        }
    }

    pub fn store_popup_data(&mut self, url: String, name: String)
        ensures
            *final(self) == (AppSettings { popup_data: Some((url, name)), ..*old(self) }),
    {
        self.popup_data = Some((url, name));
    }

    /// Hands out the pending command-line paths and forgets them.
    pub fn get_cli_paths(&mut self) -> (r: Vec<String>)
        ensures
            r@ == old(self).pending_cli_paths@,
            final(self).pending_cli_paths@.len() == 0,
            final(self).tray_mode == old(self).tray_mode,
            final(self).clear_on_close == old(self).clear_on_close,
            final(self).sound_enabled == old(self).sound_enabled,
            final(self).sound_name == old(self).sound_name,
            final(self).lang == old(self).lang,
            final(self).mobile_lang_mode == old(self).mobile_lang_mode,
            final(self).auto_receive == old(self).auto_receive,
            final(self).auto_destroy == old(self).auto_destroy,
            final(self).popup_data == old(self).popup_data,
    {
        let mut taken = Vec::new();
        std::mem::swap(&mut taken, &mut self.pending_cli_paths);
        taken
    }

    /// The text stored in `auto_destroy.cfg`: `1` or `0`.
    pub fn auto_destroy_flag(&self) -> (r: String)
        ensures
            r@ == (if self.auto_destroy { "1"@ } else { "0"@ }),
    {
        if self.auto_destroy { String::from_str("1") } else { String::from_str("0") }
    }
}

/// What `close_window` does with the window.
#[derive(Debug, Clone, Copy, PartialEq, Eq)]
pub enum CloseAction {
    Hide,
    Close,
}

/// In tray mode closing hides the window; otherwise it closes it.
pub fn close_action(tray_mode: bool) -> (r: CloseAction)
    ensures
        r == (if tray_mode { CloseAction::Hide } else { CloseAction::Close }),
{
    if tray_mode { CloseAction::Hide } else { CloseAction::Close }
}

/// `1` or `0`, as the autostart and auto-destroy files hold them.
pub fn flag_text(enable: bool) -> (r: String)
    ensures
        r@ == (if enable { "1"@ } else { "0"@ }),
{
    if enable { String::from_str("1") } else { String::from_str("0") }
}

/// A flag file holds `true` when its text, trimmed, is `1`.
pub fn flag_set(content: &str) -> (r: bool)
    ensures
        r == (crate::text::trimmed(content@) == seq!['1']),
{
    let t = crate::text::trim(&crate::text::chars_of(content));
    let one = vec!['1'];
    assert(one@ =~= seq!['1']);
    crate::text::same_chars(&t, &one)
}

}
