//! Which page the main window shows and where it goes next, and the tray menu. The dsh app
//! is loaded top-level; the shell page and the floating bar drive these transitions.

use vstd::prelude::*;
use vstd::string::StringExecFns;
use crate::i18n::{pick, tr};
use crate::text::{chars_of, push_char, str_equal};

verus! {

/// `s` holds a `?` (a query string has begun).
pub open spec fn has_query(s: Seq<char>) -> bool {
    exists|i: int| 0 <= i < s.len() && s[i] == '?'
}

/// `base` with `query` appended: after `&` when `base` already has a query, after `?`
/// otherwise.
pub open spec fn with_query(base: Seq<char>, query: Seq<char>) -> Seq<char> {
    base.push(if has_query(base) { '&' } else { '?' }) + query
}

/// `base` with `query` appended as a query parameter.
pub fn append_query(base: &str, query: &str) -> (r: String)
    ensures
        r@ == with_query(base@, query@),
{
    let v = chars_of(base);
    let mut found = false;
    let mut i: usize = 0;
    while i < v.len()
        invariant
            i <= v.len(),
            v@ == base@,
            found == exists|j: int| 0 <= j < i && v@[j] == '?',
        decreases v.len() - i,
    {
        if v[i] == '?' {
            found = true;
        }
        i += 1;
    }
    let mut r = String::from_str(base);
    push_char(&mut r, if found { '&' } else { '?' });
    r.append(query);
    r
}

/// The main window's navigation state.
pub struct NavState {
    /// The URL of the shell page, as the frontend reported it (dev URL or the
    /// custom-protocol origin).
    shell_url: Option<String>,
    /// The user deliberately stays on the shell (CLI or plugins tab): do not pull the window
    /// into the app when the server becomes ready.
    pinned: bool,
    /// The main window currently shows the dsh app rather than the shell.
    app_shown: bool,
}

impl NavState {
    /// The shell page's URL, once reported.
    pub closed spec fn shell(&self) -> Option<Seq<char>> {
        match self.shell_url {
            Some(u) => Some(u@),
            None => None,
        }
    }

    /// Whether the user stays on the shell on purpose.
    pub closed spec fn is_pinned(&self) -> bool {
        self.pinned
    }

    /// Whether the main window shows the dsh app.
    pub closed spec fn shows_app(&self) -> bool {
        self.app_shown
    }

    /// No shell URL yet, not pinned, showing the shell.
    pub fn new() -> (r: Self)
        ensures
            r.shell() is None,
            !r.is_pinned(),
            !r.shows_app(),
    {
        NavState { shell_url: None, pinned: false, app_shown: false }
    }

    /// Records the shell page's URL. The first report wins: later ones are ignored.
    pub fn register_shell_url(&mut self, url: String)
        ensures
            final(self).shell() == (if old(self).shell() is None {
                Some(url@)
            } else {
                old(self).shell()
            }),
            final(self).is_pinned() == old(self).is_pinned(),
            final(self).shows_app() == old(self).shows_app(),
    {
        if self.shell_url.is_none() {
            self.shell_url = Some(url);
        }
    }

    /// Sets whether the user stays on the shell on purpose.
    pub fn set_pinned(&mut self, pinned: bool)
        ensures
            final(self).is_pinned() == pinned,
            final(self).shell() == old(self).shell(),
            final(self).shows_app() == old(self).shows_app(),
    {
        self.pinned = pinned;
    }

    /// Whether the main window shows the dsh app.
    pub fn app_shown(&self) -> (b: bool)
        ensures
            b == self.shows_app(),
    {
        self.app_shown
    }

    /// The main window navigated successfully; `as_app` tells whether it now shows the dsh
    /// app or the shell.
    pub fn navigated(&mut self, as_app: bool)
        ensures
            final(self).shows_app() == as_app,
            final(self).shell() == old(self).shell(),
            final(self).is_pinned() == old(self).is_pinned(),
    {
        self.app_shown = as_app;
    }

    /// The shell page's URL with a query (such as `tab=cli`), so that the reloaded page opens
    /// that tab instead of bouncing back into the app; none before the shell reported its URL.
    pub fn shell_nav_url(&self, query: &str) -> (r: Option<String>)
        ensures
            r matches Some(u) ==> self.shell() matches Some(b) && u@ == with_query(b, query@),
            r is None <==> self.shell() is None,
    {
        match &self.shell_url {
            Some(base) => Some(append_query(base.as_str(), query)),
            None => None,
        }
    }

    /// Where to send the main window once the server is ready: into the app at `url`, unless
    /// the user stays on the shell on purpose.
    pub fn open_app_when_ready(&self, url: &str) -> (r: Option<String>)
        ensures
            r matches Some(u) ==> u@ == url@,
            r is Some <==> !self.is_pinned(),
    {
        if self.pinned {
            None
        } else {
            Some(String::from_str(url))
        }
    }

    /// Where to send the main window after the server stopped or died while the app page was
    /// on screen: back to the shell, with `ret=1` so that the reloaded shell does not start a
    /// server again at once (which would hide the exit logs).
    pub fn return_to_shell(&self) -> (r: Option<String>)
        ensures
            r matches Some(u) ==> self.shows_app() && (self.shell() matches Some(b) && u@
                == with_query(b, "ret=1"@)),
            r is None <==> !self.shows_app() || self.shell() is None,
    {
        if self.app_shown {
            self.shell_nav_url("ret=1")
        } else {
            None
        }
    }

    /// Opens a tab of the shell page from the tray: the user now stays on the shell on
    /// purpose. Nothing happens before the shell reported its URL.
    pub fn show_shell_tab(&mut self, query: &str) -> (r: Option<String>)
        ensures
            r matches Some(u) ==> old(self).shell() matches Some(b) && u@ == with_query(b, query@),
            r is None <==> old(self).shell() is None,
            final(self).is_pinned() == (old(self).is_pinned() || r is Some),
            final(self).shell() == old(self).shell(),
            final(self).shows_app() == old(self).shows_app(),
    {
        let r = self.shell_nav_url(query);
        if r.is_some() {
            self.pinned = true;
        }
        r
    }
}

/// The entries of the tray menu.
#[derive(PartialEq, Eq, Structural, Clone, Copy, Debug)]
pub enum TrayItem {
    ShowApp,
    ShowCli,
    ShowPlugins,
    ShowBar,
    Restart,
    Stop,
    Quit,
}

/// The menu id of a tray entry.
pub open spec fn tray_id(item: TrayItem) -> Seq<char> {
    match item {
        TrayItem::ShowApp => "show-app"@,
        TrayItem::ShowCli => "show-cli"@,
        TrayItem::ShowPlugins => "show-plugins"@,
        TrayItem::ShowBar => "show-bar"@,
        TrayItem::Restart => "restart"@,
        TrayItem::Stop => "stop"@,
        TrayItem::Quit => "quit"@,
    }
}

/// The label of a tray entry in each language.
pub open spec fn tray_label_text(item: TrayItem, is_zh: bool) -> Seq<char> {
    match item {
        TrayItem::ShowApp => pick(is_zh, "Open DSH App"@, "打开 DSH 应用"@),
        TrayItem::ShowCli => pick(is_zh, "CLI Terminal"@, "CLI 终端"@),
        TrayItem::ShowPlugins => pick(is_zh, "Plugins"@, "插件管理"@),
        TrayItem::ShowBar => pick(is_zh, "Show Toolbar"@, "显示工具栏"@),
        TrayItem::Restart => pick(is_zh, "Restart Service"@, "重启服务"@),
        TrayItem::Stop => pick(is_zh, "Stop Service"@, "停止服务"@),
        TrayItem::Quit => pick(is_zh, "Quit"@, "退出"@),
    }
}

impl TrayItem {
    /// The menu id of this entry.
    pub fn id(&self) -> (r: String)
        ensures
            r@ == tray_id(*self),
    {
        match self {
            TrayItem::ShowApp => String::from_str("show-app"),
            TrayItem::ShowCli => String::from_str("show-cli"),
            TrayItem::ShowPlugins => String::from_str("show-plugins"),
            TrayItem::ShowBar => String::from_str("show-bar"),
            TrayItem::Restart => String::from_str("restart"),
            TrayItem::Stop => String::from_str("stop"),
            TrayItem::Quit => String::from_str("quit"),
        }
    }

    /// The label of this entry in the UI language.
    pub fn label(&self, is_zh: bool) -> (r: String)
        ensures
            r@ == tray_label_text(*self, is_zh),
    {
        match self {
            TrayItem::ShowApp => tr(is_zh, "Open DSH App", "打开 DSH 应用"),
            TrayItem::ShowCli => tr(is_zh, "CLI Terminal", "CLI 终端"),
            TrayItem::ShowPlugins => tr(is_zh, "Plugins", "插件管理"),
            TrayItem::ShowBar => tr(is_zh, "Show Toolbar", "显示工具栏"),
            TrayItem::Restart => tr(is_zh, "Restart Service", "重启服务"),
            TrayItem::Stop => tr(is_zh, "Stop Service", "停止服务"),
            TrayItem::Quit => tr(is_zh, "Quit", "退出"),
        }
    }

    /// Whether a separator follows this entry in the menu (after the window entries and
    /// after the service entries).
    pub fn separator_follows(&self) -> (b: bool)
        ensures
            b == (*self == TrayItem::ShowBar || *self == TrayItem::Stop),
    {
        match self {
            TrayItem::ShowBar | TrayItem::Stop => true,
            _ => false,
        }
    }

    /// The shell-page query that the CLI and plugins entries open (`tab=cli`,
    /// `tab=plugins`).
    pub fn tab_query(&self) -> (r: Option<String>)
        ensures
            r matches Some(q) ==> (*self == TrayItem::ShowCli && q@ == "tab=cli"@) || (*self
                == TrayItem::ShowPlugins && q@ == "tab=plugins"@),
            r is Some <==> (*self == TrayItem::ShowCli || *self == TrayItem::ShowPlugins),
    {
        match self {
            TrayItem::ShowCli => Some(String::from_str("tab=cli")),
            TrayItem::ShowPlugins => Some(String::from_str("tab=plugins")),
            _ => None,
        }
    }
}

/// All tray entries, in menu order (a separator follows `ShowBar` and `Stop`).
pub open spec fn tray_order() -> Seq<TrayItem> {
    seq![
        TrayItem::ShowApp,
        TrayItem::ShowCli,
        TrayItem::ShowPlugins,
        TrayItem::ShowBar,
        TrayItem::Restart,
        TrayItem::Stop,
        TrayItem::Quit,
    ]
}

/// The tray entries in menu order.
pub fn tray_items() -> (r: Vec<TrayItem>)
    ensures
        r@ == tray_order(),
{
    let r = vec![
        TrayItem::ShowApp,
        TrayItem::ShowCli,
        TrayItem::ShowPlugins,
        TrayItem::ShowBar,
        TrayItem::Restart,
        TrayItem::Stop,
        TrayItem::Quit,
    ];
    assert(r@ =~= tray_order());
    r
}

/// The tray entry with menu id `id`; none for an unknown id, which the menu ignores.
pub fn tray_action(id: &str) -> (r: Option<TrayItem>)
    ensures
        r matches Some(item) ==> tray_id(item) == id@,
        r is None ==> forall|item: TrayItem| tray_id(item) != id@,
{
    if str_equal(id, "show-app") {
        Some(TrayItem::ShowApp)
    } else if str_equal(id, "show-cli") {
        Some(TrayItem::ShowCli)
    } else if str_equal(id, "show-plugins") {
        Some(TrayItem::ShowPlugins)
    } else if str_equal(id, "show-bar") {
        Some(TrayItem::ShowBar)
    } else if str_equal(id, "restart") {
        Some(TrayItem::Restart)
    } else if str_equal(id, "stop") {
        Some(TrayItem::Stop)
    } else if str_equal(id, "quit") {
        Some(TrayItem::Quit)
    } else {
        None
    }
}

/// Distinct entries have distinct ids, so the id of an entry leads back to that entry.
pub proof fn lemma_tray_ids_distinct(a: TrayItem, b: TrayItem)
    ensures
        tray_id(a) == tray_id(b) ==> a == b,
{
    reveal_strlit("show-app");
    reveal_strlit("show-cli");
    reveal_strlit("show-plugins");
    reveal_strlit("show-bar");
    reveal_strlit("restart");
    reveal_strlit("stop");
    reveal_strlit("quit");
    if tray_id(a) == tray_id(b) && a != b {
        let x = tray_id(a);
        let y = tray_id(b);
        if x.len() == y.len() {
            assert(x[0] != y[0] || x[5] != y[5] || x[1] != y[1]);
        }
    }
}

} // verus!
