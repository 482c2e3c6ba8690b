use dsh_desktop::nav::{append_query, tray_action, tray_items, NavState, TrayItem};

#[test]
fn query_separator_depends_on_existing_query() {
    assert_eq!(append_query("tauri://localhost/index.html", "tab=cli"), "tauri://localhost/index.html?tab=cli");
    assert_eq!(append_query("http://localhost:1420/?view=main", "ret=1"), "http://localhost:1420/?view=main&ret=1");
}

#[test]
fn first_registered_shell_url_wins() {
    let mut n = NavState::new();
    assert_eq!(n.shell_nav_url("tab=cli"), None);
    n.register_shell_url("http://a/".to_string());
    n.register_shell_url("http://b/".to_string());
    assert_eq!(n.shell_nav_url("tab=cli").as_deref(), Some("http://a/?tab=cli"));
}

#[test]
fn ready_server_opens_app_unless_pinned() {
    let mut n = NavState::new();
    assert_eq!(n.open_app_when_ready("http://x/").as_deref(), Some("http://x/"));
    n.set_pinned(true);
    assert_eq!(n.open_app_when_ready("http://x/"), None);
}

#[test]
fn return_to_shell_only_from_app() {
    let mut n = NavState::new();
    n.register_shell_url("http://s/".to_string());
    assert_eq!(n.return_to_shell(), None);
    n.navigated(true);
    assert!(n.app_shown());
    assert_eq!(n.return_to_shell().as_deref(), Some("http://s/?ret=1"));
    n.navigated(false);
    assert_eq!(n.return_to_shell(), None);
}

#[test]
fn return_to_shell_needs_shell_url() {
    let mut n = NavState::new();
    n.navigated(true);
    assert_eq!(n.return_to_shell(), None);
}

#[test]
fn tray_tab_pins_shell() {
    let mut n = NavState::new();
    assert_eq!(n.show_shell_tab("tab=cli"), None);
    n.register_shell_url("http://s/?v=1".to_string());
    assert_eq!(n.show_shell_tab("tab=plugins").as_deref(), Some("http://s/?v=1&tab=plugins"));
    assert_eq!(n.open_app_when_ready("http://x/"), None);
}

#[test]
fn tray_ids_round_trip() {
    for item in tray_items() {
        assert_eq!(tray_action(&item.id()), Some(item));
    }
    assert_eq!(tray_action("unknown"), None);
    assert_eq!(tray_action(""), None);
}

#[test]
fn tray_labels_and_tabs() {
    assert_eq!(TrayItem::ShowApp.label(false), "Open DSH App");
    assert_eq!(TrayItem::Quit.label(true), "退出");
    assert_eq!(TrayItem::ShowCli.tab_query().as_deref(), Some("tab=cli"));
    assert_eq!(TrayItem::ShowPlugins.tab_query().as_deref(), Some("tab=plugins"));
    assert_eq!(TrayItem::Stop.tab_query(), None);
    assert_eq!(tray_items().len(), 7);
}

#[test]
fn tray_separators() {
    let seps: Vec<TrayItem> = tray_items().into_iter().filter(|i| i.separator_follows()).collect();
    assert_eq!(seps, vec![TrayItem::ShowBar, TrayItem::Stop]);
}
