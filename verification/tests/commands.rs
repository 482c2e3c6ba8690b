use dsh_desktop::commands::{
    augmented_path, captured_output, choose_shell, dsh_version_attempts, dsh_web_args,
    fnm_candidates, fnm_exec_args, manifest_file_name, node_dir_candidate, npm_args,
    npm_global_dir, profile_dir_parts, trim_string,
};

#[test]
fn fnm_setup() {
    assert_eq!(
        fnm_candidates(),
        vec!["/opt/homebrew/bin/fnm", "/opt/homebrew/opt/fnm/bin/fnm", "/usr/local/bin/fnm"]
    );
    assert_eq!(fnm_exec_args("npm"), vec!["exec", "--using", "default", "--", "npm"]);
}

#[test]
fn npm_and_dsh_arguments() {
    assert_eq!(npm_args("update"), vec!["update", "-g", "@deepseek-ai/dsh"]);
    assert_eq!(dsh_web_args(), vec!["web", "--no-open"]);
}

#[test]
fn shell_preference_order() {
    assert_eq!(choose_shell(Some("/usr/bin/fish".to_string()), true, true, true), "/usr/bin/fish");
    assert_eq!(choose_shell(Some("/missing".to_string()), false, true, true), "/bin/zsh");
    assert_eq!(choose_shell(None, false, false, true), "/bin/bash");
    assert_eq!(choose_shell(None, true, false, false), "/bin/sh");
}

#[test]
fn node_directories() {
    assert_eq!(node_dir_candidate("LOCALAPPDATA", "C:/Users/u/AppData/Local"), "C:/Users/u/AppData/Local/Programs/nodejs");
    assert_eq!(node_dir_candidate("ProgramFiles", "C:/Program Files"), "C:/Program Files/nodejs");
    assert_eq!(npm_global_dir("C:/Users/u/AppData/Roaming"), "C:/Users/u/AppData/Roaming/npm");
}

#[test]
fn search_path_joining() {
    let dirs = vec!["A".to_string(), "B".to_string()];
    assert_eq!(augmented_path(&dirs, Some("P1;P2".to_string())).as_deref(), Some("A;B;P1;P2"));
    assert_eq!(augmented_path(&dirs, Some(String::new())).as_deref(), Some("A;B"));
    assert_eq!(augmented_path(&dirs, None).as_deref(), Some("A;B"));
    assert_eq!(augmented_path(&vec![], Some("P".to_string())), None);
}

#[test]
fn profile_directory() {
    assert_eq!(profile_dir_parts(Some("/d".to_string()), Some("/h".to_string())), vec!["/d", "profiles", "web"]);
    assert_eq!(profile_dir_parts(None, Some("/h".to_string())), vec!["/h", ".dsh", "profiles", "web"]);
    assert_eq!(profile_dir_parts(None, None), vec![".", ".dsh", "profiles", "web"]);
    assert_eq!(manifest_file_name(), "package.json");
}

#[test]
fn captured_output_is_trimmed() {
    assert_eq!(captured_output(true, b"  v22.19.0\n").as_deref(), Some("v22.19.0"));
    assert_eq!(captured_output(false, b"v22.19.0\n"), None);
    assert_eq!(captured_output(true, b"\xff1.0\n").as_deref(), Some("\u{FFFD}1.0"));
    assert_eq!(trim_string("\u{3000} a b \t"), "a b");
    assert_eq!(trim_string("   "), "");
}

#[test]
fn version_attempts() {
    assert_eq!(dsh_version_attempts(true), 5);
    assert_eq!(dsh_version_attempts(false), 1);
}

#[test]
fn first_existing_candidate() {
    let c = vec!["a".to_string(), "b".to_string(), "c".to_string()];
    assert_eq!(dsh_desktop::commands::first_existing(&c, &vec![false, true, true]).as_deref(), Some("b"));
    assert_eq!(dsh_desktop::commands::first_existing(&c, &vec![false, false, false]), None);
    assert_eq!(dsh_desktop::commands::first_existing(&c, &vec![]), None);
    assert_eq!(dsh_desktop::commands::shell_reply(true), "reused");
    assert_eq!(dsh_desktop::commands::shell_reply(false), "spawned");
}
