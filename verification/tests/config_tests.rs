use shellbooks::config::{
    config_path_from, config_path_in, default_finish_threshold, default_theme, expand_tilde,
    expand_tilde_with, library_db_path_from, library_db_path_in,
};

#[test]
fn expand_tilde_leaves_non_tilde_paths_alone() {
    assert_eq!(expand_tilde("/etc/hosts"), "/etc/hosts");
    assert_eq!(expand_tilde("relative/path"), "relative/path");
    // A tilde mid-path is not expanded; only a leading `~` or `~/`.
    assert_eq!(expand_tilde("/foo/~/bar"), "/foo/~/bar");
}

#[test]
fn expand_tilde_replaces_leading_tilde_slash() {
    let Some(home) = dirs::home_dir() else { return };
    assert_eq!(expand_tilde("~/Audiobooks"), home.join("Audiobooks").to_string_lossy());
}

#[test]
fn expand_tilde_replaces_bare_tilde() {
    let Some(home) = dirs::home_dir() else { return };
    assert_eq!(expand_tilde("~"), home.to_string_lossy());
}

#[test]
fn expand_tilde_with_a_given_home() {
    let home = Some("/home/u".to_string());
    assert_eq!(expand_tilde_with("~/Audiobooks", home.clone()), "/home/u/Audiobooks");
    assert_eq!(expand_tilde_with("~", home.clone()), "/home/u");
    assert_eq!(expand_tilde_with("~user/x", home.clone()), "~user/x");
    assert_eq!(expand_tilde_with("~//abs", home), "/abs");
    assert_eq!(expand_tilde_with("~/Audiobooks", None), "~/Audiobooks");
}

#[test]
fn app_files_live_in_their_own_directory() {
    assert_eq!(library_db_path_in("/home/u/.local/share"), "/home/u/.local/share/shellbooks/library.json");
    assert_eq!(config_path_in("/home/u/.config/"), "/home/u/.config/shellbooks/config.toml");
}

#[test]
fn config_defaults_are_usable() {
    assert_eq!(default_theme(), "gruvbox");
    assert_eq!(default_finish_threshold(), 30);
}

#[test]
fn app_file_paths_follow_the_directory_lookup() {
    assert_eq!(
        library_db_path_from(Some("/data".to_string())),
        Some("/data/shellbooks/library.json".to_string())
    );
    assert_eq!(library_db_path_from(None), None);
    assert_eq!(
        config_path_from(Some("/cfg".to_string())),
        Some("/cfg/shellbooks/config.toml".to_string())
    );
    assert_eq!(config_path_from(None), None);
}
