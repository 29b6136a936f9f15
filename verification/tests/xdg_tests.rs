use cosmic_manager::xdg::classify_xdg_dir;
use cosmic_manager::xdg::get_configuration_path;
use cosmic_manager::xdg::get_cosmic_configurations;
use cosmic_manager::xdg::get_xdg_dir_path;
use cosmic_manager::xdg::join_component;
use cosmic_manager::xdg::XdgDirKind;
use cosmic_manager::xdg::XdgError;

#[test]
fn recognizes_directory_names_ignoring_case() {
    assert_eq!(classify_xdg_dir("config"), XdgDirKind::Config);
    assert_eq!(classify_xdg_dir("CONFIG"), XdgDirKind::Config);
    assert_eq!(classify_xdg_dir("Data"), XdgDirKind::Data);
    assert_eq!(classify_xdg_dir("cache"), XdgDirKind::Cache);
    assert_eq!(classify_xdg_dir("State"), XdgDirKind::State);
    assert_eq!(classify_xdg_dir("RUNTIME"), XdgDirKind::Runtime);
    assert_eq!(classify_xdg_dir("documents"), XdgDirKind::Unknown);
    assert_eq!(classify_xdg_dir(""), XdgDirKind::Unknown);
}

#[test]
fn rejects_unknown_directory_names() {
    assert_eq!(get_xdg_dir_path("bogus"), Err(XdgError::InvalidName));
    assert_eq!(get_cosmic_configurations("bogus"), Err(XdgError::InvalidName));
}

#[test]
fn config_directory_resolves_under_home() {
    // The test environment has a home directory, so the configuration
    // directory resolves; its exact value depends on the environment.
    let dir = get_xdg_dir_path("config").expect("config dir should resolve");
    assert!(!dir.is_empty());
}

#[test]
fn cosmic_root_ends_with_cosmic_component() {
    let root = get_cosmic_configurations("config").expect("config dir should resolve");
    assert!(root.ends_with("/cosmic"), "unexpected root: {}", root);
}

#[test]
fn configuration_path_ends_with_component_version_entry() {
    let path = get_configuration_path("Comp", &3, "entry", "config")
        .expect("config dir should resolve");
    assert!(path.ends_with("/cosmic/Comp/v3/entry"), "unexpected path: {}", path);
    assert_eq!(
        get_configuration_path("Comp", &3, "entry", "nope"),
        Err(XdgError::InvalidName)
    );
}

#[test]
fn join_component_inserts_separator_once() {
    assert_eq!(join_component("/home/u/.config", "cosmic"), "/home/u/.config/cosmic");
    assert_eq!(join_component("/home/u/.config/", "cosmic"), "/home/u/.config/cosmic");
    assert_eq!(join_component("", "cosmic"), "cosmic");
}
