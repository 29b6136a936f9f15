use cosmic_manager::paths::parse_configuration_path;
use cosmic_manager::paths::parse_u64;

fn components(parts: &[&str]) -> Vec<String> {
    let mut v: Vec<String> = Vec::new();
    for p in parts {
        v.push(p.to_string());
    }
    v
}

#[test]
fn parses_component_version_entry() {
    let parts = components(&["/", "home", "user", ".config", "cosmic", "com.system76.CosmicComp",
        "v1", "xkb_config"]);
    let parsed = parse_configuration_path(&parts);
    assert_eq!(
        parsed,
        Some(("com.system76.CosmicComp".to_string(), 1, "xkb_config".to_string()))
    );
}

#[test]
fn rejects_short_paths() {
    assert_eq!(parse_configuration_path(&components(&["a", "v1", "entry"])), None);
    assert_eq!(parse_configuration_path(&components(&[])), None);
}

#[test]
fn rejects_versions_without_prefix() {
    assert_eq!(
        parse_configuration_path(&components(&["root", "comp", "1", "entry"])),
        None
    );
    assert_eq!(
        parse_configuration_path(&components(&["root", "comp", "w1", "entry"])),
        None
    );
    assert_eq!(
        parse_configuration_path(&components(&["root", "comp", "", "entry"])),
        None
    );
}

#[test]
fn rejects_non_numeric_versions() {
    assert_eq!(
        parse_configuration_path(&components(&["root", "comp", "v", "entry"])),
        None
    );
    assert_eq!(
        parse_configuration_path(&components(&["root", "comp", "vx", "entry"])),
        None
    );
    assert_eq!(
        parse_configuration_path(&components(&["root", "comp", "v1x", "entry"])),
        None
    );
}

#[test]
fn version_bounds() {
    let max = parse_configuration_path(&components(&["root", "comp", "v18446744073709551615",
        "entry"]));
    assert_eq!(max, Some(("comp".to_string(), u64::MAX, "entry".to_string())));
    let over = parse_configuration_path(&components(&["root", "comp", "v18446744073709551616",
        "entry"]));
    assert_eq!(over, None);
}

#[test]
fn version_accepts_plus_sign_like_unsigned_parsing() {
    let parsed = parse_configuration_path(&components(&["root", "comp", "v+2", "entry"]));
    assert_eq!(parsed, Some(("comp".to_string(), 2, "entry".to_string())));
}

#[test]
fn parse_u64_values() {
    assert_eq!(parse_u64("0"), Some(0));
    assert_eq!(parse_u64("007"), Some(7));
    assert_eq!(parse_u64("18446744073709551615"), Some(u64::MAX));
    assert_eq!(parse_u64("18446744073709551616"), None);
    assert_eq!(parse_u64(""), None);
    assert_eq!(parse_u64("+"), None);
    assert_eq!(parse_u64("+9"), Some(9));
    assert_eq!(parse_u64("-1"), None);
    assert_eq!(parse_u64("12a"), None);
}
