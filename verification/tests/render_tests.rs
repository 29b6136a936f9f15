use cosmic_manager::commands::Commands;
use cosmic_manager::commands::Cosmic2NixCommand;
use cosmic_manager::render::format_u64;
use cosmic_manager::render::render_component;
use cosmic_manager::render::render_document;
use cosmic_manager::render::render_entries;
use cosmic_manager::render::render_section;
use cosmic_manager::render::ComponentData;

#[test]
fn formats_decimals() {
    assert_eq!(format_u64(0), "0");
    assert_eq!(format_u64(7), "7");
    assert_eq!(format_u64(10), "10");
    assert_eq!(format_u64(1234567890123456789), "1234567890123456789");
    assert_eq!(format_u64(u64::MAX), "18446744073709551615");
}

#[test]
fn renders_entry_lines_in_order() {
    let entries = vec![
        ("autotile".to_string(), "true".to_string()),
        ("gap".to_string(), "4".to_string()),
    ];
    assert_eq!(
        render_entries(&entries, "  "),
        "  autotile = true;\n  gap = 4;\n"
    );
    assert_eq!(render_entries(&Vec::new(), "  "), "");
}

#[test]
fn renders_component_block() {
    let data = ComponentData {
        version: 1,
        entries: vec![("xkb_config".to_string(), "(rules: \"\")".to_string())],
    };
    let block = render_component("com.system76.CosmicComp", &data);
    let expected = "      \"com.system76.CosmicComp\" = {\n        version = 1;\n        entries = {\n          xkb_config = mkRaw(\"(rules: \\\"\\\")\");\n        };\n      };\n";
    assert_eq!(block, expected);
}

#[test]
fn renders_section_and_document() {
    let comp = ComponentData {
        version: 2,
        entries: vec![("active".to_string(), "true".to_string())],
    };
    let section_body = render_section("config", &vec![("Comp".to_string(), comp)]);
    let expected_section = "    configFile = {\n      \"Comp\" = {\n        version = 2;\n        entries = {\n          active = true;\n        };\n      };\n    };\n";
    assert_eq!(section_body, expected_section);

    let comp = ComponentData {
        version: 2,
        entries: vec![("active".to_string(), "true".to_string())],
    };
    let doc = render_document(&vec![("config".to_string(), vec![("Comp".to_string(), comp)])]);
    let expected_doc = "{ cosmicLib, ... }:\n{\n  wayland.desktopManager.cosmic = {\n    enable = true;\n    configFile = {\n      \"Comp\" = {\n        version = 2;\n        entries = {\n          active = true;\n        };\n      };\n    };\n  };\n}\n";
    assert_eq!(doc, expected_doc);
}

#[test]
fn empty_document_holds_header_and_footer() {
    let doc = render_document(&Vec::new());
    assert_eq!(
        doc,
        "{ cosmicLib, ... }:\n{\n  wayland.desktopManager.cosmic = {\n    enable = true;\n  };\n}\n"
    );
}

#[test]
fn command_settings_carry_plain_values() {
    let cmd = Cosmic2NixCommand {
        xdg_dirs: vec!["config".to_string(), "state".to_string()],
        output_file: None,
    };
    let commands = Commands::Cosmic2Nix(cmd);
    match commands {
        Commands::Cosmic2Nix(c) => {
            assert_eq!(c.xdg_dirs.len(), 2);
            assert_eq!(c.output_file, None);
        }
        Commands::BuildTheme(_) => unreachable!(),
    }
}
