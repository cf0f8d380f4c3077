use terminalsort::font::font_update;
use terminalsort::font::{
    font_with_size, gsettings_value, profile_path, profile_schema_path, split_font_desc,
};

#[test]
fn font_desc_splits_at_last_space() {
    assert_eq!(
        split_font_desc("DejaVu Sans Mono 14"),
        Some(("DejaVu Sans Mono".to_string(), "14".to_string()))
    );
    assert_eq!(split_font_desc("nosize"), None);
}

#[test]
fn font_size_replaced() {
    assert_eq!(font_with_size("Monospace 12", 8), "Monospace 8");
    assert_eq!(font_with_size("DejaVu Sans Mono 14", 10), "DejaVu Sans Mono 10");
    assert_eq!(font_with_size("nosize", 9), "nosize 9");
}

#[test]
fn gsettings_output_unquoted() {
    assert_eq!(
        gsettings_value("'b1dcc9dd-5262-4d8d-a863-c897e6d979b9'\n"),
        "b1dcc9dd-5262-4d8d-a863-c897e6d979b9"
    );
    assert_eq!(gsettings_value("  'Monospace 12'  \n"), "Monospace 12");
    assert_eq!(gsettings_value("''"), "");
    assert_eq!(gsettings_value("\n"), "");
}

#[test]
fn profile_paths() {
    assert_eq!(profile_path("abc"), "/org/gnome/terminal/legacy/profiles:/:abc/");
    assert_eq!(
        profile_schema_path("abc"),
        "org.gnome.Terminal.Legacy.Profile:/org/gnome/terminal/legacy/profiles:/:abc/"
    );
}

#[test]
fn resized_font_splits_back() {
    for (desc, family) in [("Monospace 12", "Monospace"), ("DejaVu Sans Mono 14", "DejaVu Sans Mono"), ("nosize", "nosize")] {
        for size in [0u32, 6, 17, 1234] {
            assert_eq!(
                split_font_desc(&font_with_size(desc, size)),
                Some((family.to_string(), size.to_string()))
            );
        }
    }
}

#[test]
fn font_set_only_when_changed() {
    assert_eq!(font_update("Monospace 12", 12), None);
    assert_eq!(font_update("Monospace 12", 8), Some("Monospace 8".to_string()));
    assert_eq!(font_update("Monospace 012", 12), Some("Monospace 12".to_string()));
}
