use diffitrust::color::{parse_hex_color, Rgba8};
use diffitrust::files::{
    config_dir_order, find_config_file, find_theme_file, ConfigCandidate, ConfigDir, FileEntry,
    SearchDir,
};
use diffitrust::theme::{
    diff_overrides, palette_overrides, parse_preset, plan_theme, remove_name_separators, theme_key,
    ConfigFile, DiffConfig,
    PaletteConfig, Preset, ThemeFile, ThemeSetting,
};
use std::path::PathBuf;

const WHITE: Rgba8 = Rgba8 { r: 255, g: 255, b: 255, a: 255 };
const BLACK: Rgba8 = Rgba8 { r: 0, g: 0, b: 0, a: 255 };

fn some(s: &str) -> Option<String> {
    Some(s.to_string())
}

#[test]
fn test_parse_hex_color() {
    assert_eq!(parse_hex_color("#fff").unwrap(), WHITE);
    assert_eq!(parse_hex_color("ffffff").unwrap(), WHITE);
    assert_eq!(parse_hex_color("#000000").unwrap(), BLACK);

    let red = parse_hex_color("#ff0000").unwrap();
    assert_eq!(red, Rgba8 { r: 255, g: 0, b: 0, a: 255 });

    let with_alpha = parse_hex_color("#ff000080").unwrap();
    assert!((with_alpha.a as f32 / 255.0 - 0.5019).abs() < 0.01);

    assert!(parse_hex_color("invalid").is_err());
}

#[test]
fn hex_color_forms_and_errors() {
    assert_eq!(parse_hex_color("#abc").unwrap(), parse_hex_color("#aabbcc").unwrap());
    assert_eq!(parse_hex_color("#abcd").unwrap(), parse_hex_color("#aabbccdd").unwrap());
    assert_eq!(
        parse_hex_color("  ##1A2b3C \n").unwrap(),
        Rgba8 { r: 0x1a, g: 0x2b, b: 0x3c, a: 255 }
    );
    assert_eq!(parse_hex_color("#12345678").unwrap(), Rgba8 { r: 0x12, g: 0x34, b: 0x56, a: 0x78 });
    // `u8::from_str_radix` takes a leading `+`.
    assert_eq!(parse_hex_color("+f0000").unwrap(), Rgba8 { r: 15, g: 0, b: 0, a: 255 });
    assert_eq!(
        parse_hex_color("invalid").unwrap_err(),
        "Invalid hex color format: \"invalid\""
    );
    assert_eq!(parse_hex_color("#ggg").unwrap_err(), "invalid digit found in string");
    assert_eq!(parse_hex_color("#12345z").unwrap_err(), "invalid digit found in string");
    assert_eq!(parse_hex_color("é1234").unwrap_err(), "invalid digit found in string");
    assert_eq!(parse_hex_color("").unwrap_err(), "Invalid hex color format: \"\"");
}

#[test]
fn test_parse_presets() {
    assert_eq!(parse_preset("CatppuccinMocha"), Some(Preset::CatppuccinMocha));
    assert_eq!(parse_preset("catppuccin-mocha"), Some(Preset::CatppuccinMocha));
    assert_eq!(parse_preset("dracula"), Some(Preset::Dracula));
    assert_eq!(parse_preset("Nord"), Some(Preset::Nord));
    assert_eq!(parse_preset("solarized-dark"), Some(Preset::SolarizedDark));
    assert_eq!(parse_preset("UnknownTheme"), None);
}

#[test]
fn preset_names_ignore_case_and_separators() {
    assert_eq!(theme_key("Tokyo Night_Storm"), "tokyonightstorm");
    assert_eq!(parse_preset("Tokyo Night_Storm"), Some(Preset::TokyoNightStorm));
    assert_eq!(parse_preset("LIGHT"), Some(Preset::Light));
    assert_eq!(parse_preset("kanagawa-lotus"), Some(Preset::KanagawaLotus));
    assert_eq!(parse_preset("Ferra"), Some(Preset::Ferra));
    assert_eq!(parse_preset(""), None);
}

#[test]
fn test_apply_diff_overrides() {
    let overrides = DiffConfig {
        delete_bg: some("#112233"),
        insert_bg: some("#445566"),
        empty_cell_bg: some("#778899"),
        ..Default::default()
    };
    let customized = diff_overrides(&overrides);
    assert_eq!(customized.delete_bg, Some(parse_hex_color("#112233").unwrap()));
    assert_eq!(customized.insert_bg, Some(parse_hex_color("#445566").unwrap()));
    assert_eq!(customized.empty_cell_bg, Some(parse_hex_color("#778899").unwrap()));
    assert_eq!(customized.text, None);
}

#[test]
fn background_override_sets_empty_background() {
    let only_bg = diff_overrides(&DiffConfig { background: some("#010203"), ..Default::default() });
    assert_eq!(only_bg.background, Some(Rgba8 { r: 1, g: 2, b: 3, a: 255 }));
    assert_eq!(only_bg.empty_bg, Some(Rgba8 { r: 1, g: 2, b: 3, a: 255 }));
    let both = diff_overrides(&DiffConfig {
        background: some("#010203"),
        empty_bg: some("#040506"),
        divider: some("not a colour"),
        ..Default::default()
    });
    assert_eq!(both.empty_bg, Some(Rgba8 { r: 4, g: 5, b: 6, a: 255 }));
    assert_eq!(both.divider, None);
    let pal = palette_overrides(&PaletteConfig { danger: some("#f00"), ..Default::default() });
    assert_eq!(pal.danger, Some(Rgba8 { r: 255, g: 0, b: 0, a: 255 }));
    assert_eq!(pal.background, None);
}

#[test]
fn single_theme_setting_with_diff_table() {
    // theme = "CatppuccinMocha", with a [diff] table, built as values.
    let config = ConfigFile {
        theme: Some(ThemeSetting::Name("CatppuccinMocha".to_string())),
        diff: Some(DiffConfig {
            delete_bg: some("#3a1520"),
            insert_bg: some("#183226"),
            insert_line_num: some("#38bdf8"),
            ..Default::default()
        }),
        ..Default::default()
    };
    assert_eq!(config.theme, Some(ThemeSetting::Name("CatppuccinMocha".to_string())));
    assert_eq!(config.get_theme_name(true), "CatppuccinMocha");
    assert_eq!(config.get_theme_name(false), "CatppuccinMocha");
    let diff = config.diff.unwrap();
    assert_eq!(diff.delete_bg.as_deref(), Some("#3a1520"));
    assert_eq!(diff.insert_line_num.as_deref(), Some("#38bdf8"));
}

#[test]
fn test_light_dark_theme_options_in_config_toml() {
    let config1 = ConfigFile {
        light_theme: some("kaleidescope"),
        dark_theme: some("Nord"),
        ..Default::default()
    };
    assert_eq!(config1.get_theme_name(false), "kaleidescope");
    assert_eq!(config1.get_theme_name(true), "Nord");

    let config2 = ConfigFile {
        theme: Some(ThemeSetting::Pair { light: some("CatppuccinLatte"), dark: some("CatppuccinMocha") }),
        ..Default::default()
    };
    assert_eq!(config2.get_theme_name(false), "CatppuccinLatte");
    assert_eq!(config2.get_theme_name(true), "CatppuccinMocha");

    let config3 = ConfigFile { preset: some("SolarizedLight"), ..Default::default() };
    assert_eq!(config3.get_theme_name(false), "SolarizedLight");
    assert_eq!(config3.get_theme_name(true), "SolarizedLight");
}

#[test]
fn theme_name_priority_and_defaults() {
    let empty = ConfigFile::default();
    assert_eq!(empty.get_theme_name(true), "Dark");
    assert_eq!(empty.get_theme_name(false), "Light");
    let config = ConfigFile {
        theme: Some(ThemeSetting::Pair { light: None, dark: some("A") }),
        preset: some("  P  "),
        theme_dark: some(" B"),
        ..Default::default()
    };
    assert_eq!(config.get_theme_name(true), "B");
    assert_eq!(config.get_theme_name(false), "P");
}

fn entry(path: &str, stem: &str) -> FileEntry {
    FileEntry { path: PathBuf::from(path), is_file: true, is_toml: true, stem: Some(stem.to_string()) }
}

#[test]
fn test_find_theme_file_case_insensitive() {
    let theme_file_path = PathBuf::from("/tmp/diffitrust_test/Nord.toml");
    let active = SearchDir {
        is_active: true,
        files: vec![
            FileEntry { path: PathBuf::from("/tmp/diffitrust_test/config.toml"), is_file: true, is_toml: true, stem: some("config") },
            entry("/tmp/diffitrust_test/Nord.toml", "Nord"),
        ],
        theme_files: vec![],
    };
    let found = find_theme_file("nord", active, vec![]);
    assert!(found.is_some());
    assert_eq!(found.unwrap(), theme_file_path);
}

#[test]
fn theme_file_search_order() {
    let mk_active = || SearchDir {
        is_active: true,
        files: vec![FileEntry { path: PathBuf::from("a/nord.txt"), is_file: true, is_toml: false, stem: some("nord") }],
        theme_files: vec![entry("a/themes/NORD.toml", "NORD")],
    };
    let others = vec![
        SearchDir { is_active: true, files: vec![entry("a/nord.toml", "nord")], theme_files: vec![] },
        SearchDir { is_active: false, files: vec![entry("b/Nord.toml", "Nord")], theme_files: vec![] },
    ];
    assert_eq!(find_theme_file("Nord.toml.toml", mk_active(), others), Some(PathBuf::from("a/themes/NORD.toml")));
    let others = vec![
        SearchDir { is_active: true, files: vec![entry("a/nord.toml", "nord")], theme_files: vec![] },
        SearchDir { is_active: false, files: vec![], theme_files: vec![entry("b/themes/no-rd.toml", "no-rd")] },
    ];
    let active = SearchDir { is_active: true, files: vec![], theme_files: vec![] };
    assert_eq!(find_theme_file("nord", active, others), Some(PathBuf::from("b/themes/no-rd.toml")));
    let active = SearchDir { is_active: true, files: vec![], theme_files: vec![] };
    assert_eq!(find_theme_file("nord", active, vec![]), None);
}

#[test]
fn config_file_choice() {
    let cand = |d: &str, f: bool| ConfigCandidate {
        dir: PathBuf::from(d),
        config_path: PathBuf::from(d).join("config.toml"),
        is_file: f,
    };
    let (dir, path) = find_config_file(vec![cand("x", false), cand("y", true), cand("z", true)], PathBuf::from("."));
    assert_eq!(dir, PathBuf::from("y"));
    assert_eq!(path, Some(PathBuf::from("y/config.toml")));
    let (dir, path) = find_config_file(vec![cand("x", false), cand("y", false), cand("z", false)], PathBuf::from("."));
    assert_eq!(dir, PathBuf::from("z"));
    assert_eq!(path, None);
    let (dir, path) = find_config_file(vec![cand("x", false)], PathBuf::from("."));
    assert_eq!(dir, PathBuf::from("."));
    assert_eq!(path, None);
}

#[test]
fn test_theme_file_override_preset() {
    let config = ConfigFile { preset: some("CatppuccinMocha"), ..Default::default() };
    let theme_file = ThemeFile {
        based_on: some("CatppuccinMocha"),
        diff: Some(DiffConfig { delete_bg: some("#432029"), insert_bg: some("#1e3a2f"), ..Default::default() }),
        ..Default::default()
    };
    let name = config.get_theme_name(true);
    let plan = plan_theme(&name, true, &config, Some(&theme_file));
    assert_eq!(plan.name, "CatppuccinMocha");
    assert_eq!(plan.base, Preset::CatppuccinMocha);
    assert!(plan.custom.is_none());
    assert_eq!(plan.diff_layers.len(), 1);
    assert_eq!(plan.diff_layers[0].delete_bg, Some(parse_hex_color("#432029").unwrap()));
    assert_eq!(plan.diff_layers[0].insert_bg, Some(parse_hex_color("#1e3a2f").unwrap()));
}

#[test]
fn test_custom_theme_file_loading() {
    let config = ConfigFile { theme: Some(ThemeSetting::Name("cyan-diff".to_string())), ..Default::default() };
    let theme_file = ThemeFile {
        name: some("Cyan Diff"),
        based_on: some("Nord"),
        diff: Some(DiffConfig {
            delete_bg: some("#3b222e"),
            insert_bg: some("#1f3a3a"),
            insert_line_num: some("#88c0d0"),
            ..Default::default()
        }),
        ..Default::default()
    };
    let name = config.get_theme_name(true);
    let plan = plan_theme(&name, true, &config, Some(&theme_file));
    assert_eq!(plan.name, "cyan-diff");
    assert_eq!(plan.base, Preset::Nord);
    assert_eq!(plan.diff_layers[0].delete_bg, Some(parse_hex_color("#3b222e").unwrap()));
    assert_eq!(plan.diff_layers[0].insert_bg, Some(parse_hex_color("#1f3a3a").unwrap()));
    assert_eq!(plan.diff_layers[0].insert_line_num, Some(parse_hex_color("#88c0d0").unwrap()));
}

#[test]
fn test_load_theme_for_mode() {
    let config = ConfigFile { light_theme: some("Light"), dark_theme: some("Nord"), ..Default::default() };
    let light = plan_theme(&config.get_theme_name(false), false, &config, None);
    let dark = plan_theme(&config.get_theme_name(true), true, &config, None);
    assert_eq!(light.name, "Light");
    assert_eq!(light.base, Preset::Light);
    assert_eq!(dark.name, "Nord");
    assert_eq!(dark.base, Preset::Nord);
}

#[test]
fn plan_layers_and_palettes() {
    let config = ConfigFile {
        palette: Some(PaletteConfig { background: some("#000"), ..Default::default() }),
        diff: Some(DiffConfig { text: some("#111"), ..Default::default() }),
        diff_dark: Some(DiffConfig { text: some("#222"), ..Default::default() }),
        diff_light: Some(DiffConfig { text: some("#333"), ..Default::default() }),
        ..Default::default()
    };
    let plan = plan_theme("mystery", true, &config, None);
    assert_eq!(plan.base, Preset::Dark);
    let custom = plan.custom.unwrap();
    assert_eq!(custom.name, "mystery-custom");
    assert_eq!(custom.colors.background, Some(BLACK));
    assert_eq!(plan.diff_layers.len(), 2);
    assert_eq!(plan.diff_layers[1].text, Some(Rgba8 { r: 0x22, g: 0x22, b: 0x22, a: 255 }));
    let plan = plan_theme("mystery", false, &config, None);
    assert_eq!(plan.base, Preset::Light);
    assert_eq!(plan.diff_layers[1].text, Some(Rgba8 { r: 0x33, g: 0x33, b: 0x33, a: 255 }));

    let theme_file = ThemeFile {
        based_on: some("no such preset"),
        palette: Some(PaletteConfig { text: some("#fff"), ..Default::default() }),
        diff: Some(DiffConfig { text: some("#444"), ..Default::default() }),
        ..Default::default()
    };
    let plan = plan_theme("gruvbox dark", false, &config, Some(&theme_file));
    assert_eq!(plan.base, Preset::GruvboxDark);
    let custom = plan.custom.unwrap();
    assert_eq!(custom.name, "gruvbox dark");
    assert_eq!(custom.colors.text, Some(WHITE));
    assert_eq!(plan.diff_layers.len(), 3);
    assert_eq!(plan.diff_layers[0].text, Some(Rgba8 { r: 0x44, g: 0x44, b: 0x44, a: 255 }));
}

#[test]
fn hex_short_forms_equal_doubled_long_forms() {
    assert_eq!(parse_hex_color("#abc"), parse_hex_color("#aabbcc"));
    assert_eq!(parse_hex_color("#1F9"), parse_hex_color("#11FF99"));
    assert_eq!(parse_hex_color("#abcd"), parse_hex_color("#aabbccdd"));
    assert_eq!(parse_hex_color("#0a3e"), parse_hex_color("#00aa33ee"));
    assert_eq!(parse_hex_color("#aabbccff"), parse_hex_color("#aabbcc"));
    assert_eq!(parse_hex_color("#123456FF"), parse_hex_color("#123456"));
}

#[test]
fn config_dirs_in_priority_order() {
    assert_eq!(config_dir_order(false, false, false, false), vec![ConfigDir::CurrentDir]);
    assert_eq!(
        config_dir_order(true, true, true, true),
        vec![
            ConfigDir::CompareConfigDirEnv,
            ConfigDir::DiffitrustConfigDirEnv,
            ConfigDir::CurrentDir,
            ConfigDir::HomeConfigCompare,
            ConfigDir::HomeConfigDiffitrust,
            ConfigDir::HomeLibraryCompare,
            ConfigDir::HomeLibraryDiffiTrust,
            ConfigDir::AppDataCompare,
            ConfigDir::AppDataDiffiTrust,
        ]
    );
    assert_eq!(
        config_dir_order(false, true, false, true),
        vec![
            ConfigDir::DiffitrustConfigDirEnv,
            ConfigDir::CurrentDir,
            ConfigDir::AppDataCompare,
            ConfigDir::AppDataDiffiTrust,
        ]
    );
}

#[test]
fn separators_are_removed_from_keys() {
    assert_eq!(remove_name_separators("tokyo-night_storm x"), "tokyonightstormx");
    assert_eq!(remove_name_separators(""), "");
    assert_eq!(remove_name_separators("- _"), "");
}

#[test]
fn ascii_names_differing_in_case_have_one_key() {
    assert_eq!(theme_key("Nord"), theme_key("nord"));
    assert_eq!(theme_key("NORD"), "nord");
    assert_eq!(theme_key("Solarized-Dark"), theme_key("solarized_dark"));
    assert_eq!(parse_preset("NORD"), parse_preset("nord"));
}
