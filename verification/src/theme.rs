//! Theme configuration: the settings read from `config.toml` and theme files,
//! the choice of theme name for a light or dark system, built-in presets, and
//! the plan that says how a theme is assembled.

use vstd::prelude::*;

use crate::color::{hex_outcome, parse_hex_color, HexOutcome, Rgba8};
use crate::text::{str_chars, string_from_chars, trim, trim_spec};
use vstd::utf8::is_ascii_chars;

verus! {

broadcast use vstd::string::group_string_axioms;

/// The `theme` setting: one name, or a name for each system appearance.
#[derive(Debug, Clone, PartialEq, Eq)]
pub enum ThemeSetting {
    Name(String),
    Pair { light: Option<String>, dark: Option<String> },
}

/// Inline palette colours, each written in hexadecimal.
#[derive(Debug, Clone, Default)]
pub struct PaletteConfig {
    pub background: Option<String>,
    pub text: Option<String>,
    pub primary: Option<String>,
    pub success: Option<String>,
    pub danger: Option<String>,
}

/// Diff colour overrides, each written in hexadecimal.
#[derive(Debug, Clone, Default)]
pub struct DiffConfig {
    pub delete_bg: Option<String>,
    pub delete_highlight: Option<String>,
    pub delete_line_num: Option<String>,
    pub insert_bg: Option<String>,
    pub insert_highlight: Option<String>,
    pub insert_line_num: Option<String>,
    pub equal_line_num: Option<String>,
    pub text: Option<String>,
    pub background: Option<String>,
    pub subheader_bg: Option<String>,
    pub divider: Option<String>,
    pub empty_bg: Option<String>,
    pub empty_cell_bg: Option<String>,
    pub button_bg: Option<String>,
    pub button_border: Option<String>,
}

/// The settings of `config.toml` that choose and colour the theme, and the
/// line wrapping setting.
#[derive(Debug, Clone, Default)]
pub struct ConfigFile {
    /// One theme name, or a table with `light` and `dark` names.
    pub theme: Option<ThemeSetting>,
    /// Older single-theme setting.
    pub preset: Option<String>,
    /// Theme for a light system.
    pub light_theme: Option<String>,
    pub theme_light: Option<String>,
    /// Theme for a dark system.
    pub dark_theme: Option<String>,
    pub theme_dark: Option<String>,
    /// Inline palette.
    pub palette: Option<PaletteConfig>,
    /// Diff colour overrides, for both appearances and for each.
    pub diff: Option<DiffConfig>,
    pub diff_light: Option<DiffConfig>,
    pub diff_dark: Option<DiffConfig>,
    /// Whether long lines wrap (on when unset).
    pub wrap_lines: Option<bool>,
}

/// A user-defined theme file (`<name>.toml`).
#[derive(Debug, Clone, Default)]
pub struct ThemeFile {
    pub name: Option<String>,
    pub based_on: Option<String>,
    pub dark: Option<bool>,
    pub palette: Option<PaletteConfig>,
    pub diff: Option<DiffConfig>,
}

/// The view of an optional string.
pub open spec fn opt_view(o: Option<String>) -> Option<Seq<char>> {
    match o {
        Some(s) => Some(s@),
        None => None,
    }
}

/// `a`, or `b` when `a` is `None`.
pub open spec fn or_spec<T>(a: Option<T>, b: Option<T>) -> Option<T> {
    if a is Some {
        a
    } else {
        b
    }
}

/// The name the `theme` setting gives for the appearance.
pub open spec fn setting_choice(setting: Option<ThemeSetting>, is_dark: bool) -> Option<Seq<char>> {
    match setting {
        Some(ThemeSetting::Pair { light, dark }) => if is_dark {
            opt_view(dark)
        } else {
            opt_view(light)
        },
        Some(ThemeSetting::Name(name)) => Some(name@),
        None => None,
    }
}

/// The theme name for a dark (or light) system: the first of `dark_theme`,
/// `theme_dark`, the `theme` setting and `preset` that is set (`light_theme`,
/// `theme_light`, ... for light), else `Dark` (or `Light`), trimmed.
pub open spec fn theme_name_spec(config: ConfigFile, is_dark: bool) -> Seq<char> {
    let chosen = if is_dark {
        or_spec(
            opt_view(config.dark_theme),
            or_spec(
                opt_view(config.theme_dark),
                or_spec(setting_choice(config.theme, true), opt_view(config.preset)),
            ),
        )
    } else {
        or_spec(
            opt_view(config.light_theme),
            or_spec(
                opt_view(config.theme_light),
                or_spec(setting_choice(config.theme, false), opt_view(config.preset)),
            ),
        )
    };
    trim_spec(
        match chosen {
            Some(n) => n,
            None => if is_dark {
                "Dark"@
            } else {
                "Light"@
            },
        },
    )
}

impl ConfigFile {
    /// The name of the theme to use for a dark (or light) system.
    pub fn get_theme_name(&self, is_dark: bool) -> (name: String)
        ensures
            name@ == theme_name_spec(*self, is_dark),
    {
        let pair: Option<&String> = match &self.theme {
            Some(ThemeSetting::Pair { dark, light }) => {
                if is_dark {
                    dark.as_ref()
                } else {
                    light.as_ref()
                }
            },
            Some(ThemeSetting::Name(name)) => Some(name),
            None => None,
        };
        let (first, second) = if is_dark {
            (self.dark_theme.as_ref(), self.theme_dark.as_ref())
        } else {
            (self.light_theme.as_ref(), self.theme_light.as_ref())
        };
        let chosen: &str = if let Some(s) = first {
            s.as_str()
        } else if let Some(s) = second {
            s.as_str()
        } else if let Some(s) = pair {
            s.as_str()
        } else if let Some(s) = self.preset.as_ref() {
            s.as_str()
        } else if is_dark {
            "Dark"
        } else {
            "Light"
        };
        trim(chosen)
    }
}

/// What `str::to_lowercase` returns for `s`.
pub uninterp spec fn unicode_lowercase(s: Seq<char>) -> Seq<char>;

/// `c` with `A`..`Z` mapped to `a`..`z`.
pub open spec fn ascii_lower(c: char) -> char {
    if 'A' <= c <= 'Z' {
        ((c as int) + 32) as char
    } else {
        c
    }
}

/// `s` with each of `A`..`Z` mapped to `a`..`z`.
pub open spec fn ascii_lowercase(s: Seq<char>) -> Seq<char> {
    s.map_values(|c: char| ascii_lower(c))
}

/// Calls `str::to_lowercase`. Its result is named; of the Unicode lowercase
/// mapping only the ASCII part is stated: on ASCII text it maps `A`..`Z` to
/// `a`..`z` and leaves every other character as it is. What it does to other
/// characters (whose lowercase may be longer) is not stated.
#[verifier::external_body]
fn to_lowercase(s: &str) -> (r: String)
    ensures
        r@ == unicode_lowercase(s@),
        is_ascii_chars(s@) ==> r@ == ascii_lowercase(s@),
{
    s.to_lowercase()
}

/// A separator that theme names may carry or not: `-`, `_` or a space.
pub open spec fn is_name_separator(c: char) -> bool {
    c == '-' || c == '_' || c == ' '
}

/// `s` without its separators.
pub open spec fn remove_separators(s: Seq<char>) -> Seq<char>
    decreases s.len(),
{
    if s.len() == 0 {
        seq![]
    } else if is_name_separator(s.last()) {
        remove_separators(s.drop_last())
    } else {
        remove_separators(s.drop_last()).push(s.last())
    }
}

/// The form in which theme names are compared: lowercase, without
/// separators.
pub open spec fn theme_key_spec(name: Seq<char>) -> Seq<char> {
    remove_separators(unicode_lowercase(name))
}

/// The key of an ASCII name: `A`..`Z` mapped to `a`..`z`, without
/// separators.
pub open spec fn ascii_key(name: Seq<char>) -> Seq<char> {
    remove_separators(ascii_lowercase(name))
}

/// `lower` without `-`, `_` or spaces.
pub fn remove_name_separators(lower: &str) -> (key: String)
    ensures
        key@ == remove_separators(lower@),
{
    let cs = str_chars(lower);
    let mut out: Vec<char> = Vec::new();
    let n = cs.len();
    let mut i: usize = 0;
    while i < n
        invariant
            n == cs@.len(),
            cs@ == lower@,
            i <= n,
            out@ == remove_separators(cs@.take(i as int)),
        decreases n - i,
    {
        assert(cs@.take(i + 1).drop_last() =~= cs@.take(i as int));
        let c = cs[i];
        if !(c == '-' || c == '_' || c == ' ') {
            out.push(c);
        }
        i = i + 1;
    }
    assert(cs@.take(n as int) =~= cs@);
    string_from_chars(out.as_slice())
}

/// The form in which theme names are compared: lowercase, without `-`, `_`
/// or spaces. For an ASCII name, lowercase means `A`..`Z` mapped to
/// `a`..`z`, so names that differ only in the case of ASCII letters have the
/// same key.
pub fn theme_key(name: &str) -> (key: String)
    ensures
        key@ == theme_key_spec(name@),
        is_ascii_chars(name@) ==> key@ == ascii_key(name@),
{
    let lower = to_lowercase(name);
    remove_name_separators(lower.as_str())
}

/// The built-in themes.
#[derive(Debug, Clone, Copy, PartialEq, Eq, Structural)]
pub enum Preset {
    Light,
    Dark,
    Dracula,
    Nord,
    SolarizedLight,
    SolarizedDark,
    GruvboxLight,
    GruvboxDark,
    CatppuccinLatte,
    CatppuccinFrappe,
    CatppuccinMacchiato,
    CatppuccinMocha,
    TokyoNight,
    TokyoNightStorm,
    TokyoNightLight,
    KanagawaWave,
    KanagawaDragon,
    KanagawaLotus,
    Moonfly,
    Nightfly,
    Oxocarbon,
    Ferra,
}

/// The preset whose key is `key`.
pub open spec fn preset_for_key(key: Seq<char>) -> Option<Preset> {
    if key == "light"@ {
        Some(Preset::Light)
    } else if key == "dark"@ {
        Some(Preset::Dark)
    } else if key == "dracula"@ {
        Some(Preset::Dracula)
    } else if key == "nord"@ {
        Some(Preset::Nord)
    } else if key == "solarizedlight"@ {
        Some(Preset::SolarizedLight)
    } else if key == "solarizeddark"@ {
        Some(Preset::SolarizedDark)
    } else if key == "gruvboxlight"@ {
        Some(Preset::GruvboxLight)
    } else if key == "gruvboxdark"@ {
        Some(Preset::GruvboxDark)
    } else if key == "catppuccinlatte"@ {
        Some(Preset::CatppuccinLatte)
    } else if key == "catppuccinfrappe"@ {
        Some(Preset::CatppuccinFrappe)
    } else if key == "catppuccinmacchiato"@ {
        Some(Preset::CatppuccinMacchiato)
    } else if key == "catppuccinmocha"@ {
        Some(Preset::CatppuccinMocha)
    } else if key == "tokyonight"@ {
        Some(Preset::TokyoNight)
    } else if key == "tokyonightstorm"@ {
        Some(Preset::TokyoNightStorm)
    } else if key == "tokyonightlight"@ {
        Some(Preset::TokyoNightLight)
    } else if key == "kanagawawave"@ {
        Some(Preset::KanagawaWave)
    } else if key == "kanagawadragon"@ {
        Some(Preset::KanagawaDragon)
    } else if key == "kanagawalotus"@ {
        Some(Preset::KanagawaLotus)
    } else if key == "moonfly"@ {
        Some(Preset::Moonfly)
    } else if key == "nightfly"@ {
        Some(Preset::Nightfly)
    } else if key == "oxocarbon"@ {
        Some(Preset::Oxocarbon)
    } else if key == "ferra"@ {
        Some(Preset::Ferra)
    } else {
        None
    }
}

/// The preset that `name` names, by its key.
pub open spec fn parse_preset_spec(name: Seq<char>) -> Option<Preset> {
    preset_for_key(theme_key_spec(name))
}

fn key_is(key: &String, lit: &str) -> (b: bool)
    ensures
        b == (key@ == lit@),
{
    let l = String::from_str(lit);
    *key == l
}

/// The built-in theme that `name` names, ignoring case, `-`, `_` and spaces.
pub fn parse_preset(name: &str) -> (p: Option<Preset>)
    ensures
        p == parse_preset_spec(name@),
        is_ascii_chars(name@) ==> p == preset_for_key(ascii_key(name@)),
{
    let key = theme_key(name);
    if key_is(&key, "light") {
        Some(Preset::Light)
    } else if key_is(&key, "dark") {
        Some(Preset::Dark)
    } else if key_is(&key, "dracula") {
        Some(Preset::Dracula)
    } else if key_is(&key, "nord") {
        Some(Preset::Nord)
    } else if key_is(&key, "solarizedlight") {
        Some(Preset::SolarizedLight)
    } else if key_is(&key, "solarizeddark") {
        Some(Preset::SolarizedDark)
    } else if key_is(&key, "gruvboxlight") {
        Some(Preset::GruvboxLight)
    } else if key_is(&key, "gruvboxdark") {
        Some(Preset::GruvboxDark)
    } else if key_is(&key, "catppuccinlatte") {
        Some(Preset::CatppuccinLatte)
    } else if key_is(&key, "catppuccinfrappe") {
        Some(Preset::CatppuccinFrappe)
    } else if key_is(&key, "catppuccinmacchiato") {
        Some(Preset::CatppuccinMacchiato)
    } else if key_is(&key, "catppuccinmocha") {
        Some(Preset::CatppuccinMocha)
    } else if key_is(&key, "tokyonight") {
        Some(Preset::TokyoNight)
    } else if key_is(&key, "tokyonightstorm") {
        Some(Preset::TokyoNightStorm)
    } else if key_is(&key, "tokyonightlight") {
        Some(Preset::TokyoNightLight)
    } else if key_is(&key, "kanagawawave") {
        Some(Preset::KanagawaWave)
    } else if key_is(&key, "kanagawadragon") {
        Some(Preset::KanagawaDragon)
    } else if key_is(&key, "kanagawalotus") {
        Some(Preset::KanagawaLotus)
    } else if key_is(&key, "moonfly") {
        Some(Preset::Moonfly)
    } else if key_is(&key, "nightfly") {
        Some(Preset::Nightfly)
    } else if key_is(&key, "oxocarbon") {
        Some(Preset::Oxocarbon)
    } else if key_is(&key, "ferra") {
        Some(Preset::Ferra)
    } else {
        None
    }
}

/// The colour an optional hexadecimal setting gives, when it parses.
pub open spec fn opt_color_spec(o: Option<String>) -> Option<Rgba8> {
    match o {
        Some(s) => match hex_outcome(s@) {
            HexOutcome::Parsed(c) => Some(c),
            _ => None,
        },
        None => None,
    }
}

/// Parsing the optional setting does not panic.
pub open spec fn color_ok(o: Option<String>) -> bool {
    match o {
        Some(s) => !(hex_outcome(s@) is Panics),
        None => true,
    }
}

/// The colour an optional hexadecimal setting gives, when it parses.
pub fn opt_color(o: &Option<String>) -> (c: Option<Rgba8>)
    requires
        color_ok(*o),
    ensures
        c == opt_color_spec(*o),
{
    match o {
        Some(s) => match parse_hex_color(s.as_str()) {
            Ok(c) => Some(c),
            Err(_) => None,
        },
        None => None,
    }
}

/// The diff colours a `[diff]` table sets; `None` leaves a colour as it was.
#[derive(Debug, Clone, Copy, PartialEq, Eq, Structural)]
pub struct DiffOverrides {
    pub delete_bg: Option<Rgba8>,
    pub delete_highlight: Option<Rgba8>,
    pub delete_line_num: Option<Rgba8>,
    pub insert_bg: Option<Rgba8>,
    pub insert_highlight: Option<Rgba8>,
    pub insert_line_num: Option<Rgba8>,
    pub equal_line_num: Option<Rgba8>,
    pub text: Option<Rgba8>,
    pub background: Option<Rgba8>,
    pub subheader_bg: Option<Rgba8>,
    pub divider: Option<Rgba8>,
    pub empty_bg: Option<Rgba8>,
    pub empty_cell_bg: Option<Rgba8>,
    pub button_bg: Option<Rgba8>,
    pub button_border: Option<Rgba8>,
}

/// Every colour of the table parses without panicking.
pub open spec fn diff_config_ok(cfg: DiffConfig) -> bool {
    &&& color_ok(cfg.delete_bg)
    &&& color_ok(cfg.delete_highlight)
    &&& color_ok(cfg.delete_line_num)
    &&& color_ok(cfg.insert_bg)
    &&& color_ok(cfg.insert_highlight)
    &&& color_ok(cfg.insert_line_num)
    &&& color_ok(cfg.equal_line_num)
    &&& color_ok(cfg.text)
    &&& color_ok(cfg.background)
    &&& color_ok(cfg.subheader_bg)
    &&& color_ok(cfg.divider)
    &&& color_ok(cfg.empty_bg)
    &&& color_ok(cfg.empty_cell_bg)
    &&& color_ok(cfg.button_bg)
    &&& color_ok(cfg.button_border)
}

/// The colours a `[diff]` table sets: each colour that parses, and for the
/// empty-state background the `empty_bg` colour, else the `background` one.
pub open spec fn diff_overrides_spec(cfg: DiffConfig) -> DiffOverrides {
    DiffOverrides {
        delete_bg: opt_color_spec(cfg.delete_bg),
        delete_highlight: opt_color_spec(cfg.delete_highlight),
        delete_line_num: opt_color_spec(cfg.delete_line_num),
        insert_bg: opt_color_spec(cfg.insert_bg),
        insert_highlight: opt_color_spec(cfg.insert_highlight),
        insert_line_num: opt_color_spec(cfg.insert_line_num),
        equal_line_num: opt_color_spec(cfg.equal_line_num),
        text: opt_color_spec(cfg.text),
        background: opt_color_spec(cfg.background),
        subheader_bg: opt_color_spec(cfg.subheader_bg),
        divider: opt_color_spec(cfg.divider),
        empty_bg: or_spec(opt_color_spec(cfg.empty_bg), opt_color_spec(cfg.background)),
        empty_cell_bg: opt_color_spec(cfg.empty_cell_bg),
        button_bg: opt_color_spec(cfg.button_bg),
        button_border: opt_color_spec(cfg.button_border),
    }
}

/// The colours a `[diff]` table sets. A `background` colour also sets the
/// empty-state background, unless `empty_bg` sets that.
pub fn diff_overrides(cfg: &DiffConfig) -> (o: DiffOverrides)
    requires
        diff_config_ok(*cfg),
    ensures
        o == diff_overrides_spec(*cfg),
{
    let background = opt_color(&cfg.background);
    let empty_bg = match opt_color(&cfg.empty_bg) {
        Some(c) => Some(c),
        None => background,
    };
    DiffOverrides {
        delete_bg: opt_color(&cfg.delete_bg),
        delete_highlight: opt_color(&cfg.delete_highlight),
        delete_line_num: opt_color(&cfg.delete_line_num),
        insert_bg: opt_color(&cfg.insert_bg),
        insert_highlight: opt_color(&cfg.insert_highlight),
        insert_line_num: opt_color(&cfg.insert_line_num),
        equal_line_num: opt_color(&cfg.equal_line_num),
        text: opt_color(&cfg.text),
        background,
        subheader_bg: opt_color(&cfg.subheader_bg),
        divider: opt_color(&cfg.divider),
        empty_bg,
        empty_cell_bg: opt_color(&cfg.empty_cell_bg),
        button_bg: opt_color(&cfg.button_bg),
        button_border: opt_color(&cfg.button_border),
    }
}

/// The palette colours a `[palette]` table sets.
#[derive(Debug, Clone, Copy, PartialEq, Eq, Structural)]
pub struct PaletteOverrides {
    pub background: Option<Rgba8>,
    pub text: Option<Rgba8>,
    pub primary: Option<Rgba8>,
    pub success: Option<Rgba8>,
    pub danger: Option<Rgba8>,
}

/// Every colour of the palette parses without panicking.
pub open spec fn palette_config_ok(cfg: PaletteConfig) -> bool {
    &&& color_ok(cfg.background)
    &&& color_ok(cfg.text)
    &&& color_ok(cfg.primary)
    &&& color_ok(cfg.success)
    &&& color_ok(cfg.danger)
}

/// The colours a `[palette]` table sets: each one that parses.
pub open spec fn palette_overrides_spec(cfg: PaletteConfig) -> PaletteOverrides {
    PaletteOverrides {
        background: opt_color_spec(cfg.background),
        text: opt_color_spec(cfg.text),
        primary: opt_color_spec(cfg.primary),
        success: opt_color_spec(cfg.success),
        danger: opt_color_spec(cfg.danger),
    }
}

/// The colours a `[palette]` table sets.
pub fn palette_overrides(cfg: &PaletteConfig) -> (o: PaletteOverrides)
    requires
        palette_config_ok(*cfg),
    ensures
        o == palette_overrides_spec(*cfg),
{
    PaletteOverrides {
        background: opt_color(&cfg.background),
        text: opt_color(&cfg.text),
        primary: opt_color(&cfg.primary),
        success: opt_color(&cfg.success),
        danger: opt_color(&cfg.danger),
    }
}

/// A custom palette laid over a preset, and the name of the theme it makes.
#[derive(Debug, Clone)]
pub struct CustomPalette {
    pub name: String,
    pub colors: PaletteOverrides,
}

/// How a theme is assembled: the preset it starts from, a custom palette laid
/// over it, and the layers of diff colour overrides applied in order over the
/// default diff colours of the result.
#[derive(Debug, Clone)]
pub struct ThemePlan {
    pub name: String,
    pub base: Preset,
    pub custom: Option<CustomPalette>,
    pub diff_layers: Vec<DiffOverrides>,
}

/// Mathematical model of a theme plan.
pub struct PlanView {
    pub name: Seq<char>,
    pub base: Preset,
    pub custom: Option<(Seq<char>, PaletteOverrides)>,
    pub diff_layers: Seq<DiffOverrides>,
}

impl View for ThemePlan {
    type V = PlanView;

    open spec fn view(&self) -> PlanView {
        PlanView {
            name: self.name@,
            base: self.base,
            custom: match self.custom {
                Some(c) => Some((c.name@, c.colors)),
                None => None,
            },
            diff_layers: self.diff_layers@,
        }
    }
}

/// The overrides of an optional `[diff]` table, as zero or one layer.
pub open spec fn opt_layer(o: Option<DiffConfig>) -> Seq<DiffOverrides> {
    match o {
        Some(c) => seq![diff_overrides_spec(c)],
        None => seq![],
    }
}

/// The table of diff overrides for the appearance.
pub open spec fn mode_diff(config: ConfigFile, is_dark: bool) -> Option<DiffConfig> {
    if is_dark {
        config.diff_dark
    } else {
        config.diff_light
    }
}

/// The preset for the appearance when nothing names one.
pub open spec fn default_preset(is_dark: bool) -> Preset {
    if is_dark {
        Preset::Dark
    } else {
        Preset::Light
    }
}

/// `o`'s value, or `d`.
pub open spec fn unwrap_or_spec<T>(o: Option<T>, d: T) -> T {
    match o {
        Some(v) => v,
        None => d,
    }
}

/// The optional table parses without panicking.
pub open spec fn opt_diff_ok(o: Option<DiffConfig>) -> bool {
    match o {
        Some(c) => diff_config_ok(c),
        None => true,
    }
}

/// The optional palette parses without panicking.
pub open spec fn opt_palette_ok(o: Option<PaletteConfig>) -> bool {
    match o {
        Some(c) => palette_config_ok(c),
        None => true,
    }
}

/// Every colour the theme is assembled from parses without panicking.
pub open spec fn plan_ok(is_dark: bool, config: ConfigFile, theme_file: Option<ThemeFile>) -> bool {
    &&& opt_diff_ok(config.diff)
    &&& opt_diff_ok(mode_diff(config, is_dark))
    &&& match theme_file {
        Some(tf) => opt_diff_ok(tf.diff) && opt_palette_ok(tf.palette),
        None => opt_palette_ok(config.palette),
    }
}

/// How the theme named `query` is assembled. With a theme file: from the
/// preset its `based_on` names, else the preset `query` names, else the
/// default for the appearance; with its palette under its own name (else
/// `query`); with its diff table, then the config's, then the config's table
/// for the appearance. Without: from the preset `query` names, else the
/// default; with the config's palette under `query` + `-custom`; with the
/// config's diff table, then its table for the appearance.
pub open spec fn plan_spec(query: Seq<char>, is_dark: bool, config: ConfigFile, theme_file: Option<ThemeFile>) -> PlanView {
    let config_layers = opt_layer(config.diff) + opt_layer(mode_diff(config, is_dark));
    match theme_file {
        Some(tf) => PlanView {
            name: query,
            base: unwrap_or_spec(
                or_spec(
                    match tf.based_on {
                        Some(b) => parse_preset_spec(b@),
                        None => None,
                    },
                    parse_preset_spec(query),
                ),
                default_preset(is_dark),
            ),
            custom: match tf.palette {
                Some(p) => Some(
                    (
                        match tf.name {
                            Some(n) => n@,
                            None => query,
                        },
                        palette_overrides_spec(p),
                    ),
                ),
                None => None,
            },
            diff_layers: opt_layer(tf.diff) + config_layers,
        },
        None => PlanView {
            name: query,
            base: unwrap_or_spec(parse_preset_spec(query), default_preset(is_dark)),
            custom: match config.palette {
                Some(p) => Some((query + "-custom"@, palette_overrides_spec(p))),
                None => None,
            },
            diff_layers: config_layers,
        },
    }
}

fn push_layer(layers: &mut Vec<DiffOverrides>, o: &Option<DiffConfig>)
    requires
        opt_diff_ok(*o),
    ensures
        final(layers)@ == old(layers)@ + opt_layer(*o),
{
    if let Some(c) = o {
        layers.push(diff_overrides(c));
        assert(layers@ =~= old(layers)@ + opt_layer(*o));
    } else {
        assert(layers@ =~= old(layers)@ + opt_layer(*o));
    }
}

/// How the theme named `theme_query` is assembled for a dark (or light)
/// system, from the config and the theme file found for the name, if any.
pub fn plan_theme(
    theme_query: &str,
    is_dark: bool,
    config: &ConfigFile,
    theme_file: Option<&ThemeFile>,
) -> (plan: ThemePlan)
    requires
        plan_ok(is_dark, *config, match theme_file {
            Some(tf) => Some(*tf),
            None => None,
        }),
    ensures
        plan@ == plan_spec(theme_query@, is_dark, *config, match theme_file {
            Some(tf) => Some(*tf),
            None => None,
        }),
{
    let default = if is_dark {
        Preset::Dark
    } else {
        Preset::Light
    };
    let mode = if is_dark {
        &config.diff_dark
    } else {
        &config.diff_light
    };
    let mut layers: Vec<DiffOverrides> = Vec::new();
    match theme_file {
        Some(tf) => {
            let from_based_on = match &tf.based_on {
                Some(b) => parse_preset(b.as_str()),
                None => None,
            };
            let base = match from_based_on {
                Some(p) => p,
                None => match parse_preset(theme_query) {
                    Some(p) => p,
                    None => default,
                },
            };
            let custom = match &tf.palette {
                Some(p) => {
                    let name = match &tf.name {
                        Some(n) => n.clone(),
                        None => String::from_str(theme_query),
                    };
                    Some(CustomPalette { name, colors: palette_overrides(p) })
                },
                None => None,
            };
            push_layer(&mut layers, &tf.diff);
            push_layer(&mut layers, &config.diff);
            push_layer(&mut layers, mode);
            let plan = ThemePlan { name: String::from_str(theme_query), base, custom, diff_layers: layers };
            assert(plan@.diff_layers =~= plan_spec(theme_query@, is_dark, *config, Some(*tf)).diff_layers);
            plan
        },
        None => {
            let base = match parse_preset(theme_query) {
                Some(p) => p,
                None => default,
            };
            let custom = match &config.palette {
                Some(p) => {
                    let mut name = String::from_str(theme_query);
                    name.append("-custom");
                    Some(CustomPalette { name, colors: palette_overrides(p) })
                },
                None => None,
            };
            push_layer(&mut layers, &config.diff);
            push_layer(&mut layers, mode);
            let plan = ThemePlan { name: String::from_str(theme_query), base, custom, diff_layers: layers };
            assert(plan@.diff_layers =~= plan_spec(theme_query@, is_dark, *config, None).diff_layers);
            plan
        },
    }
}

/// One theme for both appearances: with no name set for either appearance
/// and no light/dark `theme` table, light and dark systems get the same
/// theme name.
pub proof fn lemma_single_theme(config: ConfigFile)
    requires
        config.light_theme is None,
        config.theme_light is None,
        config.dark_theme is None,
        config.theme_dark is None,
        !(config.theme matches Some(ThemeSetting::Pair { .. })),
        config.theme is Some || config.preset is Some,
    ensures
        theme_name_spec(config, true) == theme_name_spec(config, false),
{
}

/// Automatic light/dark switching: names set for each appearance are used
/// for it, whatever the other settings say.
pub proof fn lemma_per_appearance_names(config: ConfigFile, light: String, dark: String)
    requires
        config.light_theme == Some(light),
        config.dark_theme == Some(dark),
    ensures
        theme_name_spec(config, false) == trim_spec(light@),
        theme_name_spec(config, true) == trim_spec(dark@),
{
}

/// Names that differ only in case, `-`, `_` or spaces name the same preset.
pub proof fn lemma_preset_name_forms(a: Seq<char>, b: Seq<char>)
    requires
        theme_key_spec(a) == theme_key_spec(b),
    ensures
        parse_preset_spec(a) == parse_preset_spec(b),
{
}

/// The config's diff tables are applied last, the one for the appearance
/// after the general one, so they win over a theme file's.
pub proof fn lemma_config_overrides_last(
    query: Seq<char>,
    is_dark: bool,
    config: ConfigFile,
    theme_file: Option<ThemeFile>,
)
    ensures
        ({
            let layers = plan_spec(query, is_dark, config, theme_file).diff_layers;
            let tail = opt_layer(config.diff) + opt_layer(mode_diff(config, is_dark));
            &&& layers.len() >= tail.len()
            &&& layers.subrange(layers.len() - tail.len(), layers.len() as int) == tail
        }),
{
    let layers = plan_spec(query, is_dark, config, theme_file).diff_layers;
    let tail = opt_layer(config.diff) + opt_layer(mode_diff(config, is_dark));
    match theme_file {
        Some(tf) => {
            assert(layers.subrange(layers.len() - tail.len(), layers.len() as int) =~= tail);
        },
        None => {
            assert(layers.subrange(0, layers.len() as int) =~= tail);
        },
    }
}

/// The name of a preset as it is compared: its name in lowercase, without
/// separators.
pub open spec fn preset_key(p: Preset) -> Seq<char> {
    match p {
        Preset::Light => seq!['l', 'i', 'g', 'h', 't'],
        Preset::Dark => seq!['d', 'a', 'r', 'k'],
        Preset::Dracula => seq!['d', 'r', 'a', 'c', 'u', 'l', 'a'],
        Preset::Nord => seq!['n', 'o', 'r', 'd'],
        Preset::SolarizedLight => seq!['s', 'o', 'l', 'a', 'r', 'i', 'z', 'e', 'd', 'l', 'i', 'g', 'h', 't'],
        Preset::SolarizedDark => seq!['s', 'o', 'l', 'a', 'r', 'i', 'z', 'e', 'd', 'd', 'a', 'r', 'k'],
        Preset::GruvboxLight => seq!['g', 'r', 'u', 'v', 'b', 'o', 'x', 'l', 'i', 'g', 'h', 't'],
        Preset::GruvboxDark => seq!['g', 'r', 'u', 'v', 'b', 'o', 'x', 'd', 'a', 'r', 'k'],
        Preset::CatppuccinLatte => seq!['c', 'a', 't', 'p', 'p', 'u', 'c', 'c', 'i', 'n', 'l', 'a', 't', 't', 'e'],
        Preset::CatppuccinFrappe => seq!['c', 'a', 't', 'p', 'p', 'u', 'c', 'c', 'i', 'n', 'f', 'r', 'a', 'p', 'p', 'e'],
        Preset::CatppuccinMacchiato => seq!['c', 'a', 't', 'p', 'p', 'u', 'c', 'c', 'i', 'n', 'm', 'a', 'c', 'c', 'h', 'i', 'a', 't', 'o'],
        Preset::CatppuccinMocha => seq!['c', 'a', 't', 'p', 'p', 'u', 'c', 'c', 'i', 'n', 'm', 'o', 'c', 'h', 'a'],
        Preset::TokyoNight => seq!['t', 'o', 'k', 'y', 'o', 'n', 'i', 'g', 'h', 't'],
        Preset::TokyoNightStorm => seq!['t', 'o', 'k', 'y', 'o', 'n', 'i', 'g', 'h', 't', 's', 't', 'o', 'r', 'm'],
        Preset::TokyoNightLight => seq!['t', 'o', 'k', 'y', 'o', 'n', 'i', 'g', 'h', 't', 'l', 'i', 'g', 'h', 't'],
        Preset::KanagawaWave => seq!['k', 'a', 'n', 'a', 'g', 'a', 'w', 'a', 'w', 'a', 'v', 'e'],
        Preset::KanagawaDragon => seq!['k', 'a', 'n', 'a', 'g', 'a', 'w', 'a', 'd', 'r', 'a', 'g', 'o', 'n'],
        Preset::KanagawaLotus => seq!['k', 'a', 'n', 'a', 'g', 'a', 'w', 'a', 'l', 'o', 't', 'u', 's'],
        Preset::Moonfly => seq!['m', 'o', 'o', 'n', 'f', 'l', 'y'],
        Preset::Nightfly => seq!['n', 'i', 'g', 'h', 't', 'f', 'l', 'y'],
        Preset::Oxocarbon => seq!['o', 'x', 'o', 'c', 'a', 'r', 'b', 'o', 'n'],
        Preset::Ferra => seq!['f', 'e', 'r', 'r', 'a'],
    }
}

/// Each preset is named by its own key, and by no other: the key a name
/// comes to picks the preset of that key, and nothing else picks a preset.
pub proof fn lemma_preset_keys(key: Seq<char>, p: Preset)
    ensures
        preset_for_key(preset_key(p)) == Some(p),
        preset_for_key(key) == Some(p) <==> key == preset_key(p),
{
    reveal_strlit("light");
    reveal_strlit("dark");
    reveal_strlit("dracula");
    reveal_strlit("nord");
    reveal_strlit("solarizedlight");
    reveal_strlit("solarizeddark");
    reveal_strlit("gruvboxlight");
    reveal_strlit("gruvboxdark");
    reveal_strlit("catppuccinlatte");
    reveal_strlit("catppuccinfrappe");
    reveal_strlit("catppuccinmacchiato");
    reveal_strlit("catppuccinmocha");
    reveal_strlit("tokyonight");
    reveal_strlit("tokyonightstorm");
    reveal_strlit("tokyonightlight");
    reveal_strlit("kanagawawave");
    reveal_strlit("kanagawadragon");
    reveal_strlit("kanagawalotus");
    reveal_strlit("moonfly");
    reveal_strlit("nightfly");
    reveal_strlit("oxocarbon");
    reveal_strlit("ferra");
    match p {
        Preset::Light => {
            assert(preset_key(p) =~= "light"@);
        },
        Preset::Dark => {
            assert(preset_key(p) =~= "dark"@);
        },
        Preset::Dracula => {
            assert(preset_key(p) =~= "dracula"@);
        },
        Preset::Nord => {
            assert(preset_key(p) =~= "nord"@);
        },
        Preset::SolarizedLight => {
            assert(preset_key(p) =~= "solarizedlight"@);
        },
        Preset::SolarizedDark => {
            assert(preset_key(p) =~= "solarizeddark"@);
        },
        Preset::GruvboxLight => {
            assert(preset_key(p) =~= "gruvboxlight"@);
        },
        Preset::GruvboxDark => {
            assert(preset_key(p) =~= "gruvboxdark"@);
        },
        Preset::CatppuccinLatte => {
            assert(preset_key(p) =~= "catppuccinlatte"@);
        },
        Preset::CatppuccinFrappe => {
            assert(preset_key(p) =~= "catppuccinfrappe"@);
        },
        Preset::CatppuccinMacchiato => {
            assert(preset_key(p) =~= "catppuccinmacchiato"@);
        },
        Preset::CatppuccinMocha => {
            assert(preset_key(p) =~= "catppuccinmocha"@);
        },
        Preset::TokyoNight => {
            assert(preset_key(p) =~= "tokyonight"@);
        },
        Preset::TokyoNightStorm => {
            assert(preset_key(p) =~= "tokyonightstorm"@);
        },
        Preset::TokyoNightLight => {
            assert(preset_key(p) =~= "tokyonightlight"@);
        },
        Preset::KanagawaWave => {
            assert(preset_key(p) =~= "kanagawawave"@);
        },
        Preset::KanagawaDragon => {
            assert(preset_key(p) =~= "kanagawadragon"@);
        },
        Preset::KanagawaLotus => {
            assert(preset_key(p) =~= "kanagawalotus"@);
        },
        Preset::Moonfly => {
            assert(preset_key(p) =~= "moonfly"@);
        },
        Preset::Nightfly => {
            assert(preset_key(p) =~= "nightfly"@);
        },
        Preset::Oxocarbon => {
            assert(preset_key(p) =~= "oxocarbon"@);
        },
        Preset::Ferra => {
            assert(preset_key(p) =~= "ferra"@);
        },
    }
}

/// A key keeps every character of the name but `-`, `_` and spaces, in
/// order.
pub proof fn lemma_key_keeps_other_chars(s: Seq<char>)
    ensures
        remove_separators(s) == s.filter(|c: char| c != '-' && c != '_' && c != ' '),
    decreases s.len(),
{
    reveal_with_fuel(Seq::filter, 1);
    if s.len() > 0 {
        lemma_key_keeps_other_chars(s.drop_last());
    }
}

} // verus!
