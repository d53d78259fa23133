use vstd::prelude::*;

use crate::color::{Rgba, color_of_text, color_text_sliceable, parse_color, color_to_hex, hex_text};
use crate::ini::{IniConfig, IniModel, IniSection};
use crate::color::is_color_text_sliceable;
use crate::text::{
    replace_all, replace_all_exec, str_to_chars, chars_to_string, u64_of_text, parse_u64,
    push_str, push_chars, push_decimal, decimal, bool_text,
};

verus! {

/// An annotation color preset. The line width is of the type `W` that the caller
/// keeps widths in; the library only stores and hands it on.
pub struct AnnotationPreset<W> {
    pub name: String,
    pub rectangle_color: Rgba,
    pub arrow_color: Rgba,
    pub text_color: Rgba,
    pub line_width: W,
}

/// What a preset holds.
pub struct PresetView<W> {
    pub name: Seq<char>,
    pub rectangle_color: Rgba,
    pub arrow_color: Rgba,
    pub text_color: Rgba,
    pub line_width: W,
}

impl<W: Copy> View for AnnotationPreset<W> {
    type V = PresetView<W>;

    open spec fn view(&self) -> PresetView<W> {
        PresetView {
            name: self.name@,
            rectangle_color: self.rectangle_color,
            arrow_color: self.arrow_color,
            text_color: self.text_color,
            line_width: self.line_width,
        }
    }
}

/// A preset with the given name and colors.
pub open spec fn preset_view<W>(name: Seq<char>, rect: Rgba, arrow: Rgba, text: Rgba, w: W) -> PresetView<W> {
    PresetView { name, rectangle_color: rect, arrow_color: arrow, text_color: text, line_width: w }
}

impl<W: Copy> AnnotationPreset<W> {
    /// Light red rectangles, light green arrows, white text.
    pub fn dark_mode(line_width: W) -> (r: Self)
        ensures
            r@ == preset_view("Dark Mode"@, Rgba([255, 100, 100, 255]), Rgba([100, 255, 100, 255]),
                Rgba([255, 255, 255, 255]), line_width),
    {
        AnnotationPreset {
            name: String::from_str("Dark Mode"),
            rectangle_color: Rgba([255, 100, 100, 255]),
            arrow_color: Rgba([100, 255, 100, 255]),
            text_color: Rgba([255, 255, 255, 255]),
            line_width,
        }
    }

    /// Dark red rectangles, dark green arrows, black text.
    pub fn light_mode(line_width: W) -> (r: Self)
        ensures
            r@ == preset_view("Light Mode"@, Rgba([200, 0, 0, 255]), Rgba([0, 150, 0, 255]),
                Rgba([0, 0, 0, 255]), line_width),
    {
        AnnotationPreset {
            name: String::from_str("Light Mode"),
            rectangle_color: Rgba([200, 0, 0, 255]),
            arrow_color: Rgba([0, 150, 0, 255]),
            text_color: Rgba([0, 0, 0, 255]),
            line_width,
        }
    }

    /// Orange rectangles, deep sky blue arrows, indigo text.
    pub fn custom_1(line_width: W) -> (r: Self)
        ensures
            r@ == preset_view("Custom 1"@, Rgba([255, 165, 0, 255]), Rgba([0, 191, 255, 255]),
                Rgba([75, 0, 130, 255]), line_width),
    {
        AnnotationPreset {
            name: String::from_str("Custom 1"),
            rectangle_color: Rgba([255, 165, 0, 255]),
            arrow_color: Rgba([0, 191, 255, 255]),
            text_color: Rgba([75, 0, 130, 255]),
            line_width,
        }
    }

    /// Deep pink rectangles, lime green arrows, dodger blue text.
    pub fn custom_2(line_width: W) -> (r: Self)
        ensures
            r@ == preset_view("Custom 2"@, Rgba([255, 20, 147, 255]), Rgba([50, 205, 50, 255]),
                Rgba([30, 144, 255, 255]), line_width),
    {
        AnnotationPreset {
            name: String::from_str("Custom 2"),
            rectangle_color: Rgba([255, 20, 147, 255]),
            arrow_color: Rgba([50, 205, 50, 255]),
            text_color: Rgba([30, 144, 255, 255]),
            line_width,
        }
    }
}

/// The values of the environment variables that paths may name.
pub struct EnvVars {
    pub userprofile: Option<String>,
    pub appdata: Option<String>,
}

/// What `EnvVars` holds.
pub struct EnvView {
    pub userprofile: Option<Seq<char>>,
    pub appdata: Option<Seq<char>>,
}

impl View for EnvVars {
    type V = EnvView;

    open spec fn view(&self) -> EnvView {
        EnvView {
            userprofile: match self.userprofile {
                Some(s) => Some(s@),
                None => None,
            },
            appdata: match self.appdata {
                Some(s) => Some(s@),
                None => None,
            },
        }
    }
}

/// `path` with `%USERPROFILE%` and then `%APPDATA%` replaced by the values of the
/// variables that are set.
pub open spec fn expanded_path(path: Seq<char>, env: EnvView) -> Seq<char> {
    let p1 = match env.userprofile {
        Some(u) => replace_all(path, "%USERPROFILE%"@, u),
        None => path,
    };
    match env.appdata {
        Some(a) => replace_all(p1, "%APPDATA%"@, a),
        None => p1,
    }
}

fn replace_in(chars: &Vec<char>, pat: &str, rep: &String) -> (r: Vec<char>)
    requires
        pat@.len() > 0,
    ensures
        r@ == replace_all(chars@, pat@, rep@),
{
    let p = str_to_chars(pat);
    let q = str_to_chars(rep.as_str());
    replace_all_exec(chars, &p, &q)
}

/// Expands the environment variables `%USERPROFILE%` and `%APPDATA%` in a path.
pub fn expand_env_vars(path: &str, env: &EnvVars) -> (r: String)
    ensures
        r@ == expanded_path(path@, env@),
{
    proof {
        reveal_strlit("%USERPROFILE%");
        reveal_strlit("%APPDATA%");
    }
    let mut chars = str_to_chars(path);
    match &env.userprofile {
        Some(u) => {
            chars = replace_in(&chars, "%USERPROFILE%", u);
        },
        None => {},
    }
    match &env.appdata {
        Some(a) => {
            chars = replace_in(&chars, "%APPDATA%", a);
        },
        None => {},
    }
    chars_to_string(chars.as_slice())
}

/// Application settings; presets keep their line widths as `W`.
pub struct Settings<W> {
    pub presets: Vec<AnnotationPreset<W>>,
    pub current_preset: usize,
    pub auto_start: bool,
    pub show_tray_icon: bool,
    pub output_path: String,
    pub file_pattern: String,
    pub hotkey_enabled: bool,
    pub cleanup_old_files: bool,
    pub max_file_age_hours: u64,
}

/// What settings hold.
pub struct SettingsView<W> {
    pub presets: Seq<PresetView<W>>,
    pub current_preset: nat,
    pub auto_start: bool,
    pub show_tray_icon: bool,
    pub output_path: Seq<char>,
    pub file_pattern: Seq<char>,
    pub hotkey_enabled: bool,
    pub cleanup_old_files: bool,
    pub max_file_age_hours: u64,
}

impl<W: Copy> View for Settings<W> {
    type V = SettingsView<W>;

    open spec fn view(&self) -> SettingsView<W> {
        SettingsView {
            presets: self.presets@.map_values(|p: AnnotationPreset<W>| p@),
            current_preset: self.current_preset as nat,
            auto_start: self.auto_start,
            show_tray_icon: self.show_tray_icon,
            output_path: self.output_path@,
            file_pattern: self.file_pattern@,
            hotkey_enabled: self.hotkey_enabled,
            cleanup_old_files: self.cleanup_old_files,
            max_file_age_hours: self.max_file_age_hours,
        }
    }
}

/// The INI section that holds preset `i`.
pub open spec fn preset_section(i: int) -> Seq<char> {
    if i == 0 {
        "DarkMode"@
    } else if i == 1 {
        "LightMode"@
    } else if i == 2 {
        "Custom1"@
    } else {
        "Custom2"@
    }
}

/// The value of `key` in section `sec`, if both are there.
pub open spec fn ini_value(m: IniModel, sec: Seq<char>, key: Seq<char>) -> Option<Seq<char>> {
    if m.contains_key(sec) && m[sec].contains_key(key) {
        Some(m[sec][key])
    } else {
        None
    }
}

/// A color setting: the color its text names, else the old color.
pub open spec fn color_setting(old: Rgba, v: Option<Seq<char>>) -> Rgba {
    match v {
        Some(t) => match color_of_text(t) {
            Some(c) => c,
            None => old,
        },
        None => old,
    }
}

/// A flag setting: whether its text is exactly `true`, else the old flag.
pub open spec fn flag_setting(old: bool, v: Option<Seq<char>>) -> bool {
    match v {
        Some(t) => t == "true"@,
        None => old,
    }
}

/// A number setting: the number its text holds, else the old number.
pub open spec fn number_setting(old: u64, v: Option<Seq<char>>) -> u64 {
    match v {
        Some(t) => match u64_of_text(t) {
            Some(n) => n,
            None => old,
        },
        None => old,
    }
}

/// A line width setting: the width read from its text, else the old width.
pub open spec fn width_setting<W>(old: W, v: Option<Seq<char>>, parsed: Option<W>) -> W {
    match (v, parsed) {
        (Some(_), Some(w)) => w,
        _ => old,
    }
}

/// Preset `i` after reading its section of `m`; `parsed` is what reading its
/// `line_width` text gave.
pub open spec fn applied_preset<W>(p: PresetView<W>, m: IniModel, i: int, parsed: Option<W>) -> PresetView<W> {
    let sec = preset_section(i);
    PresetView {
        name: p.name,
        rectangle_color: color_setting(p.rectangle_color, ini_value(m, sec, "rectangle"@)),
        arrow_color: color_setting(p.arrow_color, ini_value(m, sec, "arrow"@)),
        text_color: color_setting(p.text_color, ini_value(m, sec, "text"@)),
        line_width: width_setting(p.line_width, ini_value(m, sec, "line_width"@), parsed),
    }
}

/// The settings after reading `m` over `s`: the first four presets from their
/// sections, `[Output]` and `[Behavior]`; `parsed[i]` is what reading the line
/// width text of preset `i` gave.
pub open spec fn applied_settings<W>(s: SettingsView<W>, m: IniModel, env: EnvView, parsed: Seq<Option<W>>) -> SettingsView<W> {
    SettingsView {
        presets: Seq::new(
            s.presets.len(),
            |i: int| if i < 4 { applied_preset(s.presets[i], m, i, parsed[i]) } else { s.presets[i] },
        ),
        current_preset: s.current_preset,
        auto_start: flag_setting(s.auto_start, ini_value(m, "Behavior"@, "AutoStart"@)),
        show_tray_icon: flag_setting(s.show_tray_icon, ini_value(m, "Behavior"@, "ShowTrayIcon"@)),
        output_path: match ini_value(m, "Output"@, "DefaultPath"@) {
            Some(p) => expanded_path(p, env),
            None => s.output_path,
        },
        file_pattern: match ini_value(m, "Output"@, "FilePattern"@) {
            Some(p) => p,
            None => s.file_pattern,
        },
        hotkey_enabled: flag_setting(s.hotkey_enabled, ini_value(m, "Behavior"@, "HotkeyEnabled"@)),
        cleanup_old_files: flag_setting(s.cleanup_old_files, ini_value(m, "Behavior"@, "CleanupOldFiles"@)),
        max_file_age_hours: number_setting(s.max_file_age_hours, ini_value(m, "Behavior"@, "MaxFileAgeHours"@)),
    }
}

/// Whether reading `m` into settings with `n` presets can go through: every preset
/// section names a preset that exists, and every color text can be sliced.
pub open spec fn config_readable(m: IniModel, n: nat) -> bool {
    forall|i: int| 0 <= i < 4 ==> {
        &&& m.contains_key(#[trigger] preset_section(i)) ==> i < n
        &&& (ini_value(m, preset_section(i), "rectangle"@) matches Some(t) ==> color_text_sliceable(t))
        &&& (ini_value(m, preset_section(i), "arrow"@) matches Some(t) ==> color_text_sliceable(t))
        &&& (ini_value(m, preset_section(i), "text"@) matches Some(t) ==> color_text_sliceable(t))
    }
}

/// Lines joined with a newline after each.
pub open spec fn join_lines(lines: Seq<Seq<char>>) -> Seq<char>
    decreases lines.len(),
{
    if lines.len() == 0 {
        Seq::empty()
    } else {
        lines[0].push('\n') + join_lines(lines.drop_first())
    }
}

/// The line `key=value`.
pub open spec fn kv_line(key: Seq<char>, value: Seq<char>) -> Seq<char> {
    key + seq!['='] + value
}

/// The line `[name]`.
pub open spec fn header_line(name: Seq<char>) -> Seq<char> {
    seq!['['] + name + seq![']']
}

/// The lines that store preset `i`, whose line width is written as `width`.
pub open spec fn preset_lines<W>(i: int, p: PresetView<W>, width: Seq<char>) -> Seq<Seq<char>> {
    seq![
        header_line(preset_section(i)),
        kv_line("rectangle"@, hex_text(p.rectangle_color)),
        kv_line("arrow"@, hex_text(p.arrow_color)),
        kv_line("text"@, hex_text(p.text_color)),
        kv_line("line_width"@, width),
        Seq::empty(),
    ]
}

/// The lines of the first `n` presets.
pub open spec fn presets_lines<W>(presets: Seq<PresetView<W>>, widths: Seq<Seq<char>>, n: nat) -> Seq<Seq<char>>
    decreases n,
{
    if n == 0 {
        Seq::empty()
    } else {
        presets_lines(presets, widths, (n - 1) as nat) + preset_lines(
            n - 1,
            presets[n - 1],
            widths[n - 1],
        )
    }
}

/// The number of presets that the settings file stores.
pub open spec fn stored_presets(n: nat) -> nat {
    if n < 4 { n } else { 4 }
}

/// The lines of the `[Output]` and `[Behavior]` sections.
pub open spec fn general_lines<W>(s: SettingsView<W>) -> Seq<Seq<char>> {
    seq![
        header_line("Output"@),
        kv_line("DefaultPath"@, s.output_path),
        kv_line("FilePattern"@, s.file_pattern),
        Seq::empty(),
        header_line("Behavior"@),
        kv_line("AutoStart"@, bool_text(s.auto_start)),
        kv_line("ShowTrayIcon"@, bool_text(s.show_tray_icon)),
        kv_line("HotkeyEnabled"@, bool_text(s.hotkey_enabled)),
        kv_line("CleanupOldFiles"@, bool_text(s.cleanup_old_files)),
        kv_line("MaxFileAgeHours"@, decimal(s.max_file_age_hours as nat)),
    ]
}

/// The settings file for `s`, where `widths[i]` is the text of preset `i`'s width.
pub open spec fn settings_text<W>(s: SettingsView<W>, widths: Seq<Seq<char>>) -> Seq<char> {
    join_lines(presets_lines(s.presets, widths, stored_presets(s.presets.len())) + general_lines(s))
}

proof fn lemma_join_push(lines: Seq<Seq<char>>, l: Seq<char>)
    ensures
        join_lines(lines.push(l)) == join_lines(lines) + l.push('\n'),
    decreases lines.len(),
{
    if lines.len() == 0 {
        assert(lines.push(l).drop_first() =~= Seq::<Seq<char>>::empty());
        assert(join_lines(Seq::<Seq<char>>::empty()) == Seq::<char>::empty());
        assert(join_lines(lines.push(l)) =~= join_lines(lines) + l.push('\n'));
    } else {
        assert(lines.push(l).drop_first() =~= lines.drop_first().push(l));
        lemma_join_push(lines.drop_first(), l);
        assert(join_lines(lines.push(l)) =~= join_lines(lines) + l.push('\n'));
    }
}

/// Appends the line `key=value` to `out`, where `out` holds the joined `lines`.
fn push_kv_line(out: &mut Vec<char>, key: &str, value: &Vec<char>, Ghost(lines): Ghost<Seq<Seq<char>>>)
    requires
        old(out)@ == join_lines(lines),
    ensures
        final(out)@ == join_lines(lines.push(kv_line(key@, value@))),
{
    push_str(out, key);
    out.push('=');
    push_chars(out, value);
    out.push('\n');
    proof {
        lemma_join_push(lines, kv_line(key@, value@));
        assert(final(out)@ =~= join_lines(lines) + kv_line(key@, value@).push('\n'));
    }
}

/// Appends the line `[name]` to `out`, where `out` holds the joined `lines`.
fn push_header_line(out: &mut Vec<char>, name: &str, Ghost(lines): Ghost<Seq<Seq<char>>>)
    requires
        old(out)@ == join_lines(lines),
    ensures
        final(out)@ == join_lines(lines.push(header_line(name@))),
{
    out.push('[');
    push_str(out, name);
    out.push(']');
    out.push('\n');
    proof {
        lemma_join_push(lines, header_line(name@));
        assert(final(out)@ =~= join_lines(lines) + header_line(name@).push('\n'));
    }
}

fn bool_chars(b: bool) -> (r: Vec<char>)
    ensures
        r@ == bool_text(b),
{
    let r = if b { str_to_chars("true") } else { str_to_chars("false") };
    proof {
        reveal_strlit("true");
        reveal_strlit("false");
    }
    r
}

impl<W: Copy> Settings<W> {
    /// Defaults: the four presets with the given widths, the first selected,
    /// autostart off, tray icon, hotkey and cleanup on, files kept 24 hours, named
    /// `screenshot_{timestamp}.png` under `output_path`.
    pub fn new_default(output_path: String, dark: W, light: W, custom1: W, custom2: W) -> (r: Self)
        ensures
            r@.presets.len() == 4,
            r@.presets[0] == preset_view("Dark Mode"@, Rgba([255, 100, 100, 255]), Rgba([100, 255, 100, 255]),
                Rgba([255, 255, 255, 255]), dark),
            r@.presets[1] == preset_view("Light Mode"@, Rgba([200, 0, 0, 255]), Rgba([0, 150, 0, 255]),
                Rgba([0, 0, 0, 255]), light),
            r@.presets[2] == preset_view("Custom 1"@, Rgba([255, 165, 0, 255]), Rgba([0, 191, 255, 255]),
                Rgba([75, 0, 130, 255]), custom1),
            r@.presets[3] == preset_view("Custom 2"@, Rgba([255, 20, 147, 255]), Rgba([50, 205, 50, 255]),
                Rgba([30, 144, 255, 255]), custom2),
            r@.current_preset == 0,
            !r@.auto_start,
            r@.show_tray_icon,
            r@.output_path == output_path@,
            r@.file_pattern == "screenshot_{timestamp}.png"@,
            r@.hotkey_enabled,
            r@.cleanup_old_files,
            r@.max_file_age_hours == 24,
    {
        let mut presets: Vec<AnnotationPreset<W>> = Vec::new();
        presets.push(AnnotationPreset::dark_mode(dark));
        presets.push(AnnotationPreset::light_mode(light));
        presets.push(AnnotationPreset::custom_1(custom1));
        presets.push(AnnotationPreset::custom_2(custom2));
        Settings {
            presets,
            current_preset: 0,
            auto_start: false,
            show_tray_icon: true,
            output_path,
            file_pattern: String::from_str("screenshot_{timestamp}.png"),
            hotkey_enabled: true,
            cleanup_old_files: true,
            max_file_age_hours: 24,
        }
    }

    /// The selected preset, or the last one when the selection is past the end.
    pub fn get_current_preset(&self) -> (r: &AnnotationPreset<W>)
        requires
            self.presets.len() > 0,
        ensures
            r@ == self@.presets[if self.current_preset < self.presets.len() {
                self.current_preset as int
            } else {
                self.presets.len() - 1
            }],
    {
        let last = self.presets.len() - 1;
        let i = if self.current_preset < last { self.current_preset } else { last };
        &self.presets[i]
    }

    /// Selects preset `index` when it exists; otherwise nothing changes.
    pub fn set_current_preset(&mut self, index: usize)
        ensures
            final(self)@ == (if index < old(self).presets.len() {
                SettingsView { current_preset: index as nat, ..old(self)@ }
            } else {
                old(self)@
            }),
    {
        if index < self.presets.len() {
            self.current_preset = index;
        }
    }

    /// Replaces the given colors and width of preset `index`, when it exists.
    pub fn update_preset(
        &mut self,
        index: usize,
        rectangle_color: Option<Rgba>,
        arrow_color: Option<Rgba>,
        text_color: Option<Rgba>,
        line_width: Option<W>,
    )
        ensures
            final(self)@ == (if index < old(self).presets.len() {
                let p = old(self)@.presets[index as int];
                SettingsView {
                    presets: old(self)@.presets.update(
                        index as int,
                        PresetView {
                            name: p.name,
                            rectangle_color: match rectangle_color {
                                Some(c) => c,
                                None => p.rectangle_color,
                            },
                            arrow_color: match arrow_color {
                                Some(c) => c,
                                None => p.arrow_color,
                            },
                            text_color: match text_color {
                                Some(c) => c,
                                None => p.text_color,
                            },
                            line_width: match line_width {
                                Some(w) => w,
                                None => p.line_width,
                            },
                        },
                    ),
                    ..old(self)@
                }
            } else {
                old(self)@
            }),
    {
        if index < self.presets.len() {
            let mut p = self.presets.remove(index);
            if let Some(c) = rectangle_color {
                p.rectangle_color = c;
            }
            if let Some(c) = arrow_color {
                p.arrow_color = c;
            }
            if let Some(c) = text_color {
                p.text_color = c;
            }
            if let Some(w) = line_width {
                p.line_width = w;
            }
            self.presets.insert(index, p);
            assert(self@.presets =~= old(self)@.presets.update(index as int, self@.presets[index as int]));
        }
    }

    /// Reads a parsed settings file as `apply_config` does when it can be read
    /// (`config_readable`), and says so; otherwise leaves the settings as they are
    /// and returns `false`.
    pub fn apply_config_checked<F: Fn(&str) -> Option<W>>(&mut self, config: &IniConfig, env: &EnvVars, parse_width: F) -> (applied: bool)
        requires
            config.wf(),
            forall|t: &str| parse_width.requires((t,)),
        ensures
            applied == config_readable(config@, old(self).presets.len() as nat),
            !applied ==> final(self)@ == old(self)@,
            applied ==> exists|parsed: Seq<Option<W>>| {
                &&& parsed.len() == 4
                &&& forall|i: int| 0 <= i < 4 ==> width_read(
                    parse_width,
                    #[trigger] ini_value(config@, preset_section(i), "line_width"@),
                    parsed[i],
                )
                &&& final(self)@ == applied_settings(old(self)@, config@, env@, parsed)
            },
    {
        if is_config_readable(config, self.presets.len()) {
            self.apply_config(config, env, parse_width);
            true
        } else {
            false
        }
    }

    /// Reads the presets, `[Output]` and `[Behavior]` from a parsed settings file
    /// over these settings. Each color text that names a color replaces its color, a
    /// `DefaultPath` is taken with its environment variables expanded, a flag is on
    /// when its text is `true`, a number replaces the old one when it parses; a line
    /// width text goes through `parse_width` and replaces the width when that gives one.
    pub fn apply_config<F: Fn(&str) -> Option<W>>(&mut self, config: &IniConfig, env: &EnvVars, parse_width: F)
        requires
            config.wf(),
            config_readable(config@, old(self).presets.len() as nat),
            forall|t: &str| parse_width.requires((t,)),
        ensures
            exists|parsed: Seq<Option<W>>| {
                &&& parsed.len() == 4
                &&& forall|i: int| 0 <= i < 4 ==> width_read(
                    parse_width,
                    #[trigger] ini_value(config@, preset_section(i), "line_width"@),
                    parsed[i],
                )
                &&& final(self)@ == applied_settings(old(self)@, config@, env@, parsed)
            },
    {
        let ghost m = config@;
        let ghost mut parsed: Seq<Option<W>> = seq![None, None, None, None];
        assert(forall|j: int| 0 <= j < 4 ==> #[trigger] parsed[j] is None);
        let ghost s0 = self@;
        let mut i: usize = 0;
        assert(self@.presets =~= Seq::new(
            s0.presets.len(),
            |j: int| if j < 0 { applied_preset(s0.presets[j], m, j, parsed[j]) } else { s0.presets[j] },
        ));
        while i < 4
            invariant
                i <= 4,
                self.presets.len() == s0.presets.len(),
                config.wf(),
                m == config@,
                config_readable(m, s0.presets.len() as nat),
                forall|t: &str| parse_width.requires((t,)),
                parsed.len() == 4,
                forall|j: int| i <= j < 4 ==> #[trigger] parsed[j] is None,
                forall|j: int| 0 <= j < i ==> width_read(
                    parse_width,
                    #[trigger] ini_value(m, preset_section(j), "line_width"@),
                    parsed[j],
                ),
                self@ == (SettingsView {
                    presets: Seq::new(
                        s0.presets.len(),
                        |j: int| if j < i { applied_preset(s0.presets[j], m, j, parsed[j]) } else { s0.presets[j] },
                    ),
                    ..s0
                }),
            decreases 4 - i,
        {
            let ghost parsed0 = parsed;
            let ghost view0 = self@;
            let name = preset_section_name(i);
            match config.get(name) {
                Some(sec) => {
                    assert(m.contains_key(preset_section(i as int)));
                    assert(i < s0.presets.len());
                    let ghost pv = s0.presets[i as int];
                    assert(self@.presets[i as int] == pv);
                    assert(self.presets@[i as int]@ == pv);
                    let ghost before = self.presets@;
                    let mut p = self.presets.remove(i);
                    assert(p == before[i as int]);
                    assert(p@ == pv);
                    match sec.get("rectangle") {
                        Some(t) => {
                            match parse_color(t.as_str()) {
                                Some(c) => { p.rectangle_color = c; },
                                None => {},
                            }
                        },
                        None => {},
                    }
                    match sec.get("arrow") {
                        Some(t) => {
                            match parse_color(t.as_str()) {
                                Some(c) => { p.arrow_color = c; },
                                None => {},
                            }
                        },
                        None => {},
                    }
                    match sec.get("text") {
                        Some(t) => {
                            match parse_color(t.as_str()) {
                                Some(c) => { p.text_color = c; },
                                None => {},
                            }
                        },
                        None => {},
                    }
                    match sec.get("line_width") {
                        Some(t) => {
                            let ts = t.as_str();
                            let r = parse_width(ts);
                            proof {
                                parsed = parsed.update(i as int, r);
                                assert(ts@ == t@);
                                assert(width_read(
                                    parse_width,
                                    ini_value(m, preset_section(i as int), "line_width"@),
                                    parsed[i as int],
                                ));
                            }
                            match r {
                                Some(w) => { p.line_width = w; },
                                None => {},
                            }
                        },
                        None => {},
                    }
                    assert(p@ == applied_preset(pv, m, i as int, parsed[i as int]));
                    self.presets.insert(i, p);
                    assert(self.presets@ =~= before.update(i as int, p));
                    assert(width_read(
                        parse_width,
                        ini_value(m, preset_section(i as int), "line_width"@),
                        parsed[i as int],
                    ));
                },
                None => {
                    assert(!m.contains_key(preset_section(i as int)));
                    assert(width_read(
                        parse_width,
                        ini_value(m, preset_section(i as int), "line_width"@),
                        parsed[i as int],
                    ));
                    proof {
                        if (i as int) < s0.presets.len() {
                            assert(applied_preset(s0.presets[i as int], m, i as int, parsed[i as int]) == s0.presets[i as int]);
                        }
                    }
                },
            }
            let ghost target = Seq::new(
                s0.presets.len(),
                |j: int| if j < i + 1 { applied_preset(s0.presets[j], m, j, parsed[j]) } else { s0.presets[j] },
            );
            assert forall|j: int| 0 <= j < s0.presets.len() implies #[trigger] self@.presets[j] == target[j] by {
                if j != i {
                    if j < 4 {
                        assert(parsed[j] == parsed0[j]);
                    }
                    assert(self@.presets[j] == view0.presets[j]);
                }
            }
            assert(self@.presets =~= target);
            i = i + 1;
        }
        match config.get("Output") {
            Some(sec) => {
                match sec.get("DefaultPath") {
                    Some(p) => { self.output_path = expand_env_vars(p.as_str(), env); },
                    None => {},
                }
                match sec.get("FilePattern") {
                    Some(p) => { self.file_pattern = p.clone(); },
                    None => {},
                }
            },
            None => {},
        }
        match config.get("Behavior") {
            Some(sec) => {
                let yes = String::from_str("true");
                match sec.get("AutoStart") {
                    Some(v) => { self.auto_start = *v == yes; },
                    None => {},
                }
                match sec.get("ShowTrayIcon") {
                    Some(v) => { self.show_tray_icon = *v == yes; },
                    None => {},
                }
                match sec.get("HotkeyEnabled") {
                    Some(v) => { self.hotkey_enabled = *v == yes; },
                    None => {},
                }
                match sec.get("CleanupOldFiles") {
                    Some(v) => { self.cleanup_old_files = *v == yes; },
                    None => {},
                }
                match sec.get("MaxFileAgeHours") {
                    Some(v) => {
                        match parse_u64(v.as_str()) {
                            Some(h) => { self.max_file_age_hours = h; },
                            None => {},
                        }
                    },
                    None => {},
                }
            },
            None => {},
        }
        assert(self@ =~= applied_settings(s0, m, env@, parsed));
    }
}

/// What reading a line width text `v` with `f` gave: `r` is a result of `f` on the
/// text when there is one, and nothing otherwise.
pub open spec fn width_read<W, F: Fn(&str) -> Option<W>>(f: F, v: Option<Seq<char>>, r: Option<W>) -> bool {
    match v {
        Some(t) => exists|ts: &str| ts@ == t && #[trigger] f.ensures((ts,), r),
        None => r is None,
    }
}

/// What `config_readable` asks of preset `i`.
pub open spec fn preset_readable(m: IniModel, n: nat, i: int) -> bool {
    &&& m.contains_key(preset_section(i)) ==> i < n
    &&& (ini_value(m, preset_section(i), "rectangle"@) matches Some(t) ==> color_text_sliceable(t))
    &&& (ini_value(m, preset_section(i), "arrow"@) matches Some(t) ==> color_text_sliceable(t))
    &&& (ini_value(m, preset_section(i), "text"@) matches Some(t) ==> color_text_sliceable(t))
}

/// Whether the color text under `key`, if the section has one, can be read.
fn color_value_readable(sec: &IniSection, key: &str) -> (r: bool)
    requires
        sec.wf(),
    ensures
        r == (sec@.contains_key(key@) ==> color_text_sliceable(sec@[key@])),
{
    match sec.get(key) {
        Some(t) => is_color_text_sliceable(t.as_str()),
        None => true,
    }
}

/// Whether a parsed settings file can be read into settings with `n` presets:
/// every preset section names an existing preset and every color text can be read.
pub fn is_config_readable(config: &IniConfig, n: usize) -> (r: bool)
    requires
        config.wf(),
    ensures
        r == config_readable(config@, n as nat),
{
    let ghost m = config@;
    let mut i: usize = 0;
    while i < 4
        invariant
            i <= 4,
            config.wf(),
            m == config@,
            forall|j: int| 0 <= j < i ==> #[trigger] preset_readable(m, n as nat, j),
        decreases 4 - i,
    {
        let name = preset_section_name(i);
        match config.get(name) {
            Some(sec) => {
                let ok = i < n && color_value_readable(sec, "rectangle") && color_value_readable(sec, "arrow")
                    && color_value_readable(sec, "text");
                if !ok {
                    assert(!preset_readable(m, n as nat, i as int));
                    assert(preset_section(i as int) == preset_section(i as int));
                    return false;
                }
                assert(preset_readable(m, n as nat, i as int));
            },
            None => {
                assert(preset_readable(m, n as nat, i as int));
            },
        }
        i = i + 1;
    }
    assert forall|j: int| 0 <= j < 4 implies {
        &&& m.contains_key(#[trigger] preset_section(j)) ==> j < n
        &&& (ini_value(m, preset_section(j), "rectangle"@) matches Some(t) ==> color_text_sliceable(t))
        &&& (ini_value(m, preset_section(j), "arrow"@) matches Some(t) ==> color_text_sliceable(t))
        &&& (ini_value(m, preset_section(j), "text"@) matches Some(t) ==> color_text_sliceable(t))
    } by {
        assert(preset_readable(m, n as nat, j));
    }
    true
}

/// The name of the INI section of preset `i`.
fn preset_section_name(i: usize) -> (r: &'static str)
    requires
        i < 4,
    ensures
        r@ == preset_section(i as int),
{
    if i == 0 {
        "DarkMode"
    } else if i == 1 {
        "LightMode"
    } else if i == 2 {
        "Custom1"
    } else {
        "Custom2"
    }
}

proof fn lemma_presets_lines_prefix<W>(ps: Seq<PresetView<W>>, ws1: Seq<Seq<char>>, ws2: Seq<Seq<char>>, n: nat)
    requires
        forall|j: int| 0 <= j < n ==> ws1[j] == ws2[j],
    ensures
        presets_lines(ps, ws1, n) == presets_lines(ps, ws2, n),
    decreases n,
{
    if n > 0 {
        lemma_presets_lines_prefix(ps, ws1, ws2, (n - 1) as nat);
    }
}

/// Appends an empty line to `out`, where `out` holds the joined `lines`.
fn push_empty_line(out: &mut Vec<char>, Ghost(lines): Ghost<Seq<Seq<char>>>)
    requires
        old(out)@ == join_lines(lines),
    ensures
        final(out)@ == join_lines(lines.push(Seq::empty())),
{
    out.push('\n');
    proof {
        lemma_join_push(lines, Seq::empty());
        assert(final(out)@ =~= join_lines(lines) + Seq::<char>::empty().push('\n'));
    }
}

fn hex_chars(c: &Rgba) -> (r: Vec<char>)
    ensures
        r@ == hex_text(*c),
{
    let h = color_to_hex(c);
    str_to_chars(h.as_str())
}

/// Appends the lines of preset `i` to `out`, where `out` holds the joined `base`.
fn push_preset_lines<W: Copy>(out: &mut Vec<char>, i: usize, p: &AnnotationPreset<W>, width: &Vec<char>, Ghost(base): Ghost<Seq<Seq<char>>>)
    requires
        i < 4,
        old(out)@ == join_lines(base),
    ensures
        final(out)@ == join_lines(base + preset_lines(i as int, p@, width@)),
{
    let name = preset_section_name(i);
    push_header_line(out, name, Ghost(base));
    let ghost l1 = header_line(preset_section(i as int));
    push_kv_line(out, "rectangle", &hex_chars(&p.rectangle_color), Ghost(base.push(l1)));
    let ghost l2 = kv_line("rectangle"@, hex_text(p.rectangle_color));
    push_kv_line(out, "arrow", &hex_chars(&p.arrow_color), Ghost(base.push(l1).push(l2)));
    let ghost l3 = kv_line("arrow"@, hex_text(p.arrow_color));
    push_kv_line(out, "text", &hex_chars(&p.text_color), Ghost(base.push(l1).push(l2).push(l3)));
    let ghost l4 = kv_line("text"@, hex_text(p.text_color));
    push_kv_line(out, "line_width", width, Ghost(base.push(l1).push(l2).push(l3).push(l4)));
    let ghost l5 = kv_line("line_width"@, width@);
    push_empty_line(out, Ghost(base.push(l1).push(l2).push(l3).push(l4).push(l5)));
    assert(base.push(l1).push(l2).push(l3).push(l4).push(l5).push(Seq::empty())
        =~= base + preset_lines(i as int, p@, width@));
}

/// Appends the `[Output]` and `[Behavior]` lines to `out`, where `out` holds the
/// joined `base`.
fn push_general_lines<W: Copy>(out: &mut Vec<char>, s: &Settings<W>, Ghost(base): Ghost<Seq<Seq<char>>>)
    requires
        old(out)@ == join_lines(base),
    ensures
        final(out)@ == join_lines(base + general_lines(s@)),
{
    let ghost sv = s@;
    push_header_line(out, "Output", Ghost(base));
    let ghost g1 = header_line("Output"@);
    let path = str_to_chars(s.output_path.as_str());
    push_kv_line(out, "DefaultPath", &path, Ghost(base.push(g1)));
    let ghost g2 = kv_line("DefaultPath"@, sv.output_path);
    let pattern = str_to_chars(s.file_pattern.as_str());
    push_kv_line(out, "FilePattern", &pattern, Ghost(base.push(g1).push(g2)));
    let ghost g3 = kv_line("FilePattern"@, sv.file_pattern);
    push_empty_line(out, Ghost(base.push(g1).push(g2).push(g3)));
    let ghost b0 = base.push(g1).push(g2).push(g3).push(Seq::empty());
    push_header_line(out, "Behavior", Ghost(b0));
    let ghost g5 = header_line("Behavior"@);
    push_kv_line(out, "AutoStart", &bool_chars(s.auto_start), Ghost(b0.push(g5)));
    let ghost g6 = kv_line("AutoStart"@, bool_text(sv.auto_start));
    push_kv_line(out, "ShowTrayIcon", &bool_chars(s.show_tray_icon), Ghost(b0.push(g5).push(g6)));
    let ghost g7 = kv_line("ShowTrayIcon"@, bool_text(sv.show_tray_icon));
    push_kv_line(out, "HotkeyEnabled", &bool_chars(s.hotkey_enabled), Ghost(b0.push(g5).push(g6).push(g7)));
    let ghost g8 = kv_line("HotkeyEnabled"@, bool_text(sv.hotkey_enabled));
    push_kv_line(out, "CleanupOldFiles", &bool_chars(s.cleanup_old_files), Ghost(b0.push(g5).push(g6).push(g7).push(g8)));
    let ghost g9 = kv_line("CleanupOldFiles"@, bool_text(sv.cleanup_old_files));
    let mut hours: Vec<char> = Vec::new();
    push_decimal(&mut hours, s.max_file_age_hours as u128);
    assert(hours@ =~= decimal(sv.max_file_age_hours as nat));
    push_kv_line(out, "MaxFileAgeHours", &hours, Ghost(b0.push(g5).push(g6).push(g7).push(g8).push(g9)));
    let ghost g10 = kv_line("MaxFileAgeHours"@, decimal(sv.max_file_age_hours as nat));
    assert(b0.push(g5).push(g6).push(g7).push(g8).push(g9).push(g10) =~= base + general_lines(sv));
}

impl<W: Copy> Settings<W> {
    /// The settings file text: for each of the first four presets its section with
    /// the three colors and the line width that `format_width` writes, then
    /// `[Output]` and `[Behavior]`.
    pub fn to_ini_text<F: Fn(&W) -> String>(&self, format_width: F) -> (r: String)
        requires
            forall|w: &W| format_width.requires((w,)),
        ensures
            exists|ws: Seq<Seq<char>>| {
                &&& ws.len() == stored_presets(self.presets.len() as nat)
                &&& forall|i: int| 0 <= i < ws.len() ==> width_written(
                    format_width,
                    self@.presets[i].line_width,
                    #[trigger] ws[i],
                )
                &&& r@ == settings_text(self@, ws)
            },
    {
        let ghost sv = self@;
        let n: usize = if self.presets.len() < 4 { self.presets.len() } else { 4 };
        let mut out: Vec<char> = Vec::new();
        let ghost mut ws: Seq<Seq<char>> = Seq::empty();
        let mut i: usize = 0;
        assert(out@ =~= join_lines(presets_lines(sv.presets, ws, 0)));
        while i < n
            invariant
                i <= n,
                n == stored_presets(self.presets.len() as nat),
                n <= self.presets.len(),
                sv == self@,
                forall|w: &W| format_width.requires((w,)),
                ws.len() == i,
                forall|j: int| 0 <= j < i ==> width_written(format_width, sv.presets[j].line_width, #[trigger] ws[j]),
                out@ == join_lines(presets_lines(sv.presets, ws, i as nat)),
            decreases n - i,
        {
            let p = &self.presets[i];
            assert(p@ == sv.presets[i as int]);
            let ghost base = presets_lines(sv.presets, ws, i as nat);
            let wt = format_width(&p.line_width);
            let wchars = str_to_chars(wt.as_str());
            push_preset_lines(&mut out, i, p, &wchars, Ghost(base));
            let ghost ws2 = ws.push(wt@);
            proof {
                assert(width_written(format_width, sv.presets[i as int].line_width, ws2[i as int]));
                lemma_presets_lines_prefix(sv.presets, ws, ws2, i as nat);
                assert(base + preset_lines(i as int, sv.presets[i as int], wt@)
                    =~= presets_lines(sv.presets, ws2, (i + 1) as nat));
                assert forall|j: int| 0 <= j < i + 1 implies width_written(format_width, sv.presets[j].line_width, #[trigger] ws2[j]) by {
                    if j < i {
                        assert(ws2[j] == ws[j]);
                    }
                }
                ws = ws2;
            }
            i = i + 1;
        }
        let ghost base = presets_lines(sv.presets, ws, n as nat);
        push_general_lines(&mut out, self, Ghost(base));
        chars_to_string(out.as_slice())
    }
}

/// `t` is a text that `f` writes for the width `w`.
pub open spec fn width_written<W, F: Fn(&W) -> String>(f: F, w: W, t: Seq<char>) -> bool {
    exists|s: String| s@ == t && #[trigger] f.ensures((&w,), s)
}

} // verus!
