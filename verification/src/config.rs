//! Teral's user configuration.
//!
//! One file, `teral/teral.toml` under the user's configuration directory, carries
//! appearance, file and command preferences. The Settings window writes the same
//! file, so hand-editing and the GUI stay in sync.
//!
//! Reading the file and parsing its TOML happen outside this module; what arrives
//! here is a [`RawConfig`] of optional values, which [`Config::from_raw`] resolves.

use crate::files::scan::SortKey;
use crate::paths::{copy_bytes, join, join_path};
use crate::text::{
    ascii_ci_eq, ascii_lower, decimal, decimal_string, eq_ignore_ascii_case, escape, escaped, push_str,
    signed_decimal, signed_decimal_string,
};
use crate::theme::{
    clamped, color_entries, copy_text, is_color, layout_entries, layout_max, layout_min, opt_text,
    sanitized_color, valid_color, ThemeColors, ThemeLayout,
};
use vstd::prelude::*;

verus! {

/// Configuration format version understood by this build.
pub const CONFIG_VERSION: u32 = 1;

/// Where Teral's colours come from.
#[derive(Debug, Clone, Copy, PartialEq, Eq, Structural)]
pub enum ThemeMode {
    /// Teral's own palette, identical on every desktop.
    Teral,
    /// Follow the desktop's own appearance, including the active Omarchy theme.
    System,
}

/// The key a mode is stored under.
pub open spec fn mode_key(mode: ThemeMode) -> Seq<char> {
    match mode {
        ThemeMode::Teral => "teral"@,
        ThemeMode::System => "system"@,
    }
}

/// The name a mode is shown under.
pub open spec fn mode_label(mode: ThemeMode) -> Seq<char> {
    match mode {
        ThemeMode::Teral => "Teral"@,
        ThemeMode::System => "Follow the system"@,
    }
}

/// The sentence that explains a mode.
pub open spec fn mode_description(mode: ThemeMode) -> Seq<char> {
    match mode {
        ThemeMode::Teral => "Teral's own dark palette, the same on every desktop."@,
        ThemeMode::System => "Take the desktop's colours: the active Omarchy theme under Omarchy, and the GTK theme and accent colour elsewhere."@,
    }
}

/// The mode a stored value names, compared without ASCII case. `omarchy`, once a
/// mode of its own, now means following the system.
pub open spec fn mode_named(value: Seq<char>) -> Option<ThemeMode> {
    if ascii_ci_eq(value, "omarchy"@) {
        Some(ThemeMode::System)
    } else if ascii_ci_eq("teral"@, value) {
        Some(ThemeMode::Teral)
    } else if ascii_ci_eq("system"@, value) {
        Some(ThemeMode::System)
    } else {
        None
    }
}

impl Default for ThemeMode {
    /// Teral's own palette.
    fn default() -> (r: Self)
        ensures
            r == ThemeMode::Teral,
    {
        ThemeMode::Teral
    }
}

impl ThemeMode {
    /// Every mode, in the order the Settings window offers them.
    pub fn all() -> (r: Vec<ThemeMode>)
        ensures
            r@ == seq![ThemeMode::Teral, ThemeMode::System],
    {
        let mut r: Vec<ThemeMode> = Vec::new();
        r.push(ThemeMode::Teral);
        r.push(ThemeMode::System);
        assert(r@ =~= seq![ThemeMode::Teral, ThemeMode::System]);
        r
    }

    /// The key this mode is stored under.
    pub fn key(self) -> (r: &'static str)
        ensures
            r@ == mode_key(self),
    {
        match self {
            ThemeMode::Teral => "teral",
            ThemeMode::System => "system",
        }
    }

    /// The name this mode is shown under.
    pub fn label(self) -> (r: &'static str)
        ensures
            r@ == mode_label(self),
    {
        match self {
            ThemeMode::Teral => "Teral",
            ThemeMode::System => "Follow the system",
        }
    }

    /// The sentence that explains this mode.
    pub fn description(self) -> (r: &'static str)
        ensures
            r@ == mode_description(self),
    {
        match self {
            ThemeMode::Teral => "Teral's own dark palette, the same on every desktop.",
            ThemeMode::System => "Take the desktop's colours: the active Omarchy theme under Omarchy, and the GTK theme and accent colour elsewhere.",
        }
    }

    /// The mode a stored value names, if any.
    pub fn parse(value: &str) -> (r: Option<ThemeMode>)
        ensures
            r == mode_named(value@),
    {
        if eq_ignore_ascii_case(value, "omarchy") {
            return Some(ThemeMode::System);
        }
        if eq_ignore_ascii_case(ThemeMode::Teral.key(), value) {
            return Some(ThemeMode::Teral);
        }
        if eq_ignore_ascii_case(ThemeMode::System.key(), value) {
            return Some(ThemeMode::System);
        }
        None
    }
}

/// Which file view Teral opens with.
#[derive(Debug, Clone, Copy, PartialEq, Eq, Structural)]
pub enum ViewPreference {
    Grid,
    List,
}

/// The key a view is stored under.
pub open spec fn view_key(view: ViewPreference) -> Seq<char> {
    match view {
        ViewPreference::Grid => "grid"@,
        ViewPreference::List => "list"@,
    }
}

/// The view a stored value names, compared without ASCII case.
pub open spec fn view_named(value: Seq<char>) -> Option<ViewPreference> {
    if ascii_ci_eq(value, "grid"@) {
        Some(ViewPreference::Grid)
    } else if ascii_ci_eq(value, "list"@) {
        Some(ViewPreference::List)
    } else {
        None
    }
}

impl Default for ViewPreference {
    /// The grid.
    fn default() -> (r: Self)
        ensures
            r == ViewPreference::Grid,
    {
        ViewPreference::Grid
    }
}

impl ViewPreference {
    /// The key this view is stored under.
    pub fn key(self) -> (r: &'static str)
        ensures
            r@ == view_key(self),
    {
        match self {
            ViewPreference::Grid => "grid",
            ViewPreference::List => "list",
        }
    }

    /// The view a stored value names, if any.
    pub fn parse(value: &str) -> (r: Option<ViewPreference>)
        ensures
            r == view_named(value@),
    {
        if eq_ignore_ascii_case(value, "grid") {
            Some(ViewPreference::Grid)
        } else if eq_ignore_ascii_case(value, "list") {
            Some(ViewPreference::List)
        } else {
            None
        }
    }
}

/// The name a sort key is stored under.
pub open spec fn sort_key_text(key: SortKey) -> Seq<char> {
    match key {
        SortKey::Name => "name"@,
        SortKey::Size => "size"@,
        SortKey::Kind => "type"@,
        SortKey::Modified => "modified"@,
    }
}

/// The sort key a stored value names, compared without ASCII case; `kind` and
/// `time` are accepted as other names for `type` and `modified`.
pub open spec fn sort_key_named(value: Seq<char>) -> Option<SortKey> {
    if ascii_ci_eq(value, "name"@) {
        Some(SortKey::Name)
    } else if ascii_ci_eq(value, "size"@) {
        Some(SortKey::Size)
    } else if ascii_ci_eq(value, "type"@) || ascii_ci_eq(value, "kind"@) {
        Some(SortKey::Kind)
    } else if ascii_ci_eq(value, "modified"@) || ascii_ci_eq(value, "time"@) {
        Some(SortKey::Modified)
    } else {
        None
    }
}

/// The name a sort key is stored under.
pub fn sort_key_name(key: SortKey) -> (r: &'static str)
    ensures
        r@ == sort_key_text(key),
{
    match key {
        SortKey::Name => "name",
        SortKey::Size => "size",
        SortKey::Kind => "type",
        SortKey::Modified => "modified",
    }
}

/// The sort key a stored value names, if any.
pub fn parse_sort_key(value: &str) -> (r: Option<SortKey>)
    ensures
        r == sort_key_named(value@),
{
    if eq_ignore_ascii_case(value, "name") {
        Some(SortKey::Name)
    } else if eq_ignore_ascii_case(value, "size") {
        Some(SortKey::Size)
    } else if eq_ignore_ascii_case(value, "type") || eq_ignore_ascii_case(value, "kind") {
        Some(SortKey::Kind)
    } else if eq_ignore_ascii_case(value, "modified") || eq_ignore_ascii_case(value, "time") {
        Some(SortKey::Modified)
    } else {
        None
    }
}

/// The resolved user configuration.
#[derive(Debug)]
pub struct Config {
    pub mode: ThemeMode,
    /// Overrides the accent colour of whichever palette is in use.
    pub accent: Option<String>,
    /// Advanced per-colour overrides.
    pub colors: ThemeColors,
    pub layout: ThemeLayout,
    pub show_hidden: bool,
    pub folders_first: bool,
    pub sort: SortKey,
    pub descending: bool,
    pub view: ViewPreference,
    /// Whether the information panel is visible when a window opens.
    pub details_visible: bool,
    /// Shell used by Quick Command. Empty means "ask the environment".
    pub shell: String,
    /// Terminal used by Open Terminal Here. Empty means "detect one".
    pub terminal: String,
}

impl Clone for Config {
    /// The same settings.
    fn clone(&self) -> (r: Self)
        ensures
            r.mode == self.mode,
            opt_text(r.accent) == opt_text(self.accent),
            r.colors@ == self.colors@,
            r.layout@ == self.layout@,
            r.show_hidden == self.show_hidden,
            r.folders_first == self.folders_first,
            r.sort == self.sort,
            r.descending == self.descending,
            r.view == self.view,
            r.details_visible == self.details_visible,
            r.shell@ == self.shell@,
            r.terminal@ == self.terminal@,
    {
        Config {
            mode: self.mode,
            accent: copy_text(&self.accent),
            colors: self.colors.clone(),
            layout: self.layout.clone(),
            show_hidden: self.show_hidden,
            folders_first: self.folders_first,
            sort: self.sort,
            descending: self.descending,
            view: self.view,
            details_visible: self.details_visible,
            shell: self.shell.clone(),
            terminal: self.terminal.clone(),
        }
    }
}

impl Default for Config {
    /// Teral's palette, hidden files hidden, folders first, by name, the grid, the
    /// information panel shown, and no shell or terminal chosen.
    fn default() -> (r: Self)
        ensures
            r.mode == ThemeMode::Teral,
            r.accent is None,
            r.colors@ == Seq::new(13, |k: int| None::<Seq<char>>),
            r.layout@ == Seq::new(8, |k: int| None::<i32>),
            !r.show_hidden,
            r.folders_first,
            r.sort == SortKey::Name,
            !r.descending,
            r.view == ViewPreference::Grid,
            r.details_visible,
            r.shell@ == Seq::<char>::empty(),
            r.terminal@ == Seq::<char>::empty(),
    {
        Config {
            mode: ThemeMode::default(),
            accent: None,
            colors: ThemeColors::default(),
            layout: ThemeLayout::default(),
            show_hidden: false,
            folders_first: true,
            sort: SortKey::Name,
            descending: false,
            view: ViewPreference::default(),
            details_visible: true,
            shell: String::new(),
            terminal: String::new(),
        }
    }
}

/// The configuration file as read: every value optional, nothing checked yet.
#[derive(Debug)]
pub struct RawConfig {
    pub mode: Option<String>,
    pub accent: Option<String>,
    pub colors: ThemeColors,
    pub layout: ThemeLayout,
    pub show_hidden: Option<bool>,
    pub folders_first: Option<bool>,
    pub sort: Option<String>,
    pub descending: Option<bool>,
    pub view: Option<String>,
    pub details_visible: Option<bool>,
    pub shell: Option<String>,
    pub terminal: Option<String>,
}

/// A stored value parsed by `parse`, or `default` when it is missing or unreadable.
pub open spec fn named_or<T>(value: Option<Seq<char>>, parse: spec_fn(Seq<char>) -> Option<T>, default: T) -> T {
    match value {
        Some(v) => match parse(v) {
            Some(x) => x,
            None => default,
        },
        None => default,
    }
}

/// A stored flag, or `default` when it is missing.
pub open spec fn flag_or(value: Option<bool>, default: bool) -> bool {
    match value {
        Some(b) => b,
        None => default,
    }
}

/// A stored text, or the empty text when it is missing.
pub open spec fn text_or_empty(value: Option<Seq<char>>) -> Seq<char> {
    match value {
        Some(v) => v,
        None => Seq::empty(),
    }
}

fn flag_value(value: Option<bool>, default: bool) -> (r: bool)
    ensures
        r == flag_or(value, default),
{
    match value {
        Some(b) => b,
        None => default,
    }
}

fn text_value(value: Option<String>) -> (r: String)
    ensures
        r@ == text_or_empty(opt_text(value)),
{
    match value {
        Some(v) => v,
        None => String::new(),
    }
}

impl Config {
    /// Resolve a configuration as read: values that are missing or cannot be read
    /// fall back to the defaults, colours that are not colours are dropped, and the
    /// layout is clamped into the range Teral can lay out.
    pub fn from_raw(raw: RawConfig) -> (c: Config)
        ensures
            c.mode == named_or(opt_text(raw.mode), |v: Seq<char>| mode_named(v), ThemeMode::Teral),
            opt_text(c.accent) == sanitized_color(opt_text(raw.accent)),
            c.colors@ == Seq::new(13, |k: int| sanitized_color(raw.colors@[k])),
            c.layout@ == Seq::new(8, |k: int| clamped(raw.layout@[k], layout_min(k), layout_max(k))),
            c.show_hidden == flag_or(raw.show_hidden, false),
            c.folders_first == flag_or(raw.folders_first, true),
            c.sort == named_or(opt_text(raw.sort), |v: Seq<char>| sort_key_named(v), SortKey::Name),
            c.descending == flag_or(raw.descending, false),
            c.view == named_or(opt_text(raw.view), |v: Seq<char>| view_named(v), ViewPreference::Grid),
            c.details_visible == flag_or(raw.details_visible, true),
            c.shell@ == text_or_empty(opt_text(raw.shell)),
            c.terminal@ == text_or_empty(opt_text(raw.terminal)),
    {
        let mode = match &raw.mode {
            Some(v) => match ThemeMode::parse(v.as_str()) {
                Some(m) => m,
                None => ThemeMode::Teral,
            },
            None => ThemeMode::Teral,
        };
        let sort = match &raw.sort {
            Some(v) => match parse_sort_key(v.as_str()) {
                Some(k) => k,
                None => SortKey::Name,
            },
            None => SortKey::Name,
        };
        let view = match &raw.view {
            Some(v) => match ViewPreference::parse(v.as_str()) {
                Some(p) => p,
                None => ViewPreference::Grid,
            },
            None => ViewPreference::Grid,
        };
        let accent = match raw.accent {
            Some(a) => if valid_color(a.as_str()) {
                Some(a)
            } else {
                None
            },
            None => None,
        };
        let mut colors = raw.colors;
        colors.sanitize();
        let mut layout = raw.layout;
        layout.sanitize();
        Config {
            mode,
            accent,
            colors,
            layout,
            show_hidden: flag_value(raw.show_hidden, false),
            folders_first: flag_value(raw.folders_first, true),
            sort,
            descending: flag_value(raw.descending, false),
            view,
            details_visible: flag_value(raw.details_visible, true),
            shell: text_value(raw.shell),
            terminal: text_value(raw.terminal),
        }
    }
}

// ------------------------------------------------------------------ the file ----

/// `true` or `false`, as TOML writes them.
pub open spec fn bool_text(b: bool) -> Seq<char> {
    if b {
        "true"@
    } else {
        "false"@
    }
}

/// `key = "value"` lines, one per colour entry.
pub open spec fn color_lines(e: Seq<(Seq<char>, Seq<char>)>) -> Seq<char>
    decreases e.len(),
{
    if e.len() == 0 {
        Seq::empty()
    } else {
        color_lines(e.drop_last()) + e.last().0 + " = \""@ + e.last().1 + "\"\n"@
    }
}

/// `key = value` lines, one per layout entry.
pub open spec fn layout_lines(e: Seq<(Seq<char>, i32)>) -> Seq<char>
    decreases e.len(),
{
    if e.len() == 0 {
        Seq::empty()
    } else {
        layout_lines(e.drop_last()) + e.last().0 + " = "@ + signed_decimal(e.last().1 as int)
            + "\n"@
    }
}

/// The comment that opens the file and its format version.
pub open spec fn header_section() -> Seq<char> {
    "# Teral configuration. Teral's Settings window writes this file,\n"@
        + "# and every key is optional: anything missing uses Teral's default.\n\n"@
        + "version = "@ + decimal(CONFIG_VERSION as nat) + "\n\n"@
}

/// The `[appearance]` table.
pub open spec fn appearance_section(mode: ThemeMode, accent: Option<Seq<char>>) -> Seq<char> {
    "[appearance]\n"@ + "mode = \""@ + mode_key(mode) + "\"\n"@ + match accent {
        Some(a) => "accent = \""@ + a + "\"\n"@,
        None => Seq::empty(),
    } + "\n"@
}

/// The `[colors]` table, left out when no colour is overridden.
pub open spec fn colors_section(colors: Seq<Option<Seq<char>>>) -> Seq<char> {
    let e = color_entries(colors, 13);
    if e.len() == 0 {
        Seq::empty()
    } else {
        "[colors]\n"@ + color_lines(e) + "\n"@
    }
}

/// The `[layout]` table.
pub open spec fn layout_section(layout: Seq<Option<i32>>) -> Seq<char> {
    "[layout]\n"@ + layout_lines(layout_entries(layout, 8)) + "\n"@
}

/// A `key = true` or `key = false` line; `key` carries the ` = `.
pub open spec fn flag_line(key: Seq<char>, b: bool) -> Seq<char> {
    key + bool_text(b) + "\n"@
}

/// The `[files]` table.
pub open spec fn files_section(c: Config) -> Seq<char> {
    "[files]\n"@ + flag_line("show_hidden = "@, c.show_hidden) + flag_line(
        "folders_first = "@,
        c.folders_first,
    ) + ("sort = \""@ + sort_key_text(c.sort) + "\"\n"@) + flag_line("descending = "@, c.descending)
        + ("view = \""@ + view_key(c.view) + "\"\n\n"@) + flag_line(
        "details_visible = "@,
        c.details_visible,
    ) + "\n"@
}

/// The `[commands]` table; both values are escaped.
pub open spec fn commands_section(shell: Seq<char>, terminal: Seq<char>) -> Seq<char> {
    "[commands]\n"@ + "shell = \""@ + escaped(shell) + "\"\n"@ + "terminal = \""@ + escaped(
        terminal,
    ) + "\"\n"@
}

/// The whole configuration file for `c`.
pub open spec fn config_document(c: Config) -> Seq<char> {
    header_section() + appearance_section(c.mode, opt_text(c.accent)) + colors_section(c.colors@)
        + layout_section(c.layout@) + files_section(c) + commands_section(c.shell@, c.terminal@)
}

fn push_header(d: &mut String)
    ensures
        final(d)@ == old(d)@ + header_section(),
{
    let ghost before = d@;
    push_str(d, "# Teral configuration. Teral's Settings window writes this file,\n");
    push_str(d, "# and every key is optional: anything missing uses Teral's default.\n\n");
    push_str(d, "version = ");
    let v = decimal_string(CONFIG_VERSION as u64);
    push_str(d, v.as_str());
    push_str(d, "\n\n");
    assert(d@ =~= before + header_section());
}

fn push_appearance(d: &mut String, mode: ThemeMode, accent: &Option<String>)
    ensures
        final(d)@ == old(d)@ + appearance_section(mode, opt_text(*accent)),
{
    let ghost before = d@;
    push_str(d, "[appearance]\n");
    push_str(d, "mode = \"");
    push_str(d, mode.key());
    push_str(d, "\"\n");
    let ghost middle = d@;
    match accent {
        Some(a) => {
            push_str(d, "accent = \"");
            push_str(d, a.as_str());
            push_str(d, "\"\n");
            assert(d@ =~= middle + ("accent = \""@ + a@ + "\"\n"@));
        },
        None => {
            assert(d@ =~= middle + Seq::<char>::empty());
        },
    }
    push_str(d, "\n");
    assert(d@ =~= before + appearance_section(mode, opt_text(*accent)));
}

fn push_colors(d: &mut String, colors: &ThemeColors)
    ensures
        final(d)@ == old(d)@ + colors_section(colors@),
{
    let ghost before = d@;
    let entries = colors.entries();
    let ghost e = entries@.map_values(|x: (&'static str, String)| (x.0@, x.1@));
    assert(e == color_entries(colors@, 13));
    if entries.len() == 0 {
        assert(d@ =~= before + colors_section(colors@));
        return;
    }
    push_str(d, "[colors]\n");
    let ghost start = d@;
    let mut i: usize = 0;
    while i < entries.len()
        invariant
            i <= entries.len(),
            e == entries@.map_values(|x: (&'static str, String)| (x.0@, x.1@)),
            d@ == start + color_lines(e.take(i as int)),
        decreases entries.len() - i,
    {
        let (key, value) = &entries[i];
        push_str(d, key);
        push_str(d, " = \"");
        push_str(d, value.as_str());
        push_str(d, "\"\n");
        assert(e.take(i + 1).drop_last() =~= e.take(i as int));
        assert(e.take(i + 1).last() == e[i as int]);
        i += 1;
    }
    assert(e.take(entries.len() as int) =~= e);
    push_str(d, "\n");
    assert(d@ =~= before + colors_section(colors@));
}

fn push_layout(d: &mut String, layout: &ThemeLayout)
    ensures
        final(d)@ == old(d)@ + layout_section(layout@),
{
    let ghost before = d@;
    let entries = layout.entries();
    let ghost e = entries@.map_values(|x: (&'static str, i32)| (x.0@, x.1));
    assert(e == layout_entries(layout@, 8));
    push_str(d, "[layout]\n");
    let ghost start = d@;
    let mut i: usize = 0;
    while i < entries.len()
        invariant
            i <= entries.len(),
            e == entries@.map_values(|x: (&'static str, i32)| (x.0@, x.1)),
            d@ == start + layout_lines(e.take(i as int)),
        decreases entries.len() - i,
    {
        let (key, value) = entries[i];
        push_str(d, key);
        push_str(d, " = ");
        let number = signed_decimal_string(value);
        push_str(d, number.as_str());
        push_str(d, "\n");
        assert(e.take(i + 1).drop_last() =~= e.take(i as int));
        assert(e.take(i + 1).last() == e[i as int]);
        i += 1;
    }
    assert(e.take(entries.len() as int) =~= e);
    push_str(d, "\n");
    assert(d@ =~= before + layout_section(layout@));
}

fn bool_str(b: bool) -> (r: &'static str)
    ensures
        r@ == bool_text(b),
{
    if b {
        "true"
    } else {
        "false"
    }
}

fn push_flag_line(d: &mut String, key: &str, b: bool)
    ensures
        final(d)@ == old(d)@ + flag_line(key@, b),
{
    let ghost before = d@;
    push_str(d, key);
    push_str(d, bool_str(b));
    push_str(d, "\n");
    assert(d@ =~= before + flag_line(key@, b));
}

fn push_quoted_line(d: &mut String, key: &str, value: &str, end: &str)
    ensures
        final(d)@ == old(d)@ + (key@ + value@ + end@),
{
    let ghost before = d@;
    push_str(d, key);
    push_str(d, value);
    push_str(d, end);
    assert(d@ =~= before + (key@ + value@ + end@));
}

fn push_files(d: &mut String, c: &Config)
    ensures
        final(d)@ == old(d)@ + files_section(*c),
{
    let ghost before = d@;
    push_str(d, "[files]\n");
    let ghost s0 = d@;
    push_flag_line(d, "show_hidden = ", c.show_hidden);
    let ghost s1 = d@;
    push_flag_line(d, "folders_first = ", c.folders_first);
    let ghost s2 = d@;
    push_quoted_line(d, "sort = \"", sort_key_name(c.sort), "\"\n");
    let ghost s3 = d@;
    push_flag_line(d, "descending = ", c.descending);
    let ghost s4 = d@;
    push_quoted_line(d, "view = \"", c.view.key(), "\"\n\n");
    let ghost s5 = d@;
    push_flag_line(d, "details_visible = ", c.details_visible);
    let ghost s6 = d@;
    push_str(d, "\n");
    assert(d@ =~= before + files_section(*c));
}

fn push_commands(d: &mut String, shell: &String, terminal: &String)
    ensures
        final(d)@ == old(d)@ + commands_section(shell@, terminal@),
{
    let ghost before = d@;
    push_str(d, "[commands]\n");
    push_str(d, "shell = \"");
    let s = escape(shell.as_str());
    push_str(d, s.as_str());
    push_str(d, "\"\n");
    push_str(d, "terminal = \"");
    let t = escape(terminal.as_str());
    push_str(d, t.as_str());
    push_str(d, "\"\n");
    assert(d@ =~= before + commands_section(shell@, terminal@));
}

impl Config {
    /// The configuration file that records this configuration.
    pub fn to_toml(&self) -> (r: String)
        ensures
            r@ == config_document(*self),
    {
        let mut d = String::new();
        push_header(&mut d);
        push_appearance(&mut d, self.mode, &self.accent);
        push_colors(&mut d, &self.colors);
        push_layout(&mut d, &self.layout);
        push_files(&mut d, self);
        push_commands(&mut d, &self.shell, &self.terminal);
        assert(d@ =~= config_document(*self));
        d
    }
}

/// `teral/teral.toml`, as bytes.
pub open spec fn config_file_name() -> Seq<u8> {
    seq![116u8, 101u8, 114u8, 97u8, 108u8, 47u8, 116u8, 101u8, 114u8, 97u8, 108u8, 46u8, 116u8, 111u8, 109u8, 108u8]
}

/// Path of the user configuration file under the configuration directory.
pub fn config_path(config_home: &[u8]) -> (r: Vec<u8>)
    ensures
        r@ == join(config_home@, config_file_name()),
{
    let name = copy_bytes(&[116u8, 101u8, 114u8, 97u8, 108u8, 47u8, 116u8, 101u8, 114u8, 97u8, 108u8, 46u8, 116u8, 111u8, 109u8, 108u8]);
    assert(name@ =~= config_file_name());
    join_path(config_home, name.as_slice())
}

// ---------------------------------------------------------------------- laws ----

/// Every mode is read back from the key it is stored under.
pub proof fn lemma_mode_key_round_trip(mode: ThemeMode)
    ensures
        mode_named(mode_key(mode)) == Some(mode),
{
    reveal_strlit("omarchy");
    reveal_strlit("teral");
    reveal_strlit("system");
    match mode {
        ThemeMode::Teral => {
            assert(!ascii_ci_eq("teral"@, "omarchy"@));
            assert(ascii_ci_eq("teral"@, "teral"@));
        },
        ThemeMode::System => {
            assert(!ascii_ci_eq("system"@, "omarchy"@));
            assert(!ascii_ci_eq("teral"@, "system"@));
            assert(ascii_ci_eq("system"@, "system"@));
        },
    }
}

/// Every view is read back from the key it is stored under.
pub proof fn lemma_view_key_round_trip(view: ViewPreference)
    ensures
        view_named(view_key(view)) == Some(view),
{
    reveal_strlit("grid");
    reveal_strlit("list");
    match view {
        ViewPreference::Grid => {
            assert(ascii_ci_eq("grid"@, "grid"@));
        },
        ViewPreference::List => {
            assert(ascii_lower("list"@[0]) != ascii_lower("grid"@[0]));
            assert(ascii_ci_eq("list"@, "list"@));
        },
    }
}

/// Every sort key is read back from the name it is stored under.
pub proof fn lemma_sort_key_round_trip(key: SortKey)
    ensures
        sort_key_named(sort_key_text(key)) == Some(key),
{
    reveal_strlit("name");
    reveal_strlit("size");
    reveal_strlit("type");
    reveal_strlit("kind");
    reveal_strlit("modified");
    reveal_strlit("time");
    match key {
        SortKey::Name => {
            assert(ascii_ci_eq("name"@, "name"@));
        },
        SortKey::Size => {
            assert(ascii_lower("size"@[0]) != ascii_lower("name"@[0]));
            assert(ascii_ci_eq("size"@, "size"@));
        },
        SortKey::Kind => {
            assert(ascii_lower("type"@[0]) != ascii_lower("name"@[0]));
            assert(ascii_lower("type"@[0]) != ascii_lower("size"@[0]));
            assert(ascii_ci_eq("type"@, "type"@));
        },
        SortKey::Modified => {
            assert(ascii_lower("modified"@[0]) != ascii_lower("name"@[0]));
            assert(ascii_ci_eq("modified"@, "modified"@));
        },
    }
}

/// A configuration as resolving leaves it: every colour set is a colour, and every
/// layout value lies in its range.
pub open spec fn resolved_settings(c: Config) -> bool {
    &&& (opt_text(c.accent) matches Some(a) ==> is_color(a))
    &&& forall|k: int| 0 <= k < 13 ==> (#[trigger] c.colors@[k] matches Some(v) ==> is_color(v))
    &&& forall|k: int| 0 <= k < 8 ==> (#[trigger] c.layout@[k] matches Some(x) ==> layout_min(k) <= x <= layout_max(k))
}

/// Reading back the values a saved configuration holds gives the same configuration:
/// [`Config::from_raw`], applied to the mode key, accent, colours, layout, flags, sort
/// name, view key, shell and terminal that [`Config::to_toml`] writes, gives back
/// every one of them, for any configuration resolving produced.
pub proof fn lemma_settings_round_trip(c: Config)
    requires
        resolved_settings(c),
    ensures
        named_or(Some(mode_key(c.mode)), |v: Seq<char>| mode_named(v), ThemeMode::Teral) == c.mode,
        sanitized_color(opt_text(c.accent)) == opt_text(c.accent),
        Seq::new(13, |k: int| sanitized_color(c.colors@[k])) == c.colors@,
        Seq::new(8, |k: int| clamped(c.layout@[k], layout_min(k), layout_max(k))) == c.layout@,
        flag_or(Some(c.show_hidden), false) == c.show_hidden,
        flag_or(Some(c.folders_first), true) == c.folders_first,
        named_or(Some(sort_key_text(c.sort)), |v: Seq<char>| sort_key_named(v), SortKey::Name) == c.sort,
        flag_or(Some(c.descending), false) == c.descending,
        named_or(Some(view_key(c.view)), |v: Seq<char>| view_named(v), ViewPreference::Grid) == c.view,
        flag_or(Some(c.details_visible), true) == c.details_visible,
        text_or_empty(Some(c.shell@)) == c.shell@,
        text_or_empty(Some(c.terminal@)) == c.terminal@,
{
    lemma_mode_key_round_trip(c.mode);
    lemma_sort_key_round_trip(c.sort);
    lemma_view_key_round_trip(c.view);
    assert forall|k: int| 0 <= k < 13 implies #[trigger] sanitized_color(c.colors@[k]) == c.colors@[k] by {
        assert(c.colors@[k] matches Some(v) ==> is_color(v));
    }
    assert(Seq::new(13, |k: int| sanitized_color(c.colors@[k])) =~= c.colors@);
    assert forall|k: int| 0 <= k < 8 implies #[trigger] clamped(c.layout@[k], layout_min(k), layout_max(k)) == c.layout@[k] by {
        assert(c.layout@[k] matches Some(x) ==> layout_min(k) <= x <= layout_max(k));
    }
    assert(Seq::new(8, |k: int| clamped(c.layout@[k], layout_min(k), layout_max(k))) =~= c.layout@);
}

} // verus!
