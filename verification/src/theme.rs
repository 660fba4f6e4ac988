//! Layered Teral theme values: colour and layout overrides, their validation and
//! clamping, and the fallbacks every colour role resolves to.

use crate::config::{Config, ThemeMode};
use crate::paths::{copy_bytes, join, join_path, paths_view};
use crate::text::{chars_of, contains_str, contains_text, lowercase, lowercased, push_str};
use vstd::prelude::*;

verus! {

/// An ASCII hexadecimal digit.
pub open spec fn is_hex_char(c: char) -> bool {
    ('0' <= c <= '9') || ('a' <= c <= 'f') || ('A' <= c <= 'F')
}

/// The `#rrggbb` and `#rrggbbaa` forms Teral themes may use.
pub open spec fn is_color(s: Seq<char>) -> bool {
    &&& (s.len() == 7 || s.len() == 9)
    &&& s[0] == '#'
    &&& forall|i: int| 1 <= i < s.len() ==> is_hex_char(#[trigger] s[i])
}

/// True for the `#rrggbb` and `#rrggbbaa` forms Teral themes may use.
pub fn valid_color(value: &str) -> (r: bool)
    ensures
        r == is_color(value@),
{
    let v = chars_of(value);
    if v.len() != 7 && v.len() != 9 {
        return false;
    }
    if v[0] != '#' {
        return false;
    }
    let mut i: usize = 1;
    while i < v.len()
        invariant
            1 <= i <= v.len(),
            v@ == value@,
            forall|j: int| 1 <= j < i ==> is_hex_char(#[trigger] v@[j]),
        decreases v.len() - i,
    {
        let c = v[i];
        if !(('0' <= c && c <= '9') || ('a' <= c && c <= 'f') || ('A' <= c && c <= 'F')) {
            return false;
        }
        i += 1;
    }
    true
}

/// The view of an optional text.
pub open spec fn opt_text(o: Option<String>) -> Option<Seq<char>> {
    match o {
        Some(s) => Some(s@),
        None => None,
    }
}

/// Per-colour overrides, every one optional.
#[derive(Debug)]
pub struct ThemeColors {
    pub background: Option<String>,
    pub surface: Option<String>,
    pub surface_alt: Option<String>,
    pub elevated: Option<String>,
    pub border: Option<String>,
    pub text: Option<String>,
    pub text_bright: Option<String>,
    pub text_muted: Option<String>,
    pub accent: Option<String>,
    pub selection: Option<String>,
    pub danger: Option<String>,
    pub warning: Option<String>,
    pub success: Option<String>,
}

impl View for ThemeColors {
    type V = Seq<Option<Seq<char>>>;

    /// The thirteen colours, in declaration order.
    open spec fn view(&self) -> Seq<Option<Seq<char>>> {
        seq![
            opt_text(self.background),
            opt_text(self.surface),
            opt_text(self.surface_alt),
            opt_text(self.elevated),
            opt_text(self.border),
            opt_text(self.text),
            opt_text(self.text_bright),
            opt_text(self.text_muted),
            opt_text(self.accent),
            opt_text(self.selection),
            opt_text(self.danger),
            opt_text(self.warning),
            opt_text(self.success),
        ]
    }
}

/// The key each colour is written under, in declaration order.
pub open spec fn color_key(k: int) -> Seq<char> {
    if k == 0 {
        "background"@
    } else if k == 1 {
        "surface"@
    } else if k == 2 {
        "surface_alt"@
    } else if k == 3 {
        "elevated"@
    } else if k == 4 {
        "border"@
    } else if k == 5 {
        "text"@
    } else if k == 6 {
        "text_bright"@
    } else if k == 7 {
        "text_muted"@
    } else if k == 8 {
        "accent"@
    } else if k == 9 {
        "selection"@
    } else if k == 10 {
        "danger"@
    } else if k == 11 {
        "warning"@
    } else {
        "success"@
    }
}

/// `overlay`: every colour the other layer sets wins.
pub open spec fn overlay_opt<T>(base: Option<T>, over: Option<T>) -> Option<T> {
    if over is Some {
        over
    } else {
        base
    }
}

/// `sanitize`: a colour that is not `#rrggbb` or `#rrggbbaa` is dropped.
pub open spec fn sanitized_color(c: Option<Seq<char>>) -> Option<Seq<char>> {
    match c {
        Some(v) => if is_color(v) {
            Some(v)
        } else {
            None
        },
        None => None,
    }
}

/// The colour entries that are set, among the first `n`, in declaration order.
pub open spec fn color_entries(v: Seq<Option<Seq<char>>>, n: nat) -> Seq<(Seq<char>, Seq<char>)>
    decreases n,
{
    if n == 0 {
        Seq::empty()
    } else {
        let prev = color_entries(v, (n - 1) as nat);
        match v[n - 1] {
            Some(value) => prev.push((color_key(n - 1), value)),
            None => prev,
        }
    }
}

fn overlay_text(base: &mut Option<String>, over: Option<String>)
    ensures
        opt_text(*final(base)) == overlay_opt(opt_text(*old(base)), opt_text(over)),
{
    if over.is_some() {
        *base = over;
    }
}

fn sanitize_text(c: &mut Option<String>)
    ensures
        opt_text(*final(c)) == sanitized_color(opt_text(*old(c))),
{
    let drop = match c {
        Some(v) => !valid_color(v.as_str()),
        None => false,
    };
    if drop {
        *c = None;
    }
}

fn push_color_entry(
    out: &mut Vec<(&'static str, String)>,
    key: &'static str,
    value: &Option<String>,
)
    ensures
        final(out)@.map_values(|e: (&'static str, String)| (e.0@, e.1@)) == match opt_text(*value) {
            Some(v) => old(out)@.map_values(|e: (&'static str, String)| (e.0@, e.1@)).push((key@, v)),
            None => old(out)@.map_values(|e: (&'static str, String)| (e.0@, e.1@)),
        },
{
    let ghost before = out@.map_values(|e: (&'static str, String)| (e.0@, e.1@));
    match value {
        Some(v) => {
            out.push((key, v.clone()));
            assert(out@.map_values(|e: (&'static str, String)| (e.0@, e.1@)) =~= before.push(
                (key@, v@),
            ));
        },
        None => {},
    }
}

impl ThemeColors {
    /// Every colour the other layer sets replaces this layer's.
    #[verifier::rlimit(40)]
    pub fn overlay(&mut self, other: ThemeColors)
        ensures
            final(self)@ == Seq::new(13, |k: int| overlay_opt(old(self)@[k], other@[k])),
    {
        let ghost base = self@;
        let ghost over = other@;
        overlay_text(&mut self.background, other.background);
        assert(opt_text(self.background) == overlay_opt(base[0], over[0]));
        overlay_text(&mut self.surface, other.surface);
        assert(opt_text(self.surface) == overlay_opt(base[1], over[1]));
        overlay_text(&mut self.surface_alt, other.surface_alt);
        assert(opt_text(self.surface_alt) == overlay_opt(base[2], over[2]));
        overlay_text(&mut self.elevated, other.elevated);
        assert(opt_text(self.elevated) == overlay_opt(base[3], over[3]));
        overlay_text(&mut self.border, other.border);
        assert(opt_text(self.border) == overlay_opt(base[4], over[4]));
        overlay_text(&mut self.text, other.text);
        assert(opt_text(self.text) == overlay_opt(base[5], over[5]));
        overlay_text(&mut self.text_bright, other.text_bright);
        assert(opt_text(self.text_bright) == overlay_opt(base[6], over[6]));
        overlay_text(&mut self.text_muted, other.text_muted);
        assert(opt_text(self.text_muted) == overlay_opt(base[7], over[7]));
        overlay_text(&mut self.accent, other.accent);
        assert(opt_text(self.accent) == overlay_opt(base[8], over[8]));
        overlay_text(&mut self.selection, other.selection);
        assert(opt_text(self.selection) == overlay_opt(base[9], over[9]));
        overlay_text(&mut self.danger, other.danger);
        assert(opt_text(self.danger) == overlay_opt(base[10], over[10]));
        overlay_text(&mut self.warning, other.warning);
        assert(opt_text(self.warning) == overlay_opt(base[11], over[11]));
        overlay_text(&mut self.success, other.success);
        assert(opt_text(self.success) == overlay_opt(base[12], over[12]));
        assert(self@ =~= Seq::new(13, |k: int| overlay_opt(base[k], over[k])));
    }

    /// Drop any value that is not a colour Teral can render.
    #[verifier::rlimit(40)]
    pub fn sanitize(&mut self)
        ensures
            final(self)@ == Seq::new(13, |k: int| sanitized_color(old(self)@[k])),
    {
        sanitize_text(&mut self.background);
        sanitize_text(&mut self.surface);
        sanitize_text(&mut self.surface_alt);
        sanitize_text(&mut self.elevated);
        sanitize_text(&mut self.border);
        sanitize_text(&mut self.text);
        sanitize_text(&mut self.text_bright);
        sanitize_text(&mut self.text_muted);
        sanitize_text(&mut self.accent);
        sanitize_text(&mut self.selection);
        sanitize_text(&mut self.danger);
        sanitize_text(&mut self.warning);
        sanitize_text(&mut self.success);
        assert(self@ =~= Seq::new(13, |k: int| sanitized_color(old(self)@[k])));
    }

    /// The colours that are actually set, ready to be written back to TOML.
    #[verifier::rlimit(40)]
    pub fn entries(&self) -> (r: Vec<(&'static str, String)>)
        ensures
            r@.map_values(|e: (&'static str, String)| (e.0@, e.1@)) == color_entries(self@, 13),
    {
        let mut out: Vec<(&'static str, String)> = Vec::new();
        assert(out@.map_values(|e: (&'static str, String)| (e.0@, e.1@)) =~= color_entries(self@, 0));
        push_color_entry(&mut out, "background", &self.background);
        assert(out@.map_values(|e: (&'static str, String)| (e.0@, e.1@)) == color_entries(self@, 1));
        push_color_entry(&mut out, "surface", &self.surface);
        assert(out@.map_values(|e: (&'static str, String)| (e.0@, e.1@)) == color_entries(self@, 2));
        push_color_entry(&mut out, "surface_alt", &self.surface_alt);
        assert(out@.map_values(|e: (&'static str, String)| (e.0@, e.1@)) == color_entries(self@, 3));
        push_color_entry(&mut out, "elevated", &self.elevated);
        assert(out@.map_values(|e: (&'static str, String)| (e.0@, e.1@)) == color_entries(self@, 4));
        push_color_entry(&mut out, "border", &self.border);
        assert(out@.map_values(|e: (&'static str, String)| (e.0@, e.1@)) == color_entries(self@, 5));
        push_color_entry(&mut out, "text", &self.text);
        assert(out@.map_values(|e: (&'static str, String)| (e.0@, e.1@)) == color_entries(self@, 6));
        push_color_entry(&mut out, "text_bright", &self.text_bright);
        assert(out@.map_values(|e: (&'static str, String)| (e.0@, e.1@)) == color_entries(self@, 7));
        push_color_entry(&mut out, "text_muted", &self.text_muted);
        assert(out@.map_values(|e: (&'static str, String)| (e.0@, e.1@)) == color_entries(self@, 8));
        push_color_entry(&mut out, "accent", &self.accent);
        assert(out@.map_values(|e: (&'static str, String)| (e.0@, e.1@)) == color_entries(self@, 9));
        push_color_entry(&mut out, "selection", &self.selection);
        assert(out@.map_values(|e: (&'static str, String)| (e.0@, e.1@)) == color_entries(self@, 10));
        push_color_entry(&mut out, "danger", &self.danger);
        assert(out@.map_values(|e: (&'static str, String)| (e.0@, e.1@)) == color_entries(self@, 11));
        push_color_entry(&mut out, "warning", &self.warning);
        assert(out@.map_values(|e: (&'static str, String)| (e.0@, e.1@)) == color_entries(self@, 12));
        push_color_entry(&mut out, "success", &self.success);
        assert(out@.map_values(|e: (&'static str, String)| (e.0@, e.1@)) == color_entries(self@, 13));
        out
    }
}

/// Per-value layout overrides, every one optional.
#[derive(Debug)]
pub struct ThemeLayout {
    pub window_width: Option<i32>,
    pub window_height: Option<i32>,
    pub sidebar_width: Option<i32>,
    pub details_width: Option<i32>,
    pub spacing: Option<i32>,
    pub radius: Option<i32>,
    pub row_height: Option<i32>,
    pub grid_icon_size: Option<i32>,
}

impl View for ThemeLayout {
    type V = Seq<Option<i32>>;

    /// The eight values, in declaration order.
    open spec fn view(&self) -> Seq<Option<i32>> {
        seq![
            self.window_width,
            self.window_height,
            self.sidebar_width,
            self.details_width,
            self.spacing,
            self.radius,
            self.row_height,
            self.grid_icon_size,
        ]
    }
}

/// The key each layout value is written under, in declaration order.
pub open spec fn layout_key(k: int) -> Seq<char> {
    if k == 0 {
        "window_width"@
    } else if k == 1 {
        "window_height"@
    } else if k == 2 {
        "sidebar_width"@
    } else if k == 3 {
        "details_width"@
    } else if k == 4 {
        "spacing"@
    } else if k == 5 {
        "radius"@
    } else if k == 6 {
        "row_height"@
    } else {
        "grid_icon_size"@
    }
}

/// The smallest value Teral lays out for each layout entry.
pub open spec fn layout_min(k: int) -> i32 {
    if k == 0 {
        720
    } else if k == 1 {
        480
    } else if k == 2 {
        180
    } else if k == 3 {
        240
    } else if k == 4 {
        0
    } else if k == 5 {
        0
    } else if k == 6 {
        22
    } else {
        32
    }
}

/// The largest value Teral lays out for each layout entry.
pub open spec fn layout_max(k: int) -> i32 {
    if k == 0 {
        3840
    } else if k == 1 {
        2160
    } else if k == 2 {
        420
    } else if k == 3 {
        520
    } else if k == 4 {
        32
    } else if k == 5 {
        24
    } else if k == 6 {
        64
    } else {
        160
    }
}

/// `i32::clamp`.
pub open spec fn clamp(v: i32, lo: i32, hi: i32) -> i32 {
    if v < lo {
        lo
    } else if v > hi {
        hi
    } else {
        v
    }
}

/// A set value clamped into its range; an unset one stays unset.
pub open spec fn clamped(v: Option<i32>, lo: i32, hi: i32) -> Option<i32> {
    match v {
        Some(x) => Some(clamp(x, lo, hi)),
        None => None,
    }
}

/// The layout entries that are set, among the first `n`, in declaration order.
pub open spec fn layout_entries(v: Seq<Option<i32>>, n: nat) -> Seq<(Seq<char>, i32)>
    decreases n,
{
    if n == 0 {
        Seq::empty()
    } else {
        let prev = layout_entries(v, (n - 1) as nat);
        match v[n - 1] {
            Some(value) => prev.push((layout_key(n - 1), value)),
            None => prev,
        }
    }
}

fn overlay_number(base: &mut Option<i32>, over: Option<i32>)
    ensures
        *final(base) == overlay_opt(*old(base), over),
{
    if over.is_some() {
        *base = over;
    }
}

fn clamp_option(value: &mut Option<i32>, min: i32, max: i32)
    requires
        min <= max,
    ensures
        *final(value) == clamped(*old(value), min, max),
{
    match *value {
        Some(current) => {
            let v = if current < min {
                min
            } else if current > max {
                max
            } else {
                current
            };
            *value = Some(v);
        },
        None => {},
    }
}

fn push_layout_entry(out: &mut Vec<(&'static str, i32)>, key: &'static str, value: Option<i32>)
    ensures
        final(out)@.map_values(|e: (&'static str, i32)| (e.0@, e.1)) == match value {
            Some(v) => old(out)@.map_values(|e: (&'static str, i32)| (e.0@, e.1)).push((key@, v)),
            None => old(out)@.map_values(|e: (&'static str, i32)| (e.0@, e.1)),
        },
{
    let ghost before = out@.map_values(|e: (&'static str, i32)| (e.0@, e.1));
    match value {
        Some(v) => {
            out.push((key, v));
            assert(out@.map_values(|e: (&'static str, i32)| (e.0@, e.1)) =~= before.push((key@, v)));
        },
        None => {},
    }
}

/// Smallest and largest grid icon Teral will draw.
pub const MIN_ICON_SIZE: i32 = 32;
pub const MAX_ICON_SIZE: i32 = 160;

/// The grid icon size one zoom step of `delta` leads to, held inside the sizes Teral
/// draws.
pub open spec fn stepped_icon_size(size: int, delta: int) -> int {
    if size + delta < MIN_ICON_SIZE {
        MIN_ICON_SIZE as int
    } else if size + delta > MAX_ICON_SIZE {
        MAX_ICON_SIZE as int
    } else {
        size + delta
    }
}

/// Zoom the grid icons by `delta` pixels.
pub fn step_icon_size(size: i32, delta: i32) -> (r: i32)
    ensures
        r == stepped_icon_size(size as int, delta as int),
{
    let wanted: i64 = size as i64 + delta as i64;
    if wanted < MIN_ICON_SIZE as i64 {
        MIN_ICON_SIZE
    } else if wanted > MAX_ICON_SIZE as i64 {
        MAX_ICON_SIZE
    } else {
        wanted as i32
    }
}

impl ThemeLayout {
    /// Every value the other layer sets replaces this layer's.
    pub fn overlay(&mut self, other: ThemeLayout)
        ensures
            final(self)@ == Seq::new(8, |k: int| overlay_opt(old(self)@[k], other@[k])),
    {
        overlay_number(&mut self.window_width, other.window_width);
        overlay_number(&mut self.window_height, other.window_height);
        overlay_number(&mut self.sidebar_width, other.sidebar_width);
        overlay_number(&mut self.details_width, other.details_width);
        overlay_number(&mut self.spacing, other.spacing);
        overlay_number(&mut self.radius, other.radius);
        overlay_number(&mut self.row_height, other.row_height);
        overlay_number(&mut self.grid_icon_size, other.grid_icon_size);
        assert(self@ =~= Seq::new(8, |k: int| overlay_opt(old(self)@[k], other@[k])));
    }

    /// Clamp every value into a range Teral can actually lay out.
    pub fn sanitize(&mut self)
        ensures
            final(self)@ == Seq::new(8, |k: int| clamped(old(self)@[k], layout_min(k), layout_max(k))),
    {
        clamp_option(&mut self.window_width, 720, 3840);
        clamp_option(&mut self.window_height, 480, 2160);
        clamp_option(&mut self.sidebar_width, 180, 420);
        clamp_option(&mut self.details_width, 240, 520);
        clamp_option(&mut self.spacing, 0, 32);
        clamp_option(&mut self.radius, 0, 24);
        clamp_option(&mut self.row_height, 22, 64);
        clamp_option(&mut self.grid_icon_size, MIN_ICON_SIZE, MAX_ICON_SIZE);
        assert(self@ =~= Seq::new(8, |k: int| clamped(old(self)@[k], layout_min(k), layout_max(k))));
    }

    /// The layout values that are actually set, ready to be written back to TOML.
    pub fn entries(&self) -> (r: Vec<(&'static str, i32)>)
        ensures
            r@.map_values(|e: (&'static str, i32)| (e.0@, e.1)) == layout_entries(self@, 8),
    {
        let mut out: Vec<(&'static str, i32)> = Vec::new();
        assert(out@.map_values(|e: (&'static str, i32)| (e.0@, e.1)) =~= layout_entries(self@, 0));
        push_layout_entry(&mut out, "window_width", self.window_width);
        assert(out@.map_values(|e: (&'static str, i32)| (e.0@, e.1)) == layout_entries(self@, 1));
        push_layout_entry(&mut out, "window_height", self.window_height);
        assert(out@.map_values(|e: (&'static str, i32)| (e.0@, e.1)) == layout_entries(self@, 2));
        push_layout_entry(&mut out, "sidebar_width", self.sidebar_width);
        assert(out@.map_values(|e: (&'static str, i32)| (e.0@, e.1)) == layout_entries(self@, 3));
        push_layout_entry(&mut out, "details_width", self.details_width);
        assert(out@.map_values(|e: (&'static str, i32)| (e.0@, e.1)) == layout_entries(self@, 4));
        push_layout_entry(&mut out, "spacing", self.spacing);
        assert(out@.map_values(|e: (&'static str, i32)| (e.0@, e.1)) == layout_entries(self@, 5));
        push_layout_entry(&mut out, "radius", self.radius);
        assert(out@.map_values(|e: (&'static str, i32)| (e.0@, e.1)) == layout_entries(self@, 6));
        push_layout_entry(&mut out, "row_height", self.row_height);
        assert(out@.map_values(|e: (&'static str, i32)| (e.0@, e.1)) == layout_entries(self@, 7));
        push_layout_entry(&mut out, "grid_icon_size", self.grid_icon_size);
        assert(out@.map_values(|e: (&'static str, i32)| (e.0@, e.1)) == layout_entries(self@, 8));
        out
    }
}

/// Semantic colour roles exposed to the stylesheet and to theme authors.
#[derive(Debug, Clone, Copy, PartialEq, Eq, Structural)]
pub enum ColorRole {
    Background,
    Surface,
    SurfaceAlt,
    Elevated,
    Border,
    Text,
    TextBright,
    TextMuted,
    Accent,
    Selection,
    Danger,
    Warning,
    Success,
}

/// The position of a role among the colours, in declaration order.
pub open spec fn role_index(role: ColorRole) -> int {
    match role {
        ColorRole::Background => 0,
        ColorRole::Surface => 1,
        ColorRole::SurfaceAlt => 2,
        ColorRole::Elevated => 3,
        ColorRole::Border => 4,
        ColorRole::Text => 5,
        ColorRole::TextBright => 6,
        ColorRole::TextMuted => 7,
        ColorRole::Accent => 8,
        ColorRole::Selection => 9,
        ColorRole::Danger => 10,
        ColorRole::Warning => 11,
        ColorRole::Success => 12,
    }
}

/// The `@define-color` name of each role.
pub open spec fn css_name_text(role: ColorRole) -> Seq<char> {
    match role {
        ColorRole::Background => "teral_bg"@,
        ColorRole::Surface => "teral_surface"@,
        ColorRole::SurfaceAlt => "teral_surface_alt"@,
        ColorRole::Elevated => "teral_elevated"@,
        ColorRole::Border => "teral_border"@,
        ColorRole::Text => "teral_text"@,
        ColorRole::TextBright => "teral_text_bright"@,
        ColorRole::TextMuted => "teral_muted"@,
        ColorRole::Accent => "teral_accent"@,
        ColorRole::Selection => "teral_selection"@,
        ColorRole::Danger => "teral_danger"@,
        ColorRole::Warning => "teral_warning"@,
        ColorRole::Success => "teral_success"@,
    }
}

/// The colour each role falls back to when no layer supplies one.
pub open spec fn fallback_text(role: ColorRole) -> Seq<char> {
    match role {
        ColorRole::Background => "#0e0e11"@,
        ColorRole::Surface => "#0a0a0c"@,
        ColorRole::SurfaceAlt => "#1a1a1f"@,
        ColorRole::Elevated => "#141418"@,
        ColorRole::Border => "#232329"@,
        ColorRole::Text => "#e6e3de"@,
        ColorRole::TextBright => "#ffffff"@,
        ColorRole::TextMuted => "#8a8680"@,
        ColorRole::Accent => "#e0a63c"@,
        ColorRole::Selection => "#2a2117"@,
        ColorRole::Danger => "#d9634f"@,
        ColorRole::Warning => "#e0a63c"@,
        ColorRole::Success => "#6fbf73"@,
    }
}

/// Every role Teral defines, in stylesheet declaration order.
pub open spec fn all_roles() -> Seq<ColorRole> {
    seq![
        ColorRole::Background,
        ColorRole::Surface,
        ColorRole::SurfaceAlt,
        ColorRole::Elevated,
        ColorRole::Border,
        ColorRole::Text,
        ColorRole::TextBright,
        ColorRole::TextMuted,
        ColorRole::Accent,
        ColorRole::Selection,
        ColorRole::Danger,
        ColorRole::Warning,
        ColorRole::Success,
    ]
}

impl ColorRole {
    /// Every role Teral defines, in stylesheet declaration order.
    pub fn all() -> (r: Vec<ColorRole>)
        ensures
            r@ == all_roles(),
    {
        let mut r: Vec<ColorRole> = Vec::new();
        r.push(ColorRole::Background);
        r.push(ColorRole::Surface);
        r.push(ColorRole::SurfaceAlt);
        r.push(ColorRole::Elevated);
        r.push(ColorRole::Border);
        r.push(ColorRole::Text);
        r.push(ColorRole::TextBright);
        r.push(ColorRole::TextMuted);
        r.push(ColorRole::Accent);
        r.push(ColorRole::Selection);
        r.push(ColorRole::Danger);
        r.push(ColorRole::Warning);
        r.push(ColorRole::Success);
        assert(r@ =~= all_roles());
        r
    }

    /// The GTK `@define-color` name used by the Teral stylesheet.
    pub fn css_name(self) -> (r: &'static str)
        ensures
            r@ == css_name_text(self),
    {
        match self {
            ColorRole::Background => "teral_bg",
            ColorRole::Surface => "teral_surface",
            ColorRole::SurfaceAlt => "teral_surface_alt",
            ColorRole::Elevated => "teral_elevated",
            ColorRole::Border => "teral_border",
            ColorRole::Text => "teral_text",
            ColorRole::TextBright => "teral_text_bright",
            ColorRole::TextMuted => "teral_muted",
            ColorRole::Accent => "teral_accent",
            ColorRole::Selection => "teral_selection",
            ColorRole::Danger => "teral_danger",
            ColorRole::Warning => "teral_warning",
            ColorRole::Success => "teral_success",
        }
    }

    /// Used when neither the built-in theme file nor any overlay supplies the role.
    pub fn fallback(self) -> (r: &'static str)
        ensures
            r@ == fallback_text(self),
    {
        match self {
            ColorRole::Background => "#0e0e11",
            ColorRole::Surface => "#0a0a0c",
            ColorRole::SurfaceAlt => "#1a1a1f",
            ColorRole::Elevated => "#141418",
            ColorRole::Border => "#232329",
            ColorRole::Text => "#e6e3de",
            ColorRole::TextBright => "#ffffff",
            ColorRole::TextMuted => "#8a8680",
            ColorRole::Accent => "#e0a63c",
            ColorRole::Selection => "#2a2117",
            ColorRole::Danger => "#d9634f",
            ColorRole::Warning => "#e0a63c",
            ColorRole::Success => "#6fbf73",
        }
    }
}

/// Every fallback colour is a valid colour.
pub proof fn lemma_fallbacks_are_colors(role: ColorRole)
    ensures
        is_color(fallback_text(role)),
{
    reveal_strlit("#0e0e11");
    reveal_strlit("#0a0a0c");
    reveal_strlit("#1a1a1f");
    reveal_strlit("#141418");
    reveal_strlit("#232329");
    reveal_strlit("#e6e3de");
    reveal_strlit("#ffffff");
    reveal_strlit("#8a8680");
    reveal_strlit("#e0a63c");
    reveal_strlit("#2a2117");
    reveal_strlit("#d9634f");
    reveal_strlit("#e0a63c");
    reveal_strlit("#6fbf73");
}

/// The resolved theme: format version, name, colours, layout, and whether it is dark.
#[derive(Debug)]
pub struct ThemeConfig {
    pub version: Option<u32>,
    pub name: Option<String>,
    pub colors: ThemeColors,
    pub layout: ThemeLayout,
    pub dark: bool,
}

impl Default for ThemeColors {
    /// No colour overridden.
    fn default() -> (r: Self)
        ensures
            r@ == Seq::new(13, |k: int| None::<Seq<char>>),
    {
        let r = ThemeColors {
            background: None,
            surface: None,
            surface_alt: None,
            elevated: None,
            border: None,
            text: None,
            text_bright: None,
            text_muted: None,
            accent: None,
            selection: None,
            danger: None,
            warning: None,
            success: None,
        };
        assert(r@ =~= Seq::new(13, |k: int| None::<Seq<char>>));
        r
    }
}

impl Default for ThemeLayout {
    /// No layout value overridden.
    fn default() -> (r: Self)
        ensures
            r@ == Seq::new(8, |k: int| None::<i32>),
    {
        let r = ThemeLayout {
            window_width: None,
            window_height: None,
            sidebar_width: None,
            details_width: None,
            spacing: None,
            radius: None,
            row_height: None,
            grid_icon_size: None,
        };
        assert(r@ =~= Seq::new(8, |k: int| None::<i32>));
        r
    }
}

impl Default for ThemeConfig {
    /// An empty theme layer.
    fn default() -> (r: Self)
        ensures
            r.version is None,
            r.name is None,
            r.colors@ == Seq::new(13, |k: int| None::<Seq<char>>),
            r.layout@ == Seq::new(8, |k: int| None::<i32>),
            !r.dark,
    {
        ThemeConfig {
            version: None,
            name: None,
            colors: ThemeColors::default(),
            layout: ThemeLayout::default(),
            dark: false,
        }
    }
}

/// The built-in value of each layout entry.
pub open spec fn layout_default(k: int) -> i32 {
    if k == 0 {
        1360
    } else if k == 1 {
        840
    } else if k == 2 {
        238
    } else if k == 3 {
        316
    } else if k == 4 {
        12
    } else if k == 5 {
        10
    } else if k == 6 {
        30
    } else {
        64
    }
}

/// A layout value, or its built-in default when unset.
pub open spec fn layout_value(v: Option<i32>, k: int) -> i32 {
    match v {
        Some(x) => x,
        None => layout_default(k),
    }
}

impl ThemeConfig {
    /// Lay another theme over this one: its version, name, colours and layout win
    /// wherever they are set.
    pub fn overlay(&mut self, other: ThemeConfig)
        ensures
            final(self).version == overlay_opt(old(self).version, other.version),
            opt_text(final(self).name) == overlay_opt(opt_text(old(self).name), opt_text(other.name)),
            final(self).colors@ == Seq::new(13, |k: int| overlay_opt(old(self).colors@[k], other.colors@[k])),
            final(self).layout@ == Seq::new(8, |k: int| overlay_opt(old(self).layout@[k], other.layout@[k])),
            final(self).dark == old(self).dark,
    {
        if other.version.is_some() {
            self.version = other.version;
        }
        overlay_text(&mut self.name, other.name);
        self.colors.overlay(other.colors);
        self.layout.overlay(other.layout);
    }

    /// Drop invalid colours and clamp the layout.
    pub fn sanitize(&mut self)
        ensures
            final(self).colors@ == Seq::new(13, |k: int| sanitized_color(old(self).colors@[k])),
            final(self).layout@ == Seq::new(8, |k: int| clamped(old(self).layout@[k], layout_min(k), layout_max(k))),
            final(self).version == old(self).version,
            opt_text(final(self).name) == opt_text(old(self).name),
            final(self).dark == old(self).dark,
    {
        self.colors.sanitize();
        self.layout.sanitize();
    }

    pub fn window_width(&self) -> (r: i32)
        ensures
            r == layout_value(self.layout@[0], 0),
    {
        match self.layout.window_width {
            Some(v) => v,
            None => 1360,
        }
    }

    pub fn window_height(&self) -> (r: i32)
        ensures
            r == layout_value(self.layout@[1], 1),
    {
        match self.layout.window_height {
            Some(v) => v,
            None => 840,
        }
    }

    pub fn sidebar_width(&self) -> (r: i32)
        ensures
            r == layout_value(self.layout@[2], 2),
    {
        match self.layout.sidebar_width {
            Some(v) => v,
            None => 238,
        }
    }

    pub fn details_width(&self) -> (r: i32)
        ensures
            r == layout_value(self.layout@[3], 3),
    {
        match self.layout.details_width {
            Some(v) => v,
            None => 316,
        }
    }

    pub fn spacing(&self) -> (r: i32)
        ensures
            r == layout_value(self.layout@[4], 4),
    {
        match self.layout.spacing {
            Some(v) => v,
            None => 12,
        }
    }

    pub fn radius(&self) -> (r: i32)
        ensures
            r == layout_value(self.layout@[5], 5),
    {
        match self.layout.radius {
            Some(v) => v,
            None => 10,
        }
    }

    pub fn row_height(&self) -> (r: i32)
        ensures
            r == layout_value(self.layout@[6], 6),
    {
        match self.layout.row_height {
            Some(v) => v,
            None => 30,
        }
    }

    pub fn grid_icon_size(&self) -> (r: i32)
        ensures
            r == layout_value(self.layout@[7], 7),
    {
        match self.layout.grid_icon_size {
            Some(v) => v,
            None => 64,
        }
    }

    /// A colour resolved through the theme layers, falling back to the built-in value.
    pub fn color(&self, role: ColorRole) -> (r: &str)
        ensures
            r@ == match self.colors@[role_index(role)] {
                Some(v) => v,
                None => fallback_text(role),
            },
    {
        let configured = match role {
            ColorRole::Background => &self.colors.background,
            ColorRole::Surface => &self.colors.surface,
            ColorRole::SurfaceAlt => &self.colors.surface_alt,
            ColorRole::Elevated => &self.colors.elevated,
            ColorRole::Border => &self.colors.border,
            ColorRole::Text => &self.colors.text,
            ColorRole::TextBright => &self.colors.text_bright,
            ColorRole::TextMuted => &self.colors.text_muted,
            ColorRole::Accent => &self.colors.accent,
            ColorRole::Selection => &self.colors.selection,
            ColorRole::Danger => &self.colors.danger,
            ColorRole::Warning => &self.colors.warning,
            ColorRole::Success => &self.colors.success,
        };
        match configured {
            Some(v) => v.as_str(),
            None => role.fallback(),
        }
    }
}

// ------------------------------------------------------------------- copies ----

pub(crate) fn copy_text(s: &Option<String>) -> (r: Option<String>)
    ensures
        opt_text(r) == opt_text(*s),
{
    match s {
        Some(t) => Some(t.clone()),
        None => None,
    }
}

impl Clone for ThemeColors {
    /// The same colours.
    fn clone(&self) -> (r: Self)
        ensures
            r@ == self@,
    {
        ThemeColors {
            background: copy_text(&self.background),
            surface: copy_text(&self.surface),
            surface_alt: copy_text(&self.surface_alt),
            elevated: copy_text(&self.elevated),
            border: copy_text(&self.border),
            text: copy_text(&self.text),
            text_bright: copy_text(&self.text_bright),
            text_muted: copy_text(&self.text_muted),
            accent: copy_text(&self.accent),
            selection: copy_text(&self.selection),
            danger: copy_text(&self.danger),
            warning: copy_text(&self.warning),
            success: copy_text(&self.success),
        }
    }
}

impl Clone for ThemeLayout {
    /// The same layout.
    fn clone(&self) -> (r: Self)
        ensures
            r@ == self@,
    {
        ThemeLayout {
            window_width: self.window_width,
            window_height: self.window_height,
            sidebar_width: self.sidebar_width,
            details_width: self.details_width,
            spacing: self.spacing,
            radius: self.radius,
            row_height: self.row_height,
            grid_icon_size: self.grid_icon_size,
        }
    }
}

// --------------------------------------------------------------- theme files ----

/// Theme format version understood by this build of Teral.
pub const THEME_FORMAT_VERSION: u32 = 1;

/// A theme as read, or the refusal of one written for another format version (a theme
/// that names no version is taken as it is).
pub fn check_theme_version(theme: ThemeConfig) -> (r: Result<ThemeConfig, String>)
    ensures
        (theme.version matches Some(v) && v != THEME_FORMAT_VERSION) ==> (r matches Err(m) && m@
            == "unsupported theme version; Teral currently supports version = 1"@),
        !(theme.version matches Some(v) && v != THEME_FORMAT_VERSION) ==> (r matches Ok(t) && t == theme),
{
    match theme.version {
        Some(v) => if v != THEME_FORMAT_VERSION {
            return Err(String::from_str("unsupported theme version; Teral currently supports version = 1"));
        },
        None => {},
    }
    Ok(theme)
}

/// An Omarchy theme's palette, every colour optional.
#[derive(Debug)]
pub struct OmarchyColors {
    pub background: Option<String>,
    pub dark_background: Option<String>,
    pub darker_background: Option<String>,
    pub lighter_background: Option<String>,
    pub foreground: Option<String>,
    pub dark_foreground: Option<String>,
    pub bright_foreground: Option<String>,
    pub accent: Option<String>,
    pub selection: Option<String>,
    pub muted: Option<String>,
    pub red: Option<String>,
    pub yellow: Option<String>,
    pub green: Option<String>,
}

/// The first of two optional values that is set.
pub open spec fn either<T>(a: Option<T>, b: Option<T>) -> Option<T> {
    match a {
        Some(x) => Some(x),
        None => b,
    }
}

/// How an Omarchy palette maps onto Teral's colour roles.
pub open spec fn omarchy_colors(c: &OmarchyColors) -> Seq<Option<Seq<char>>> {
    seq![
        opt_text(c.background),
        either(opt_text(c.dark_background), opt_text(c.darker_background)),
        opt_text(c.lighter_background),
        either(opt_text(c.lighter_background), opt_text(c.dark_background)),
        opt_text(c.dark_background),
        opt_text(c.foreground),
        opt_text(c.bright_foreground),
        either(opt_text(c.muted), opt_text(c.dark_foreground)),
        opt_text(c.accent),
        opt_text(c.selection),
        opt_text(c.red),
        opt_text(c.yellow),
        opt_text(c.green),
    ]
}

fn either_text(a: &Option<String>, b: &Option<String>) -> (r: Option<String>)
    ensures
        opt_text(r) == either(opt_text(*a), opt_text(*b)),
{
    match a {
        Some(x) => Some(x.clone()),
        None => copy_text(b),
    }
}

/// The theme derived from an Omarchy palette: dark, named after the active theme, the
/// palette mapped onto Teral's roles, and no layout of its own.
pub fn derive_omarchy_theme(colors: &OmarchyColors) -> (r: ThemeConfig)
    ensures
        r.version == Some(THEME_FORMAT_VERSION),
        opt_text(r.name) == Some("Omarchy Active Theme"@),
        r.colors@ == omarchy_colors(colors),
        r.layout@ == Seq::new(8, |k: int| None::<i32>),
        r.dark,
{
    let c = ThemeColors {
        background: copy_text(&colors.background),
        surface: either_text(&colors.dark_background, &colors.darker_background),
        surface_alt: copy_text(&colors.lighter_background),
        elevated: either_text(&colors.lighter_background, &colors.dark_background),
        border: copy_text(&colors.dark_background),
        text: copy_text(&colors.foreground),
        text_bright: copy_text(&colors.bright_foreground),
        text_muted: either_text(&colors.muted, &colors.dark_foreground),
        accent: copy_text(&colors.accent),
        selection: copy_text(&colors.selection),
        danger: copy_text(&colors.red),
        warning: copy_text(&colors.yellow),
        success: copy_text(&colors.green),
    };
    assert(c@ =~= omarchy_colors(colors));
    ThemeConfig {
        version: Some(THEME_FORMAT_VERSION),
        name: Some(String::from_str("Omarchy Active Theme")),
        colors: c,
        layout: ThemeLayout::default(),
        dark: true,
    }
}

// ---------------------------------------------------------------- resolution ----

/// Whether the desktop prefers a dark appearance: the appearance portal's answer when
/// it gives one (1 dark, 2 light), otherwise GTK's own setting or a theme whose name,
/// in lowercase, says "dark"; with no GTK settings at all, not dark.
pub open spec fn desktop_prefers_dark(portal: Option<u32>, gtk_prefers_dark: Option<bool>, theme_name: Option<Seq<char>>) -> bool {
    if portal == Some(1u32) {
        true
    } else if portal == Some(2u32) {
        false
    } else {
        match gtk_prefers_dark {
            None => false,
            Some(d) => d || (theme_name matches Some(n) && contains_text(lowercased(n), "dark"@)),
        }
    }
}

/// Whether the desktop prefers a dark appearance.
pub fn system_prefers_dark(portal: Option<u32>, gtk_prefers_dark: Option<bool>, theme_name: Option<&str>) -> (r: bool)
    ensures
        r == desktop_prefers_dark(
            portal,
            gtk_prefers_dark,
            match theme_name {
                Some(n) => Some(n@),
                None => None,
            },
        ),
{
    match portal {
        Some(1u32) => return true,
        Some(2u32) => return false,
        _ => {},
    }
    match gtk_prefers_dark {
        None => false,
        Some(d) => {
            if d {
                return true;
            }
            match theme_name {
                Some(n) => {
                    let lower = lowercase(n);
                    contains_str(lower.as_str(), "dark")
                },
                None => false,
            }
        },
    }
}

/// Whether Teral's palette is the dark one: always for Teral's own mode; when
/// following the system, the Omarchy theme decides (light only when it carries a
/// `light.mode` marker), or else the desktop does.
pub open spec fn palette_is_dark(mode: ThemeMode, omarchy_light: Option<bool>, desktop_dark: bool) -> bool {
    match mode {
        ThemeMode::Teral => true,
        ThemeMode::System => match omarchy_light {
            Some(light) => !light,
            None => desktop_dark,
        },
    }
}

/// Whether Teral's palette is the dark one. `omarchy_light` is `None` when there is no
/// active Omarchy theme, and otherwise whether it is marked light.
pub fn prefers_dark(mode: ThemeMode, omarchy_light: Option<bool>, desktop_dark: bool) -> (r: bool)
    ensures
        r == palette_is_dark(mode, omarchy_light, desktop_dark),
{
    match mode {
        ThemeMode::Teral => true,
        ThemeMode::System => match omarchy_light {
            Some(light) => !light,
            None => desktop_dark,
        },
    }
}

/// The layer the desktop adds when Teral follows it: the active Omarchy theme, or the
/// palette and accent colour GTK and the appearance portal publish.
#[derive(Debug)]
pub enum DesktopLayer {
    Omarchy(ThemeConfig),
    System { palette: Option<ThemeColors>, accent: Option<String> },
}

/// The colours once the desktop layer is laid over the built-in palette.
pub open spec fn desktop_colors(base: Seq<Option<Seq<char>>>, layer: DesktopLayer) -> Seq<Option<Seq<char>>> {
    match layer {
        DesktopLayer::Omarchy(t) => Seq::new(13, |k: int| overlay_opt(base[k], t.colors@[k])),
        DesktopLayer::System { palette, accent } => {
            let painted = match palette {
                Some(p) => Seq::new(13, |k: int| overlay_opt(base[k], p@[k])),
                None => base,
            };
            match opt_text(accent) {
                Some(a) => painted.update(8, Some(a)),
                None => painted,
            }
        },
    }
}

/// The colours once the user's overrides are laid over everything, their accent
/// winning last.
pub open spec fn user_colors(base: Seq<Option<Seq<char>>>, config: &Config) -> Seq<Option<Seq<char>>> {
    let over = Seq::new(13, |k: int| overlay_opt(base[k], config.colors@[k]));
    match opt_text(config.accent) {
        Some(a) => over.update(8, Some(a)),
        None => over,
    }
}

/// Resolve the effective theme. Layers, lowest first: the built-in palette (`builtin`,
/// dark or light as `dark` says), the desktop's layer when following the system, and
/// the user's own overrides; the result is then sanitized.
#[verifier::rlimit(60)]
#[verifier::spinoff_prover]
pub fn resolve(config: &Config, builtin: ThemeConfig, dark: bool, desktop: DesktopLayer) -> (r: ThemeConfig)
    ensures
        ({
            let base = if config.mode == ThemeMode::System {
                desktop_colors(builtin.colors@, desktop)
            } else {
                builtin.colors@
            };
            let layout = if config.mode == ThemeMode::System && desktop is Omarchy {
                Seq::new(8, |k: int| overlay_opt(builtin.layout@[k], desktop->0.layout@[k]))
            } else {
                builtin.layout@
            };
            &&& r.colors@ == Seq::new(13, |k: int| sanitized_color(user_colors(base, config)[k]))
            &&& r.layout@ == Seq::new(8, |k: int| clamped(overlay_opt(layout[k], config.layout@[k]), layout_min(k), layout_max(k)))
            &&& r.dark == dark
            &&& config.mode == ThemeMode::Teral ==> opt_text(r.name) == opt_text(builtin.name) && r.version == builtin.version
            &&& (config.mode == ThemeMode::System && desktop is System) ==> opt_text(r.name) == Some("System"@) && r.version == builtin.version
            &&& (config.mode == ThemeMode::System && desktop is Omarchy) ==> opt_text(r.name) == overlay_opt(opt_text(builtin.name), opt_text(desktop->0.name)) && r.version == overlay_opt(builtin.version, desktop->0.version)
        }),
{
    let mut theme = builtin;
    theme.dark = dark;
    let ghost start = theme.colors@;
    if config.mode == ThemeMode::System {
        match desktop {
            DesktopLayer::Omarchy(overlay) => {
                theme.overlay(overlay);
            },
            DesktopLayer::System { palette, accent } => {
                match palette {
                    Some(p) => theme.colors.overlay(p),
                    None => {},
                }
                let ghost painted = theme.colors@;
                match accent {
                    Some(a) => {
                        theme.colors.accent = Some(a);
                        assert(theme.colors@ =~= painted.update(8, theme.colors@[8]));
                    },
                    None => {},
                }
                theme.name = Some(String::from_str("System"));
            },
        }
    }
    let ghost layered = theme.colors@;
    theme.colors.overlay(config.colors.clone());
    theme.layout.overlay(config.layout.clone());
    let ghost over = theme.colors@;
    match &config.accent {
        Some(a) => {
            theme.colors.accent = Some(a.clone());
            assert(theme.colors@ =~= over.update(8, Some(a@)));
        },
        None => {},
    }
    assert(theme.colors@ =~= user_colors(layered, config));
    theme.sanitize();
    theme
}

// -------------------------------------------------------------------- paths ----

/// `.config`, as bytes.
pub open spec fn config_suffix() -> Seq<u8> {
    seq![46u8, 99u8, 111u8, 110u8, 102u8, 105u8, 103u8]
}

/// `.local/state`, as bytes.
pub open spec fn state_suffix() -> Seq<u8> {
    seq![46u8, 108u8, 111u8, 99u8, 97u8, 108u8, 47u8, 115u8, 116u8, 97u8, 116u8, 101u8]
}

/// `.local/share`, as bytes.
pub open spec fn data_suffix() -> Seq<u8> {
    seq![46u8, 108u8, 111u8, 99u8, 97u8, 108u8, 47u8, 115u8, 104u8, 97u8, 114u8, 101u8]
}

/// An XDG base directory: the environment's value when it is set, else the
/// directory under home, else the directory relative to where Teral runs.
pub open spec fn xdg_dir(value: Option<Seq<u8>>, home: Option<Seq<u8>>, suffix: Seq<u8>) -> Seq<u8> {
    match value {
        Some(v) => v,
        None => match home {
            Some(h) => join(h, suffix),
            None => suffix,
        },
    }
}

/// Which XDG base directory.
#[derive(Debug, Clone, Copy, PartialEq, Eq, Structural)]
pub enum BaseDir {
    Config,
    State,
    Data,
}

/// The suffix of each base directory under home.
pub open spec fn base_suffix(which: BaseDir) -> Seq<u8> {
    match which {
        BaseDir::Config => config_suffix(),
        BaseDir::State => state_suffix(),
        BaseDir::Data => data_suffix(),
    }
}

/// The user's configuration, state or data directory, from the environment's value
/// for it and the home directory.
pub fn base_dir(which: BaseDir, value: Option<Vec<u8>>, home: Option<&[u8]>) -> (r: Vec<u8>)
    ensures
        r@ == xdg_dir(
            match value {
                Some(v) => Some(v@),
                None => None,
            },
            match home {
                Some(h) => Some(h@),
                None => None,
            },
            base_suffix(which),
        ),
{
    if let Some(v) = value {
        return v;
    }
    let suffix = match which {
        BaseDir::Config => copy_bytes(&[46u8, 99u8, 111u8, 110u8, 102u8, 105u8, 103u8]),
        BaseDir::State => copy_bytes(&[46u8, 108u8, 111u8, 99u8, 97u8, 108u8, 47u8, 115u8, 116u8, 97u8, 116u8, 101u8]),
        BaseDir::Data => copy_bytes(&[46u8, 108u8, 111u8, 99u8, 97u8, 108u8, 47u8, 115u8, 104u8, 97u8, 114u8, 101u8]),
    };
    assert(suffix@ =~= base_suffix(which));
    match home {
        Some(h) => join_path(h, suffix.as_slice()),
        None => suffix,
    }
}

/// `omarchy/current/theme`, as bytes.
pub open spec fn omarchy_link() -> Seq<u8> {
    seq![111u8, 109u8, 97u8, 114u8, 99u8, 104u8, 121u8, 47u8, 99u8, 117u8, 114u8, 114u8, 101u8, 110u8, 116u8, 47u8, 116u8, 104u8, 101u8, 109u8, 101u8]
}

/// Where an Omarchy installation can keep the link to its active theme: the override
/// alone when one is given (and not empty), else the link under each of the
/// configuration, state and data directories.
pub fn omarchy_theme_links(override_path: Option<Vec<u8>>, config_home: &[u8], state_home: &[u8], data_home: &[u8]) -> (r: Vec<Vec<u8>>)
    ensures
        (override_path matches Some(o) && o@.len() > 0) ==> paths_view(r@) == seq![override_path->0@],
        !(override_path matches Some(o) && o@.len() > 0) ==> paths_view(r@) == seq![
            join(config_home@, omarchy_link()),
            join(state_home@, omarchy_link()),
            join(data_home@, omarchy_link()),
        ],
{
    let mut r: Vec<Vec<u8>> = Vec::new();
    if let Some(o) = override_path {
        if o.len() > 0 {
            let ghost ov = o@;
            r.push(o);
            assert(paths_view(r@) =~= seq![ov]);
            return r;
        }
    }
    let link = copy_bytes(&[111u8, 109u8, 97u8, 114u8, 99u8, 104u8, 121u8, 47u8, 99u8, 117u8, 114u8, 114u8, 101u8, 110u8, 116u8, 47u8, 116u8, 104u8, 101u8, 109u8, 101u8]);
    assert(link@ =~= omarchy_link());
    r.push(join_path(config_home, link.as_slice()));
    r.push(join_path(state_home, link.as_slice()));
    r.push(join_path(data_home, link.as_slice()));
    assert(paths_view(r@) =~= seq![
        join(config_home@, omarchy_link()),
        join(state_home@, omarchy_link()),
        join(data_home@, omarchy_link()),
    ]);
    r
}

/// Following the system without an Omarchy theme, the palette is dark exactly when the
/// desktop prefers dark, whichever way the desktop is set.
pub proof fn lemma_system_follows_the_desktop(desktop_dark: bool)
    ensures
        palette_is_dark(ThemeMode::System, None, desktop_dark) == desktop_dark,
        palette_is_dark(ThemeMode::System, None, true),
        !palette_is_dark(ThemeMode::System, None, false),
{
}

} // verus!
