//! Teral's stylesheet.
//!
//! The stylesheet is written against stable semantic classes (`.teral-*`) and against
//! GTK `@define-color` names derived from [`ColorRole`]. Theme authors therefore only
//! supply colours and a handful of layout numbers. The static part of the sheet is
//! shipped with Teral and handed in; installing the result on the display happens
//! outside this module.

use crate::text::{push_str, signed_decimal, signed_decimal_string};
use crate::theme::{
    all_roles, css_name_text, fallback_text, layout_value, role_index, ColorRole, ThemeConfig,
};
use vstd::prelude::*;

verus! {

/// The colour a theme gives a role, or the role's fallback.
pub open spec fn role_color(theme: &ThemeConfig, role: ColorRole) -> Seq<char> {
    match theme.colors@[role_index(role)] {
        Some(v) => v,
        None => fallback_text(role),
    }
}

/// One `@define-color` line per role, in `roles` order.
pub open spec fn color_lines(theme: &ThemeConfig, roles: Seq<ColorRole>) -> Seq<char>
    decreases roles.len(),
{
    if roles.len() == 0 {
        Seq::empty()
    } else {
        color_lines(theme, roles.drop_last()) + "@define-color "@ + css_name_text(roles.last()) + " "@
            + role_color(theme, roles.last()) + ";\n"@
    }
}

/// The `@define-color` lines of every role.
pub fn color_definitions(theme: &ThemeConfig) -> (r: String)
    ensures
        r@ == color_lines(theme, all_roles()),
{
    let roles = ColorRole::all();
    let mut css = String::new();
    let mut i: usize = 0;
    assert(roles@.take(0) =~= Seq::<ColorRole>::empty());
    while i < roles.len()
        invariant
            i <= roles.len(),
            roles@ == all_roles(),
            css@ == color_lines(theme, roles@.take(i as int)),
        decreases roles.len() - i,
    {
        let role = roles[i];
        let ghost next = roles@.take(i + 1);
        assert(next.drop_last() =~= roles@.take(i as int));
        assert(next.last() == role);
        push_str(&mut css, "@define-color ");
        push_str(&mut css, role.css_name());
        push_str(&mut css, " ");
        push_str(&mut css, theme.color(role));
        push_str(&mut css, ";\n");
        i += 1;
    }
    assert(roles@.take(roles.len() as int) =~= roles@);
    css
}

/// One less than the corner radius, but never below zero: the radius of elements
/// drawn inside a rounded one.
pub open spec fn inner_radius(radius: i32) -> int {
    if radius >= 1 {
        radius - 1
    } else {
        0
    }
}

/// The rules that carry the theme's layout numbers.
pub open spec fn metrics_text(radius: i32, row_height: i32) -> Seq<char> {
    ".teral-tile { border-radius: "@ + signed_decimal(radius as int) + "px; }\n"@
        + ".teral-preview { border-radius: "@ + signed_decimal(radius as int) + "px; }\n"@
        + ".teral-action { border-radius: "@ + signed_decimal(inner_radius(radius)) + "px; }\n"@
        + ".teral-command { border-radius: "@ + signed_decimal(inner_radius(radius)) + "px; }\n"@
        + "columnview.teral-list row cell { min-height: "@ + signed_decimal(row_height as int) + "px; }\n"@
}

/// The rules that carry the theme's corner radius and row height.
pub fn metrics(theme: &ThemeConfig) -> (r: String)
    ensures
        r@ == metrics_text(layout_value(theme.layout@[5], 5), layout_value(theme.layout@[6], 6)),
{
    let radius = theme.radius();
    let row_height = theme.row_height();
    let inner: i32 = if radius >= 1 {
        radius - 1
    } else {
        0
    };
    let outer_text = signed_decimal_string(radius);
    let inner_text = signed_decimal_string(inner);
    let row_text = signed_decimal_string(row_height);
    let mut css = String::new();
    push_str(&mut css, ".teral-tile { border-radius: ");
    push_str(&mut css, outer_text.as_str());
    push_str(&mut css, "px; }\n");
    push_str(&mut css, ".teral-preview { border-radius: ");
    push_str(&mut css, outer_text.as_str());
    push_str(&mut css, "px; }\n");
    push_str(&mut css, ".teral-action { border-radius: ");
    push_str(&mut css, inner_text.as_str());
    push_str(&mut css, "px; }\n");
    push_str(&mut css, ".teral-command { border-radius: ");
    push_str(&mut css, inner_text.as_str());
    push_str(&mut css, "px; }\n");
    push_str(&mut css, "columnview.teral-list row cell { min-height: ");
    push_str(&mut css, row_text.as_str());
    push_str(&mut css, "px; }\n");
    assert(css@ =~= metrics_text(radius, row_height));
    css
}

/// The complete stylesheet for a resolved theme: the colour definitions, the static
/// sheet, then the layout rules.
pub fn stylesheet(theme: &ThemeConfig, sheet: &str) -> (r: String)
    ensures
        r@ == color_lines(theme, all_roles()) + sheet@ + metrics_text(
            layout_value(theme.layout@[5], 5),
            layout_value(theme.layout@[6], 6),
        ),
{
    let mut css = color_definitions(theme);
    push_str(&mut css, sheet);
    let m = metrics(theme);
    push_str(&mut css, m.as_str());
    css
}

} // verus!
