//! Deciding whether a diagnostic reports an internal compiler error, and whether a program or
//! its diagnostic involves compiler-internal features whose crashes are not worth triaging.
use vstd::prelude::*;

use crate::text::{contains, has, to_chars};

verus! {

/// Some marker of `markers` occurs in `s`.
pub open spec fn contains_any(s: Seq<char>, markers: Seq<Seq<char>>) -> bool {
    exists|k: int| 0 <= k < markers.len() && contains(s, #[trigger] markers[k])
}

pub open spec fn char_views(v: Seq<Vec<char>>) -> Seq<Seq<char>> {
    v.map_values(|m: Vec<char>| m@)
}

/// The markers that only a report of an internal compiler error prints.
pub open spec fn ice_markers() -> Seq<Seq<char>> {
    seq![
        "error: internal compiler error:"@,
        "error: the compiler unexpectedly panicked"@,
        "error: rustc interrupted by SIGSEGV, printing backtrace"@,
    ]
}

/// Source text that uses compiler-internal features.
pub open spec fn internal_code_markers() -> Seq<Seq<char>> {
    seq![
        "break rust"@,
        "core_intrinsics"@,
        "#[custom_mir"@,
        "#[lang"@,
        "lang_items"@,
        "mir!"@,
        "#![no_core]"@,
        "platform_intrinsics"@,
        "rustc_attrs"@,
        "#[rustc_"@,
        "rustc_layout_scalar_valid_range_end"@,
        "#[rustc_symbol_name]"@,
        "#[rustc_variance]"@,
        "staged_api"@,
    ]
}

/// Diagnostic text that shows internal or incomplete features in use.
pub open spec fn internal_output_markers() -> Seq<Seq<char>> {
    seq![
        "core_intrinsics"@,
        "Projecting into SIMD type"@,
        "break rust"@,
        "is internal to the compiler or standard library"@,
        "is incomplete and may not be safe to use and/or cause compiler crashes"@,
        "is an experimental feature"@,
    ]
}

pub fn ice_marker_list() -> (r: Vec<Vec<char>>)
    ensures
        char_views(r@) == ice_markers(),
{
    let r = vec![
        to_chars("error: internal compiler error:"),
        to_chars("error: the compiler unexpectedly panicked"),
        to_chars("error: rustc interrupted by SIGSEGV, printing backtrace"),
    ];
    assert(char_views(r@) =~= ice_markers());
    r
}

pub fn internal_code_marker_list() -> (r: Vec<Vec<char>>)
    ensures
        char_views(r@) == internal_code_markers(),
{
    let r = vec![
        to_chars("break rust"),
        to_chars("core_intrinsics"),
        to_chars("#[custom_mir"),
        to_chars("#[lang"),
        to_chars("lang_items"),
        to_chars("mir!"),
        to_chars("#![no_core]"),
        to_chars("platform_intrinsics"),
        to_chars("rustc_attrs"),
        to_chars("#[rustc_"),
        to_chars("rustc_layout_scalar_valid_range_end"),
        to_chars("#[rustc_symbol_name]"),
        to_chars("#[rustc_variance]"),
        to_chars("staged_api"),
    ];
    assert(char_views(r@) =~= internal_code_markers());
    r
}

pub fn internal_output_marker_list() -> (r: Vec<Vec<char>>)
    ensures
        char_views(r@) == internal_output_markers(),
{
    let r = vec![
        to_chars("core_intrinsics"),
        to_chars("Projecting into SIMD type"),
        to_chars("break rust"),
        to_chars("is internal to the compiler or standard library"),
        to_chars("is incomplete and may not be safe to use and/or cause compiler crashes"),
        to_chars("is an experimental feature"),
    ];
    assert(char_views(r@) =~= internal_output_markers());
    r
}

/// Whether some marker of `markers` occurs in `text`.
pub fn contains_marker(text: &str, markers: &Vec<Vec<char>>) -> (r: bool)
    ensures
        r == contains_any(text@, char_views(markers@)),
{
    let s = to_chars(text);
    let mut k: usize = 0;
    while k < markers.len()
        invariant
            s@ == text@,
            k <= markers.len(),
            forall|j: int| 0 <= j < k ==> !contains(text@, #[trigger] markers@[j]@),
        decreases markers.len() - k,
    {
        if has(&s, &markers[k]) {
            assert(contains(text@, char_views(markers@)[k as int]));
            return true;
        }
        k = k + 1;
    }
    assert forall|j: int| 0 <= j < markers.len() implies !contains(
        text@,
        #[trigger] char_views(markers@)[j],
    ) by {
        assert(!contains(text@, markers@[j]@));
    }
    false
}

/// Whether `out` reports an internal compiler error.
pub fn is_ice(out: &str) -> (r: bool)
    ensures
        r == contains_any(out@, ice_markers()),
{
    contains_marker(out, &ice_marker_list())
}

/// Whether the program `code` uses compiler-internal features.
pub fn code_uses_internal_features(code: &str) -> (r: bool)
    ensures
        r == contains_any(code@, internal_code_markers()),
{
    contains_marker(code, &internal_code_marker_list())
}

/// Whether the diagnostic `out` shows internal or incomplete features in use.
pub fn uses_internal_features(out: &str) -> (r: bool)
    ensures
        r == contains_any(out@, internal_output_markers()),
{
    contains_marker(out, &internal_output_marker_list())
}

} // verus!
