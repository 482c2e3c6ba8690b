//! The user-interface language: detection from locale settings and selection of the text
//! shown to the user.

use vstd::prelude::*;
use vstd::string::StringExecFns;

verus! {

/// A locale value that names Chinese: it starts with `zh`, in either case.
pub open spec fn is_zh_locale(v: Seq<char>) -> bool {
    v.len() >= 2 && (v[0] == 'z' || v[0] == 'Z') && (v[1] == 'h' || v[1] == 'H')
}

/// Whether a locale value (such as `zh_CN.UTF-8`) names Chinese.
pub fn locale_is_zh(v: &str) -> (b: bool)
    ensures
        b == is_zh_locale(v@),
{
    let c = crate::text::chars_of(v);
    c.len() >= 2 && (c[0] == 'z' || c[0] == 'Z') && (c[1] == 'h' || c[1] == 'H')
}

/// Whether any of the locale values that are set (`LC_ALL`, `LC_MESSAGES`, `LANG`) names
/// Chinese: best-effort detection from the process environment.
pub fn detect_zh(values: &Vec<String>) -> (b: bool)
    ensures
        b == exists|i: int| 0 <= i < values.len() && is_zh_locale(#[trigger] values@[i]@),
{
    let mut i: usize = 0;
    while i < values.len()
        invariant
            i <= values.len(),
            forall|j: int| 0 <= j < i ==> !is_zh_locale(#[trigger] values@[j]@),
        decreases values.len() - i,
    {
        if locale_is_zh(values[i].as_str()) {
            return true;
        }
        i += 1;
    }
    false
}

/// Whether the user interface is Chinese: the language the frontend reported, when it has
/// reported one, so that frontend and backend always agree; otherwise what the environment
/// suggests.
pub fn ui_is_zh(frontend: Option<bool>, env_values: &Vec<String>) -> (b: bool)
    ensures
        b == match frontend {
            Some(zh) => zh,
            None => exists|i: int| 0 <= i < env_values.len() && is_zh_locale(#[trigger] env_values@[i]@),
        },
{
    match frontend {
        Some(zh) => zh,
        None => detect_zh(env_values),
    }
}

/// The text for the language: `zh` when Chinese, `en` otherwise.
pub open spec fn pick(is_zh: bool, en: Seq<char>, zh: Seq<char>) -> Seq<char> {
    if is_zh {
        zh
    } else {
        en
    }
}

/// Picks the user-facing string for the UI language.
pub fn tr(is_zh: bool, en: &str, zh: &str) -> (r: String)
    ensures
        r@ == pick(is_zh, en@, zh@),
{
    if is_zh {
        String::from_str(zh)
    } else {
        String::from_str(en)
    }
}

} // verus!
