//! What kind of window a newly mapped window is.
use vstd::prelude::*;
use vstd::string::*;
use crate::settings::{Settings, views};
use crate::text::{contains, contains_seq};
use crate::windows::gets::{key_hint_window, spec_key_hint_key, name_view};

verus! {

/// The name holds `text`.
pub open spec fn name_has(name: Option<Seq<char>>, text: Seq<char>) -> bool {
    match name {
        None => false,
        Some(n) => contains_seq(n, text),
    }
}

/// The name is that of this window manager's help window.
pub fn is_help_window(name: &Option<String>) -> (res: bool)
    ensures
        res == name_has(name_view(name), "pfwm help"@),
{
    match name {
        None => false,
        Some(n) => contains(n.as_str(), "pfwm help"),
    }
}

/// The name is that of this window manager's close box.
pub fn is_close_box(name: &Option<String>) -> (res: bool)
    ensures
        res == name_has(name_view(name), "pfwm close"@),
{
    match name {
        None => false,
        Some(n) => contains(n.as_str(), "pfwm close"),
    }
}

/// A window that is never tiled: the help window, a key hint window, or a
/// window whose name holds one of the excluded application names.
pub open spec fn spec_excepted(settings: Settings, name: Option<Seq<char>>) -> bool {
    ||| name_has(name, "pfwm help"@)
    ||| spec_key_hint_key(name) is Some
    ||| exists|i: int|
        0 <= i < settings.applications.excluded@.len() && name_has(
            name,
            (#[trigger] settings.applications.excluded@[i])@,
        )
}

/// Whether a window is kept out of the tiling.
pub fn is_excepted_window(settings: &Settings, name: &Option<String>) -> (res: bool)
    ensures
        res == spec_excepted(*settings, name_view(name)),
        forall|i: int|
            0 <= i < settings.applications.excluded@.len() && name_has(
                name_view(name),
                (#[trigger] settings.applications.excluded@[i])@,
            ) ==> res,
{
    if is_help_window(name) || key_hint_window(name).is_some() {
        return true;
    }
    match name {
        None => false,
        Some(n) => {
            let ex = &settings.applications.excluded;
            let mut i: usize = 0;
            while i < ex.len()
                invariant
                    ex == &settings.applications.excluded,
                    name_view(name) == Some(n@),
                    i <= ex@.len(),
                    forall|j: int| 0 <= j < i ==> !name_has(Some(n@), (#[trigger] ex@[j])@),
                decreases ex@.len() - i,
            {
                if contains(n.as_str(), ex[i].as_str()) {
                    assert(name_has(name_view(name), ex@[i as int]@));
                    return true;
                }
                i += 1;
            }
            false
        },
    }
}

/// A pop-up window: override-redirect, transient for another window, or of
/// one of the given pop-up window types.
pub open spec fn spec_popup(
    override_redirect: bool,
    transient_len: u32,
    window_types: Seq<u32>,
    popup_types: Seq<u32>,
) -> bool {
    override_redirect || transient_len > 0 || exists|i: int|
        0 <= i < window_types.len() && popup_types.contains(#[trigger] window_types[i])
}

/// Whether a window floats, from what the server says of it.
pub fn is_popup(
    override_redirect: bool,
    transient_len: u32,
    window_types: &Vec<u32>,
    popup_types: &Vec<u32>,
) -> (res: bool)
    ensures
        res == spec_popup(override_redirect, transient_len, window_types@, popup_types@),
{
    if override_redirect || transient_len > 0 {
        return true;
    }
    let mut i: usize = 0;
    while i < window_types.len()
        invariant
            i <= window_types@.len(),
            forall|j: int| 0 <= j < i ==> !popup_types@.contains(#[trigger] window_types@[j]),
        decreases window_types@.len() - i,
    {
        let t = window_types[i];
        let mut j: usize = 0;
        while j < popup_types.len()
            invariant
                i < window_types@.len(),
                t == window_types@[i as int],
                j <= popup_types@.len(),
                forall|k: int| 0 <= k < j ==> popup_types@[k] != t,
            decreases popup_types@.len() - j,
        {
            if popup_types[j] == t {
                assert(popup_types@[j as int] == t);
                return true;
            }
            j += 1;
        }
        i += 1;
    }
    false
}

} // verus!
