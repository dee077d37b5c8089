//! Which keys are grabbed, and the keyboard mapping between key codes and
//! keysyms.
use vstd::prelude::*;
use vstd::string::*;
use crate::keymap::{get_key_strings, key_strings, keysym_of, parse_string};
use crate::settings::{Settings, views};
use crate::text::{lowercase, str_eq};

verus! {

/// The server's keyboard mapping: `keysyms_per_keycode` keysyms for each key
/// code from `min_keycode` to `max_keycode`, in order.
pub struct KeyboardMapping {
    pub min_keycode: u8,
    pub max_keycode: u8,
    pub keysyms_per_keycode: u8,
    pub keysyms: Vec<u32>,
}

/// Keysym `j` of key code offset `i`.
#[verifier::opaque]
pub open spec fn keysym_at(m: KeyboardMapping, i: int, j: int) -> u32 {
    m.keysyms@[i * m.keysyms_per_keycode + j]
}

proof fn lemma_keysym_at(m: KeyboardMapping, i: int, j: int, base: int)
    requires
        base == i * m.keysyms_per_keycode,
    ensures
        keysym_at(m, i, j) == m.keysyms@[base + j],
{
    reveal(keysym_at);
}

/// Key code offset `i` has `keysym` among its keysyms.
pub open spec fn code_has(m: KeyboardMapping, i: int, keysym: u32) -> bool {
    exists|j: int|
        0 <= j < m.keysyms_per_keycode && i * m.keysyms_per_keycode + j < m.keysyms@.len()
            && #[trigger] keysym_at(m, i, j) == keysym
}

/// The first key code (by offset from the smallest) that has the keysym.
pub open spec fn spec_keycode(m: KeyboardMapping, keysym: u32) -> Option<u8> {
    let n = m.max_keycode - m.min_keycode + 1;
    if exists|i: int| 0 <= i < n && #[trigger] code_has(m, i, keysym) {
        let i = choose|i: int|
            0 <= i < n && #[trigger] code_has(m, i, keysym) && forall|k: int| 0 <= k < i ==> !#[trigger] code_has(m, k, keysym);
        Some((m.min_keycode + i) as u8)
    } else {
        None
    }
}

proof fn lemma_spec_keycode(m: KeyboardMapping, keysym: u32, k: int)
    requires
        m.min_keycode <= m.max_keycode,
        0 <= k <= m.max_keycode - m.min_keycode + 1,
        forall|i: int| 0 <= i < k ==> !#[trigger] code_has(m, i, keysym),
        k == m.max_keycode - m.min_keycode + 1 || code_has(m, k, keysym),
    ensures
        spec_keycode(m, keysym) == (if k <= m.max_keycode - m.min_keycode {
            Some((m.min_keycode + k) as u8)
        } else {
            None::<u8>
        }),
{
    let n = m.max_keycode - m.min_keycode + 1;
    if k < n {
        assert(exists|c: int| 0 <= c < n && #[trigger] code_has(m, c, keysym) && forall|j: int|
            0 <= j < c ==> !#[trigger] code_has(m, j, keysym));
        let c = choose|c: int| 0 <= c < n && #[trigger] code_has(m, c, keysym) && forall|j: int|
            0 <= j < c ==> !#[trigger] code_has(m, j, keysym);
        if c < k {
            assert(!code_has(m, c, keysym));
        } else if c > k {
            assert(!code_has(m, k, keysym));
        }
    } else {
        assert forall|i: int| 0 <= i < n implies !#[trigger] code_has(m, i, keysym) by {}
    }
}

/// The key code that produces `keysym`: the first key code, in order, that
/// has it among its keysyms.
pub fn keysym_to_keycode(mapping: &KeyboardMapping, keysym: u32) -> (res: Option<u8>)
    requires
        mapping.min_keycode <= mapping.max_keycode,
    ensures
        res == spec_keycode(*mapping, keysym),
{
    let per = mapping.keysyms_per_keycode as usize;
    let last = (mapping.max_keycode - mapping.min_keycode) as usize;
    let mut i: usize = 0;
    while i <= last
        invariant
            per == mapping.keysyms_per_keycode,
            per <= 255,
            last <= 255,
            last == mapping.max_keycode - mapping.min_keycode,
            mapping.min_keycode <= mapping.max_keycode,
            i <= last + 1,
            forall|k: int| 0 <= k < i ==> !#[trigger] code_has(*mapping, k, keysym),
        decreases last + 1 - i,
    {
        proof {
            assert(i * per <= 255 * 255) by (nonlinear_arith)
                requires
                    i <= 255,
                    per <= 255,
            ;
        }
        let base = i * per;
        let mut j: usize = 0;
        while j < per
            invariant
                per == mapping.keysyms_per_keycode,
                per <= 255,
                i <= last,
                last <= 255,
                last == mapping.max_keycode - mapping.min_keycode,
                base == i * per,
                base <= 255 * 255,
                j <= per,
                mapping.min_keycode <= mapping.max_keycode,
                forall|k: int| 0 <= k < i ==> !#[trigger] code_has(*mapping, k, keysym),
                forall|jj: int|
                    0 <= jj < j ==> !(base + jj < mapping.keysyms@.len() && #[trigger] keysym_at(*mapping, i as int, jj) == keysym),
            decreases per - j,
        {
            let idx = base + j;
            proof {
                lemma_keysym_at(*mapping, i as int, j as int, base as int);
            }
            if idx < mapping.keysyms.len() && mapping.keysyms[idx] == keysym {
                proof {
                    assert(keysym_at(*mapping, i as int, j as int) == keysym);
                    assert(code_has(*mapping, i as int, keysym));
                    lemma_spec_keycode(*mapping, keysym, i as int);
                }
                let code = (mapping.min_keycode as usize + i) as u8;
                return Some(code);
            }
            j += 1;
        }
        proof {
            assert(!code_has(*mapping, i as int, keysym)) by {
                if code_has(*mapping, i as int, keysym) {
                    let jj = choose|jj: int|
                        0 <= jj < mapping.keysyms_per_keycode && i * mapping.keysyms_per_keycode + jj < mapping.keysyms@.len()
                            && #[trigger] keysym_at(*mapping, i as int, jj) == keysym;
                    assert(!(base + jj < mapping.keysyms@.len() && keysym_at(*mapping, i as int, jj) == keysym));
                }
            }
        }
        i += 1;
    }
    proof {
        lemma_spec_keycode(*mapping, keysym, last + 1);
    }
    None
}

/// The keysym of a key code: the first keysym listed for it, unless that is
/// zero or missing.
pub open spec fn spec_keysym(m: KeyboardMapping, keycode: u8) -> Option<u32> {
    let idx = (keycode - m.min_keycode) * m.keysyms_per_keycode;
    if idx < m.keysyms@.len() && m.keysyms@[idx] != 0 {
        Some(m.keysyms@[idx])
    } else {
        None
    }
}

/// The keysym a key code produces.
pub fn keycode_to_keysym(mapping: &KeyboardMapping, keycode: u8) -> (res: Option<u32>)
    requires
        mapping.min_keycode <= keycode,
    ensures
        res == spec_keysym(*mapping, keycode),
{
    let per = mapping.keysyms_per_keycode as usize;
    let index = (keycode - mapping.min_keycode) as usize;
    proof {
        assert(index * per <= 255 * 255) by (nonlinear_arith)
            requires
                index <= 255,
                per <= 255,
        ;
    }
    if index * per < mapping.keysyms.len() {
        let keysym = mapping.keysyms[index * per];
        if keysym != 0 {
            return Some(keysym);
        }
    }
    None
}

/// A key grab: the key code, with the super key alone or with super and shift.
#[derive(PartialEq, Eq, Structural, Debug, Clone, Copy)]
pub struct Grab {
    pub keycode: u8,
    pub shift: bool,
}

/// The key strings grabbed with shift as well: the monitor key and the
/// workspace keys.
pub open spec fn shifted(settings: Settings, k: Seq<char>) -> bool {
    k == settings.bindings.monitor@ || views(settings.bindings.workspaces@).contains(k)
}

/// The grabs of one key string.
pub open spec fn grabs_of(settings: Settings, m: KeyboardMapping, k: Seq<char>) -> Seq<Grab> {
    match keysym_of(lowercase(k)) {
        None => Seq::empty(),
        Some(sym) => match spec_keycode(m, sym) {
            None => Seq::empty(),
            Some(code) => seq![Grab { keycode: code, shift: false }] + if shifted(settings, k) {
                seq![Grab { keycode: code, shift: true }]
            } else {
                Seq::empty()
            },
        },
    }
}

/// The grabs of a list of key strings, in order.
pub open spec fn all_grabs(settings: Settings, m: KeyboardMapping, keys: Seq<Seq<char>>) -> Seq<Grab>
    decreases keys.len(),
{
    if keys.len() == 0 {
        Seq::empty()
    } else {
        all_grabs(settings, m, keys.drop_last()) + grabs_of(settings, m, keys.last())
    }
}

/// The key strings that name no known key, in order.
pub open spec fn unknown_keys(keys: Seq<Seq<char>>) -> Seq<Seq<char>>
    decreases keys.len(),
{
    if keys.len() == 0 {
        Seq::empty()
    } else {
        unknown_keys(keys.drop_last()) + if keysym_of(lowercase(keys.last())) is None {
            seq![keys.last()]
        } else {
            Seq::empty()
        }
    }
}

fn is_shifted(settings: &Settings, k: &String) -> (res: bool)
    ensures
        res == shifted(*settings, k@),
{
    if str_eq(k.as_str(), settings.bindings.monitor.as_str()) {
        return true;
    }
    let w = &settings.bindings.workspaces;
    let mut i: usize = 0;
    while i < w.len()
        invariant
            w == &settings.bindings.workspaces,
            i <= w@.len(),
            forall|j: int| 0 <= j < i ==> #[trigger] views(w@)[j] != k@,
        decreases w@.len() - i,
    {
        if str_eq(k.as_str(), w[i].as_str()) {
            assert(views(w@)[i as int] == k@);
            return true;
        }
        i += 1;
    }
    false
}

fn grabs_for_key(
    settings: &Settings,
    mapping: &KeyboardMapping,
    k: &String,
    grabs: &mut Vec<Grab>,
    unknown: &mut Vec<String>,
)
    requires
        mapping.min_keycode <= mapping.max_keycode,
    ensures
        final(grabs)@ == old(grabs)@ + grabs_of(*settings, *mapping, k@),
        views(final(unknown)@) == views(old(unknown)@) + if keysym_of(lowercase(k@)) is None {
            seq![k@]
        } else {
            Seq::empty()
        },
{
    let ghost g0 = grabs@;
    proof {
        crate::settings::lemma_views_push(unknown@, *k);
    }
    match parse_string(k.as_str()) {
        Some(sym) => {
            match keysym_to_keycode(mapping, sym) {
                Some(code) => {
                    grabs.push(Grab { keycode: code, shift: false });
                    if is_shifted(settings, k) {
                        grabs.push(Grab { keycode: code, shift: true });
                    }
                },
                None => {},
            }
            assert(grabs@ =~= g0 + grabs_of(*settings, *mapping, k@));
            assert(views(unknown@) =~= views(unknown@) + Seq::<Seq<char>>::empty());
        },
        None => {
            unknown.push(k.clone());
            assert(grabs@ =~= g0 + grabs_of(*settings, *mapping, k@));
        },
    }
}

/// The key grabs for all bindings (every key with super, the monitor and
/// workspace keys with super and shift too), and the key strings that name
/// no known key.
pub fn key_grabs(settings: &Settings, mapping: &KeyboardMapping) -> (res: (Vec<Grab>, Vec<String>))
    requires
        mapping.min_keycode <= mapping.max_keycode,
    ensures
        res.0@ == all_grabs(*settings, *mapping, key_strings(*settings)),
        views(res.1@) == unknown_keys(key_strings(*settings)),
{
    let keys = get_key_strings(settings);
    let mut grabs: Vec<Grab> = Vec::new();
    let mut unknown: Vec<String> = Vec::new();
    let mut i: usize = 0;
    while i < keys.len()
        invariant
            mapping.min_keycode <= mapping.max_keycode,
            views(keys@) == key_strings(*settings),
            i <= keys@.len(),
            grabs@ == all_grabs(*settings, *mapping, views(keys@).subrange(0, i as int)),
            views(unknown@) == unknown_keys(views(keys@).subrange(0, i as int)),
        decreases keys@.len() - i,
    {
        let k = &keys[i];
        proof {
            assert(views(keys@).subrange(0, i + 1).drop_last() =~= views(keys@).subrange(0, i as int));
            assert(views(keys@).subrange(0, i + 1).last() == k@);
        }
        grabs_for_key(settings, mapping, k, &mut grabs, &mut unknown);
        assert(grabs@ =~= all_grabs(*settings, *mapping, views(keys@).subrange(0, i + 1)));
        i += 1;
    }
    assert(views(keys@).subrange(0, i as int) =~= views(keys@));
    (grabs, unknown)
}

} // verus!
