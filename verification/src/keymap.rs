//! Key names of the settings file and the key strings that get grabbed.
use vstd::prelude::*;
use vstd::string::*;
use crate::settings::{Settings, views, lemma_views_push, lemma_views_prefix};
use crate::text::{lowercase, str_eq, to_lowercase, ascii_only, ascii_lower};

verus! {

/// The X keysym named by a lower-case key name of the settings file.
pub open spec fn keysym_of(s: Seq<char>) -> Option<u32> {
    if s == "a"@ {
        Some(0x0061u32)
    } else if s == "b"@ {
        Some(0x0062u32)
    } else if s == "c"@ {
        Some(0x0063u32)
    } else if s == "d"@ {
        Some(0x0064u32)
    } else if s == "e"@ {
        Some(0x0065u32)
    } else if s == "f"@ {
        Some(0x0066u32)
    } else if s == "g"@ {
        Some(0x0067u32)
    } else if s == "h"@ {
        Some(0x0068u32)
    } else if s == "i"@ {
        Some(0x0069u32)
    } else if s == "j"@ {
        Some(0x006au32)
    } else if s == "k"@ {
        Some(0x006bu32)
    } else if s == "l"@ {
        Some(0x006cu32)
    } else if s == "m"@ {
        Some(0x006du32)
    } else if s == "n"@ {
        Some(0x006eu32)
    } else if s == "o"@ {
        Some(0x006fu32)
    } else if s == "p"@ {
        Some(0x0070u32)
    } else if s == "q"@ {
        Some(0x0071u32)
    } else if s == "r"@ {
        Some(0x0072u32)
    } else if s == "s"@ {
        Some(0x0073u32)
    } else if s == "t"@ {
        Some(0x0074u32)
    } else if s == "u"@ {
        Some(0x0075u32)
    } else if s == "v"@ {
        Some(0x0076u32)
    } else if s == "w"@ {
        Some(0x0077u32)
    } else if s == "x"@ {
        Some(0x0078u32)
    } else if s == "y"@ {
        Some(0x0079u32)
    } else if s == "z"@ {
        Some(0x007au32)
    } else if s == "0"@ {
        Some(0x0030u32)
    } else if s == "1"@ {
        Some(0x0031u32)
    } else if s == "2"@ {
        Some(0x0032u32)
    } else if s == "3"@ {
        Some(0x0033u32)
    } else if s == "4"@ {
        Some(0x0034u32)
    } else if s == "5"@ {
        Some(0x0035u32)
    } else if s == "6"@ {
        Some(0x0036u32)
    } else if s == "7"@ {
        Some(0x0037u32)
    } else if s == "8"@ {
        Some(0x0038u32)
    } else if s == "9"@ {
        Some(0x0039u32)
    } else if s == "f1"@ {
        Some(0xffbeu32)
    } else if s == "f2"@ {
        Some(0xffbfu32)
    } else if s == "f3"@ {
        Some(0xffc0u32)
    } else if s == "f4"@ {
        Some(0xffc1u32)
    } else if s == "f5"@ {
        Some(0xffc2u32)
    } else if s == "f6"@ {
        Some(0xffc3u32)
    } else if s == "f7"@ {
        Some(0xffc4u32)
    } else if s == "f8"@ {
        Some(0xffc5u32)
    } else if s == "f9"@ {
        Some(0xffc6u32)
    } else if s == "f10"@ {
        Some(0xffc7u32)
    } else if s == "f11"@ {
        Some(0xffc8u32)
    } else if s == "f12"@ {
        Some(0xffc9u32)
    } else if s == "spc"@ {
        Some(0x0020u32)
    } else if s == "space"@ {
        Some(0x0020u32)
    } else if s == "ret"@ {
        Some(0xff0du32)
    } else if s == "enter"@ {
        Some(0xff0du32)
    } else if s == "esc"@ {
        Some(0xff1bu32)
    } else if s == "tab"@ {
        Some(0xff09u32)
    } else if s == "bsp"@ {
        Some(0xff08u32)
    } else if s == "backspace"@ {
        Some(0xff08u32)
    } else if s == "del"@ {
        Some(0xffffu32)
    } else if s == "ins"@ {
        Some(0xff63u32)
    } else if s == "home"@ {
        Some(0xff50u32)
    } else if s == "end"@ {
        Some(0xff57u32)
    } else if s == "pgup"@ {
        Some(0xff55u32)
    } else if s == "pgdn"@ {
        Some(0xff56u32)
    } else if s == "up"@ {
        Some(0xff52u32)
    } else if s == "down"@ {
        Some(0xff54u32)
    } else if s == "left"@ {
        Some(0xff51u32)
    } else if s == "right"@ {
        Some(0xff53u32)
    } else if s == "-"@ {
        Some(0x002du32)
    } else if s == "="@ {
        Some(0x003du32)
    } else if s == "["@ {
        Some(0x005bu32)
    } else if s == "]"@ {
        Some(0x005du32)
    } else if s == "\\"@ {
        Some(0x005cu32)
    } else if s == ";"@ {
        Some(0x003bu32)
    } else if s == "'"@ {
        Some(0x0027u32)
    } else if s == ","@ {
        Some(0x002cu32)
    } else if s == "."@ {
        Some(0x002eu32)
    } else if s == "/"@ {
        Some(0x002fu32)
    } else if s == "`"@ {
        Some(0x0060u32)
    } else if s == "kp0"@ {
        Some(0xffb0u32)
    } else if s == "kp1"@ {
        Some(0xffb1u32)
    } else if s == "kp2"@ {
        Some(0xffb2u32)
    } else if s == "kp3"@ {
        Some(0xffb3u32)
    } else if s == "kp4"@ {
        Some(0xffb4u32)
    } else if s == "kp5"@ {
        Some(0xffb5u32)
    } else if s == "kp6"@ {
        Some(0xffb6u32)
    } else if s == "kp7"@ {
        Some(0xffb7u32)
    } else if s == "kp8"@ {
        Some(0xffb8u32)
    } else if s == "kp9"@ {
        Some(0xffb9u32)
    } else if s == "kp+"@ {
        Some(0xffabu32)
    } else if s == "kp-"@ {
        Some(0xffadu32)
    } else if s == "kp*"@ {
        Some(0xffaau32)
    } else if s == "kp/"@ {
        Some(0xffafu32)
    } else if s == "kp."@ {
        Some(0xffaeu32)
    } else if s == "kpret"@ {
        Some(0xff8du32)
    } else if s == "caps"@ {
        Some(0xffe5u32)
    } else if s == "num"@ {
        Some(0xff7fu32)
    } else if s == "mute"@ {
        Some(0x1008ff12u32)
    } else if s == "volu"@ {
        Some(0x1008ff13u32)
    } else if s == "vold"@ {
        Some(0x1008ff11u32)
    } else if s == "play"@ {
        Some(0x1008ff14u32)
    } else if s == "prev"@ {
        Some(0x1008ff16u32)
    } else if s == "next"@ {
        Some(0x1008ff17u32)
    } else if s == "briu"@ {
        Some(0x1008ff02u32)
    } else if s == "brid"@ {
        Some(0x1008ff03u32)
    } else {
        None
    }
}

/// The keysym for a key name of the settings file.  Names are read without
/// regard to case: the name is lower-cased with `str::to_lowercase` first.
pub fn parse_string(s: &str) -> (res: Option<u32>)
    ensures
        res == keysym_of(lowercase(s@)),
        ascii_only(s@) ==> res == keysym_of(ascii_lower(s@)),
{
    let l = to_lowercase(s);
    keysym_for_name(l.as_str())
}

/// The keysym for a key name that is already lower case.
pub fn keysym_for_name(t: &str) -> (res: Option<u32>)
    ensures
        res == keysym_of(t@),
{
    if str_eq(t, "a") {
        Some(0x0061u32)
    } else if str_eq(t, "b") {
        Some(0x0062u32)
    } else if str_eq(t, "c") {
        Some(0x0063u32)
    } else if str_eq(t, "d") {
        Some(0x0064u32)
    } else if str_eq(t, "e") {
        Some(0x0065u32)
    } else if str_eq(t, "f") {
        Some(0x0066u32)
    } else if str_eq(t, "g") {
        Some(0x0067u32)
    } else if str_eq(t, "h") {
        Some(0x0068u32)
    } else if str_eq(t, "i") {
        Some(0x0069u32)
    } else if str_eq(t, "j") {
        Some(0x006au32)
    } else if str_eq(t, "k") {
        Some(0x006bu32)
    } else if str_eq(t, "l") {
        Some(0x006cu32)
    } else if str_eq(t, "m") {
        Some(0x006du32)
    } else if str_eq(t, "n") {
        Some(0x006eu32)
    } else if str_eq(t, "o") {
        Some(0x006fu32)
    } else if str_eq(t, "p") {
        Some(0x0070u32)
    } else if str_eq(t, "q") {
        Some(0x0071u32)
    } else if str_eq(t, "r") {
        Some(0x0072u32)
    } else if str_eq(t, "s") {
        Some(0x0073u32)
    } else if str_eq(t, "t") {
        Some(0x0074u32)
    } else if str_eq(t, "u") {
        Some(0x0075u32)
    } else if str_eq(t, "v") {
        Some(0x0076u32)
    } else if str_eq(t, "w") {
        Some(0x0077u32)
    } else if str_eq(t, "x") {
        Some(0x0078u32)
    } else if str_eq(t, "y") {
        Some(0x0079u32)
    } else if str_eq(t, "z") {
        Some(0x007au32)
    } else if str_eq(t, "0") {
        Some(0x0030u32)
    } else if str_eq(t, "1") {
        Some(0x0031u32)
    } else if str_eq(t, "2") {
        Some(0x0032u32)
    } else if str_eq(t, "3") {
        Some(0x0033u32)
    } else if str_eq(t, "4") {
        Some(0x0034u32)
    } else if str_eq(t, "5") {
        Some(0x0035u32)
    } else if str_eq(t, "6") {
        Some(0x0036u32)
    } else if str_eq(t, "7") {
        Some(0x0037u32)
    } else if str_eq(t, "8") {
        Some(0x0038u32)
    } else if str_eq(t, "9") {
        Some(0x0039u32)
    } else if str_eq(t, "f1") {
        Some(0xffbeu32)
    } else if str_eq(t, "f2") {
        Some(0xffbfu32)
    } else if str_eq(t, "f3") {
        Some(0xffc0u32)
    } else if str_eq(t, "f4") {
        Some(0xffc1u32)
    } else if str_eq(t, "f5") {
        Some(0xffc2u32)
    } else if str_eq(t, "f6") {
        Some(0xffc3u32)
    } else if str_eq(t, "f7") {
        Some(0xffc4u32)
    } else if str_eq(t, "f8") {
        Some(0xffc5u32)
    } else if str_eq(t, "f9") {
        Some(0xffc6u32)
    } else if str_eq(t, "f10") {
        Some(0xffc7u32)
    } else if str_eq(t, "f11") {
        Some(0xffc8u32)
    } else if str_eq(t, "f12") {
        Some(0xffc9u32)
    } else if str_eq(t, "spc") {
        Some(0x0020u32)
    } else if str_eq(t, "space") {
        Some(0x0020u32)
    } else if str_eq(t, "ret") {
        Some(0xff0du32)
    } else if str_eq(t, "enter") {
        Some(0xff0du32)
    } else if str_eq(t, "esc") {
        Some(0xff1bu32)
    } else if str_eq(t, "tab") {
        Some(0xff09u32)
    } else if str_eq(t, "bsp") {
        Some(0xff08u32)
    } else if str_eq(t, "backspace") {
        Some(0xff08u32)
    } else if str_eq(t, "del") {
        Some(0xffffu32)
    } else if str_eq(t, "ins") {
        Some(0xff63u32)
    } else if str_eq(t, "home") {
        Some(0xff50u32)
    } else if str_eq(t, "end") {
        Some(0xff57u32)
    } else if str_eq(t, "pgup") {
        Some(0xff55u32)
    } else if str_eq(t, "pgdn") {
        Some(0xff56u32)
    } else if str_eq(t, "up") {
        Some(0xff52u32)
    } else if str_eq(t, "down") {
        Some(0xff54u32)
    } else if str_eq(t, "left") {
        Some(0xff51u32)
    } else if str_eq(t, "right") {
        Some(0xff53u32)
    } else if str_eq(t, "-") {
        Some(0x002du32)
    } else if str_eq(t, "=") {
        Some(0x003du32)
    } else if str_eq(t, "[") {
        Some(0x005bu32)
    } else if str_eq(t, "]") {
        Some(0x005du32)
    } else if str_eq(t, "\\") {
        Some(0x005cu32)
    } else if str_eq(t, ";") {
        Some(0x003bu32)
    } else if str_eq(t, "'") {
        Some(0x0027u32)
    } else if str_eq(t, ",") {
        Some(0x002cu32)
    } else if str_eq(t, ".") {
        Some(0x002eu32)
    } else if str_eq(t, "/") {
        Some(0x002fu32)
    } else if str_eq(t, "`") {
        Some(0x0060u32)
    } else if str_eq(t, "kp0") {
        Some(0xffb0u32)
    } else if str_eq(t, "kp1") {
        Some(0xffb1u32)
    } else if str_eq(t, "kp2") {
        Some(0xffb2u32)
    } else if str_eq(t, "kp3") {
        Some(0xffb3u32)
    } else if str_eq(t, "kp4") {
        Some(0xffb4u32)
    } else if str_eq(t, "kp5") {
        Some(0xffb5u32)
    } else if str_eq(t, "kp6") {
        Some(0xffb6u32)
    } else if str_eq(t, "kp7") {
        Some(0xffb7u32)
    } else if str_eq(t, "kp8") {
        Some(0xffb8u32)
    } else if str_eq(t, "kp9") {
        Some(0xffb9u32)
    } else if str_eq(t, "kp+") {
        Some(0xffabu32)
    } else if str_eq(t, "kp-") {
        Some(0xffadu32)
    } else if str_eq(t, "kp*") {
        Some(0xffaau32)
    } else if str_eq(t, "kp/") {
        Some(0xffafu32)
    } else if str_eq(t, "kp.") {
        Some(0xffaeu32)
    } else if str_eq(t, "kpret") {
        Some(0xff8du32)
    } else if str_eq(t, "caps") {
        Some(0xffe5u32)
    } else if str_eq(t, "num") {
        Some(0xff7fu32)
    } else if str_eq(t, "mute") {
        Some(0x1008ff12u32)
    } else if str_eq(t, "volu") {
        Some(0x1008ff13u32)
    } else if str_eq(t, "vold") {
        Some(0x1008ff11u32)
    } else if str_eq(t, "play") {
        Some(0x1008ff14u32)
    } else if str_eq(t, "prev") {
        Some(0x1008ff16u32)
    } else if str_eq(t, "next") {
        Some(0x1008ff17u32)
    } else if str_eq(t, "briu") {
        Some(0x1008ff02u32)
    } else if str_eq(t, "brid") {
        Some(0x1008ff03u32)
    } else {
        None
    }
}

/// Every key string of the bindings, in the order they are grabbed: the
/// function keys, the swap keys, close, fullscreen, help, the workspace keys
/// and the monitor key.
pub open spec fn key_strings(settings: Settings) -> Seq<Seq<char>> {
    let b = settings.bindings;
    b.functions@.map_values(|p: (String, String)| p.0@) + views(b.swaps@) + seq![
        b.close_main@,
        b.fullscreen@,
        b.help@,
    ] + views(b.workspaces@) + seq![b.monitor@]
}

/// Collects the key strings of all bindings.
pub fn get_key_strings(settings: &Settings) -> (res: Vec<String>)
    ensures
        views(res@) == key_strings(*settings),
{
    let b = &settings.bindings;
    let mut keys: Vec<String> = Vec::new();
    let mut i: usize = 0;
    while i < b.functions.len()
        invariant
            b == &settings.bindings,
            i <= b.functions@.len(),
            views(keys@) == b.functions@.subrange(0, i as int).map_values(|p: (String, String)| p.0@),
        decreases b.functions@.len() - i,
    {
        proof {
            lemma_views_push(keys@, b.functions@[i as int].0);
            assert(b.functions@.subrange(0, i + 1).map_values(|p: (String, String)| p.0@) =~= b.functions@.subrange(0, i as int).map_values(|p: (String, String)| p.0@).push(b.functions@[i as int].0@));
        }
        keys.push(b.functions[i].0.clone());
        i += 1;
    }
    assert(b.functions@.subrange(0, i as int) =~= b.functions@);
    let ghost base = views(keys@);
    let mut j: usize = 0;
    while j < b.swaps.len()
        invariant
            b == &settings.bindings,
            j <= b.swaps@.len(),
            views(keys@) == base + views(b.swaps@.subrange(0, j as int)),
        decreases b.swaps@.len() - j,
    {
        proof {
            lemma_views_push(keys@, b.swaps@[j as int]);
            lemma_views_prefix(b.swaps@, j as int);
            assert(base + views(b.swaps@.subrange(0, j + 1)) =~= (base + views(b.swaps@.subrange(0, j as int))).push(b.swaps@[j as int]@));
        }
        keys.push(b.swaps[j].clone());
        j += 1;
    }
    assert(b.swaps@.subrange(0, j as int) =~= b.swaps@);
    proof { lemma_views_push(keys@, b.close_main); }
    keys.push(b.close_main.clone());
    proof { lemma_views_push(keys@, b.fullscreen); }
    keys.push(b.fullscreen.clone());
    proof { lemma_views_push(keys@, b.help); }
    keys.push(b.help.clone());
    let ghost base2 = views(keys@);
    let mut k: usize = 0;
    while k < b.workspaces.len()
        invariant
            b == &settings.bindings,
            k <= b.workspaces@.len(),
            views(keys@) == base2 + views(b.workspaces@.subrange(0, k as int)),
        decreases b.workspaces@.len() - k,
    {
        proof {
            lemma_views_push(keys@, b.workspaces@[k as int]);
            lemma_views_prefix(b.workspaces@, k as int);
            assert(base2 + views(b.workspaces@.subrange(0, k + 1)) =~= (base2 + views(b.workspaces@.subrange(0, k as int))).push(b.workspaces@[k as int]@));
        }
        keys.push(b.workspaces[k].clone());
        k += 1;
    }
    assert(b.workspaces@.subrange(0, k as int) =~= b.workspaces@);
    proof { lemma_views_push(keys@, b.monitor); }
    keys.push(b.monitor.clone());
    assert(views(keys@) =~= key_strings(*settings));
    keys
}

} // verus!
