//! User settings: the applications to start and exclude, the layout of the
//! main and side areas, and the key bindings.
use vstd::prelude::*;
use vstd::string::*;

verus! {

/// The character sequences of a list of strings.
pub open spec fn views(v: Seq<String>) -> Seq<Seq<char>> {
    v.map_values(|s: String| s@)
}

/// Appending a string appends its characters to the views.
pub proof fn lemma_views_push(v: Seq<String>, x: String)
    ensures
        views(v.push(x)) == views(v).push(x@),
{
    assert(views(v.push(x)) =~= views(v).push(x@));
}

/// Views of a one-longer prefix.
pub proof fn lemma_views_prefix(v: Seq<String>, j: int)
    requires
        0 <= j < v.len(),
    ensures
        views(v.subrange(0, j + 1)) == views(v.subrange(0, j)).push(v[j]@),
{
    assert(v.subrange(0, j + 1) =~= v.subrange(0, j).push(v[j]));
    lemma_views_push(v.subrange(0, j), v[j]);
}

/// The character sequences of a list of key/value string pairs.
pub open spec fn pair_views(v: Seq<(String, String)>) -> Seq<(Seq<char>, Seq<char>)> {
    v.map_values(|p: (String, String)| (p.0@, p.1@))
}

/// `a` comes before `b` in the order of their characters (the order of
/// their UTF-8 bytes).
pub open spec fn char_seq_less(a: Seq<char>, b: Seq<char>) -> bool
    decreases a.len(),
{
    if a.len() == 0 {
        b.len() > 0
    } else if b.len() == 0 {
        false
    } else if a[0] == b[0] {
        char_seq_less(a.drop_first(), b.drop_first())
    } else {
        (a[0] as u32) < (b[0] as u32)
    }
}

/// The keys are in strictly increasing order, so each occurs once.
pub open spec fn ascending_keys(ks: Seq<Seq<char>>) -> bool {
    forall|i: int, j: int| 0 <= i < j < ks.len() ==> char_seq_less(ks[i], ks[j])
}

/// The keys of the function bindings.
pub open spec fn function_keys(f: Seq<(String, String)>) -> Seq<Seq<char>> {
    f.map_values(|p: (String, String)| p.0@)
}

/// The order of character sequences is transitive.
pub proof fn lemma_char_seq_less_trans(a: Seq<char>, b: Seq<char>, c: Seq<char>)
    requires
        char_seq_less(a, b),
        char_seq_less(b, c),
    ensures
        char_seq_less(a, c),
    decreases a.len(),
{
    if a.len() > 0 && b.len() > 0 && c.len() > 0 && a[0] == b[0] && b[0] == c[0] {
        lemma_char_seq_less_trans(a.drop_first(), b.drop_first(), c.drop_first());
    }
}

proof fn lemma_chain(ks: Seq<Seq<char>>, i: int, j: int)
    requires
        forall|k: int| 0 <= k && k + 1 < ks.len() ==> char_seq_less(#[trigger] ks[k], ks[k + 1]),
        0 <= i < j < ks.len(),
    ensures
        char_seq_less(ks[i], ks[j]),
    decreases j - i,
{
    if j > i + 1 {
        lemma_chain(ks, i, j - 1);
        assert(char_seq_less(ks[j - 1], ks[j]));
        lemma_char_seq_less_trans(ks[i], ks[j - 1], ks[j]);
    }
}

/// Keys that increase from each to the next increase throughout.
pub proof fn lemma_ascending_adjacent(ks: Seq<Seq<char>>)
    ensures
        ascending_keys(ks) <==> forall|k: int| 0 <= k && k + 1 < ks.len() ==> char_seq_less(#[trigger] ks[k], ks[k + 1]),
{
    if forall|k: int| 0 <= k && k + 1 < ks.len() ==> char_seq_less(#[trigger] ks[k], ks[k + 1]) {
        assert forall|i: int, j: int| 0 <= i < j < ks.len() implies char_seq_less(ks[i], ks[j]) by {
            lemma_chain(ks, i, j);
        }
    }
    if ascending_keys(ks) {
        assert forall|k: int| 0 <= k && k + 1 < ks.len() implies char_seq_less(#[trigger] ks[k], ks[k + 1]) by {}
    }
}

/// Programs started at launch, and window names that are never tiled.
#[derive(Debug, Clone)]
pub struct Applications {
    pub startups: Vec<String>,
    pub excluded: Vec<String>,
}

/// Sizes and switches of the tiled layout, one size and offset per monitor.
#[derive(Debug, Clone)]
pub struct Layout {
    pub main_size: Vec<String>,
    pub top_left: Vec<String>,
    pub conditional_full: bool,
    pub new_to_main: bool,
    pub swap_not_stack: bool,
    pub close_box: bool,
    pub monitor_box: bool,
}

/// Key bindings.  `functions` maps a key to a shell command and is kept in
/// increasing key order, as the settings table is read.
#[derive(Debug, Clone)]
pub struct Bindings {
    pub functions: Vec<(String, String)>,
    pub swaps: Vec<String>,
    pub close_main: String,
    pub fullscreen: String,
    pub help: String,
    pub key_hints: bool,
    pub workspaces: Vec<String>,
    pub monitor: String,
}

/// All settings.
#[derive(Debug, Clone)]
pub struct Settings {
    pub applications: Applications,
    pub layout: Layout,
    pub bindings: Bindings,
}

fn s(lit: &str) -> (res: String)
    ensures
        res@ == lit@,
{
    String::from_str(lit)
}

fn kv(k: &str, v: &str) -> (res: (String, String))
    ensures
        res.0@ == k@,
        res.1@ == v@,
{
    (String::from_str(k), String::from_str(v))
}

impl Settings {
    /// The settings used when no settings file can be read.
    pub fn default() -> (res: Settings)
        ensures
            views(res.applications.startups@) == seq!["polybar"@],
            views(res.applications.excluded@) == seq!["polybar"@, "rofi"@],
            views(res.layout.main_size@) == seq!["80%x96%"@, "80%x100%"@],
            views(res.layout.top_left@) == seq!["0,4%"@, "0,0"@],
            res.layout.conditional_full,
            res.layout.new_to_main,
            res.layout.swap_not_stack,
            res.layout.close_box,
            res.layout.monitor_box,
            pair_views(res.bindings.functions@) == seq![
                ("b"@, "firefox-esr"@),
                ("brid"@, "brightnessctl set 10%-"@),
                ("briu"@, "brightnessctl set +10%"@),
                ("d"@, "rofi -show drun"@),
                ("mute"@, "wpctl set-mute @DEFAULT_SINK@ toggle"@),
                ("t"@, "alacritty"@),
                ("vold"@, "wpctl set-volume @DEFAULT_AUDIO_SINK@ 5%-"@),
                ("volu"@, "wpctl set-volume @DEFAULT_AUDIO_SINK@ 5%+"@),
            ],
            views(res.bindings.swaps@) == seq![
                "j"@,
                "k"@,
                "l"@,
                ";"@,
                "u"@,
                "i"@,
                "o"@,
                "p"@,
            ],
            res.bindings.close_main@ == "q"@,
            res.bindings.fullscreen@ == "f"@,
            res.bindings.help@ == "h"@,
            res.bindings.key_hints,
            views(res.bindings.workspaces@) == seq!["1"@, "2"@, "3"@, "4"@],
            res.bindings.monitor@ == "tab"@,
            ascending_keys(function_keys(res.bindings.functions@)),
    {
        let res = Settings {
            applications: Applications {
                startups: vec![s("polybar")],
                excluded: vec![s("polybar"), s("rofi")],
            },
            layout: Layout {
                main_size: vec![s("80%x96%"), s("80%x100%")],
                top_left: vec![s("0,4%"), s("0,0")],
                conditional_full: true,
                new_to_main: true,
                swap_not_stack: true,
                close_box: true,
                monitor_box: true,
            },
            bindings: Bindings {
                functions: vec![
                    kv("b", "firefox-esr"),
                    kv("brid", "brightnessctl set 10%-"),
                    kv("briu", "brightnessctl set +10%"),
                    kv("d", "rofi -show drun"),
                    kv("mute", "wpctl set-mute @DEFAULT_SINK@ toggle"),
                    kv("t", "alacritty"),
                    kv("vold", "wpctl set-volume @DEFAULT_AUDIO_SINK@ 5%-"),
                    kv("volu", "wpctl set-volume @DEFAULT_AUDIO_SINK@ 5%+"),
                ],
                swaps: vec![s("j"), s("k"), s("l"), s(";"), s("u"), s("i"), s("o"), s("p")],
                close_main: s("q"),
                fullscreen: s("f"),
                help: s("h"),
                key_hints: true,
                workspaces: vec![s("1"), s("2"), s("3"), s("4")],
                monitor: s("tab"),
            },
        };
        assert(views(res.applications.startups@) =~= seq!["polybar"@]);
        assert(views(res.applications.excluded@) =~= seq!["polybar"@, "rofi"@]);
        assert(views(res.layout.main_size@) =~= seq!["80%x96%"@, "80%x100%"@]);
        assert(views(res.layout.top_left@) =~= seq!["0,4%"@, "0,0"@]);
        assert(pair_views(res.bindings.functions@) =~= seq![
            ("b"@, "firefox-esr"@),
            ("brid"@, "brightnessctl set 10%-"@),
            ("briu"@, "brightnessctl set +10%"@),
            ("d"@, "rofi -show drun"@),
            ("mute"@, "wpctl set-mute @DEFAULT_SINK@ toggle"@),
            ("t"@, "alacritty"@),
            ("vold"@, "wpctl set-volume @DEFAULT_AUDIO_SINK@ 5%-"@),
            ("volu"@, "wpctl set-volume @DEFAULT_AUDIO_SINK@ 5%+"@),
        ]);
        assert(views(res.bindings.swaps@) =~= seq![
            "j"@,
            "k"@,
            "l"@,
            ";"@,
            "u"@,
            "i"@,
            "o"@,
            "p"@,
        ]);
        assert(views(res.bindings.workspaces@) =~= seq!["1"@, "2"@, "3"@, "4"@]);
        proof {
            let ks = function_keys(res.bindings.functions@);
            let pv = pair_views(res.bindings.functions@);
            assert(ks =~= seq!["b"@, "brid"@, "briu"@, "d"@, "mute"@, "t"@, "vold"@, "volu"@]) by {
                assert forall|i: int| 0 <= i < ks.len() implies ks[i] == pv[i].0 by {}
            }
            reveal_strlit("b");
            reveal_strlit("brid");
            reveal_strlit("briu");
            reveal_strlit("d");
            reveal_strlit("mute");
            reveal_strlit("t");
            reveal_strlit("vold");
            reveal_strlit("volu");
            reveal_with_fuel(char_seq_less, 5);
            assert(char_seq_less("b"@, "brid"@));
            assert(char_seq_less("brid"@, "briu"@));
            assert(char_seq_less("briu"@, "d"@));
            assert(char_seq_less("d"@, "mute"@));
            assert(char_seq_less("mute"@, "t"@));
            assert(char_seq_less("t"@, "vold"@));
            assert(char_seq_less("vold"@, "volu"@));
            assert forall|k: int| 0 <= k && k + 1 < ks.len() implies char_seq_less(#[trigger] ks[k], ks[k + 1]) by {
                if k == 0 {} else if k == 1 {} else if k == 2 {} else if k == 3 {} else if k == 4 {} else if k == 5 {} else {}
            }
            lemma_ascending_adjacent(ks);
        }
        res
    }
}

} // verus!
