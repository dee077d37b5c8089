//! The helper programs that ship beside the window manager: the help window,
//! the close box, the monitor box and the key hints.
use vstd::prelude::*;
use vstd::string::*;
use crate::settings::{Settings, views, lemma_views_prefix};
use crate::text::{to_uppercase, uppercase};

verus! {

/// The command that starts the help window from the directory `dir`.
pub fn help_window(dir: &str) -> (res: String)
    ensures
        res@ == dir@ + "/help_window"@,
{
    String::from_str(dir).concat("/help_window")
}

/// The command that starts a close box from the directory `dir`.
pub fn close_box(dir: &str) -> (res: String)
    ensures
        res@ == dir@ + "/close_box"@,
{
    String::from_str(dir).concat("/close_box")
}

/// The command that starts a monitor box from the directory `dir`.
pub fn monitor_box(dir: &str) -> (res: String)
    ensures
        res@ == dir@ + "/monitor_box"@,
{
    String::from_str(dir).concat("/monitor_box")
}

/// The command that starts the key hint for `key` from the directory `dir`.
pub fn key_hint(dir: &str, key: &str) -> (res: String)
    ensures
        res@ == dir@ + "/key_hint \""@ + key@ + "\""@,
{
    String::from_str(dir).concat("/key_hint \"").concat(key).concat("\"")
}

/// The key hint window: the key it shows, upper case.
pub struct KeyWindow {
    pub key: String,
}

impl KeyWindow {
    /// A key hint window for `key`.
    pub fn new(key: &str) -> (res: KeyWindow)
        ensures
            res.key@ == uppercase(key@),
    {
        KeyWindow { key: to_uppercase(key) }
    }
}

/// The help window: the settings whose bindings it lists.
pub struct HelpWindow {
    pub settings: Settings,
}

/// How a piece of help text is shown: plain, as the title, as the super or
/// shift modifier, as a key, or as the closing line.
#[derive(PartialEq, Eq, Structural, Debug, Clone, Copy)]
pub enum Tone {
    Standard,
    Header,
    Modifier,
    Key,
    Footer,
}

/// The colour of a tone, as red, green and blue.
pub open spec fn spec_tone_rgb(t: Tone) -> (u8, u8, u8) {
    match t {
        Tone::Standard => (200, 200, 200),
        Tone::Header => (255, 255, 255),
        Tone::Modifier => (255, 255, 0),
        Tone::Key => (0, 255, 255),
        Tone::Footer => (255, 255, 255),
    }
}

/// The colour of a tone, as red, green and blue.
pub fn tone_rgb(t: Tone) -> (res: (u8, u8, u8))
    ensures
        res == spec_tone_rgb(t),
{
    match t {
        Tone::Standard => (200, 200, 200),
        Tone::Header => (255, 255, 255),
        Tone::Modifier => (255, 255, 0),
        Tone::Key => (0, 255, 255),
        Tone::Footer => (255, 255, 255),
    }
}

/// The text of a row of pieces.
pub open spec fn span_views(r: Seq<(String, Tone)>) -> Seq<(Seq<char>, Tone)> {
    r.map_values(|p: (String, Tone)| (p.0@, p.1))
}

/// The text of rows of pieces.
pub open spec fn row_views(rows: Seq<Vec<(String, Tone)>>) -> Seq<Seq<(Seq<char>, Tone)>> {
    rows.map_values(|r: Vec<(String, Tone)>| span_views(r@))
}

/// The strings joined, with `sep` between each two.
pub open spec fn joined(v: Seq<Seq<char>>, sep: Seq<char>) -> Seq<char>
    decreases v.len(),
{
    if v.len() == 0 {
        Seq::empty()
    } else if v.len() == 1 {
        v[0]
    } else {
        joined(v.drop_last(), sep) + sep + v.last()
    }
}

/// `[SUPER] + [key]: action`.
pub open spec fn super_row(key: Seq<char>, action: Seq<char>) -> Seq<(Seq<char>, Tone)> {
    seq![
        ("["@, Tone::Standard),
        ("SUPER"@, Tone::Modifier),
        ("] + ["@, Tone::Standard),
        (key, Tone::Key),
        ("]: "@ + action, Tone::Standard),
    ]
}

/// `[SUPER] + [SHIFT] + [key]: action`.
pub open spec fn super_shift_row(key: Seq<char>, action: Seq<char>) -> Seq<(Seq<char>, Tone)> {
    seq![
        ("["@, Tone::Standard),
        ("SUPER"@, Tone::Modifier),
        ("] + ["@, Tone::Standard),
        ("SHIFT"@, Tone::Modifier),
        ("] + ["@, Tone::Standard),
        (key, Tone::Key),
        ("]: "@ + action, Tone::Standard),
    ]
}

/// `[button]: action`.
pub open spec fn click_row(button: Seq<char>, action: Seq<char>) -> Seq<(Seq<char>, Tone)> {
    seq![("["@, Tone::Standard), (button, Tone::Key), ("]: "@ + action, Tone::Standard)]
}

/// The row of a function key: the key and its quoted command.
pub open spec fn function_row(p: (String, String)) -> Seq<(Seq<char>, Tone)> {
    super_row(uppercase(p.0@), "\""@ + p.1@ + "\""@)
}

/// The rows of the help window, top to bottom; an empty row is a blank line.
pub open spec fn help_rows(s: Settings) -> Seq<Seq<(Seq<char>, Tone)>> {
    let b = s.bindings;
    let ws = uppercase(joined(views(b.workspaces@), "  "@));
    seq![
        seq![("Pick Full WM - Help Menu"@, Tone::Header)],
        Seq::empty(),
        super_row(uppercase(b.help@), "open this help menu"@),
        click_row("LEFT CLICK"@, "make side window main"@),
        click_row("RIGHT CLICK"@, "kill side window"@),
        super_row(uppercase(b.close_main@), "close main window"@),
        super_row(uppercase(b.fullscreen@), "fullscreen main window"@),
        super_row(uppercase(joined(views(b.swaps@), "  "@)), "swap with side"@),
        super_row(ws, "set workspace"@),
        super_shift_row(ws, "move main to workspace"@),
        super_row(uppercase(b.monitor@), "cycle monitor index"@),
        super_shift_row(uppercase(b.monitor@), "move main to next monitor"@),
    ] + b.functions@.map_values(|p: (String, String)| function_row(p)) + seq![
        Seq::empty(),
        seq![("Click anywhere in this window (or tap any key) to close."@, Tone::Footer)],
    ]
}

/// The strings joined, with `sep` between each two.
pub fn join_with(v: &Vec<String>, sep: &str) -> (res: String)
    ensures
        res@ == joined(views(v@), sep@),
{
    let mut out = String::new();
    let mut i: usize = 0;
    while i < v.len()
        invariant
            i <= v@.len(),
            out@ == joined(views(v@.subrange(0, i as int)), sep@),
        decreases v@.len() - i,
    {
        proof {
            lemma_views_prefix(v@, i as int);
            assert(views(v@.subrange(0, i + 1)).drop_last() =~= views(v@.subrange(0, i as int)));
        }
        if i == 0 {
            out = v[0].clone();
        } else {
            out = out.concat(sep).concat(v[i].as_str());
        }
        i += 1;
    }
    assert(v@.subrange(0, i as int) =~= v@);
    out
}

fn piece(text: &str, tone: Tone) -> (res: (String, Tone))
    ensures
        res.0@ == text@,
        res.1 == tone,
{
    (String::from_str(text), tone)
}

fn super_pieces(key: String, action: &str) -> (res: Vec<(String, Tone)>)
    ensures
        span_views(res@) == super_row(key@, action@),
{
    let mut r: Vec<(String, Tone)> = Vec::new();
    r.push(piece("[", Tone::Standard));
    r.push(piece("SUPER", Tone::Modifier));
    r.push(piece("] + [", Tone::Standard));
    r.push((key, Tone::Key));
    r.push((String::from_str("]: ").concat(action), Tone::Standard));
    assert(span_views(r@) =~= super_row(key@, action@));
    r
}

fn super_shift_pieces(key: String, action: &str) -> (res: Vec<(String, Tone)>)
    ensures
        span_views(res@) == super_shift_row(key@, action@),
{
    let mut r: Vec<(String, Tone)> = Vec::new();
    r.push(piece("[", Tone::Standard));
    r.push(piece("SUPER", Tone::Modifier));
    r.push(piece("] + [", Tone::Standard));
    r.push(piece("SHIFT", Tone::Modifier));
    r.push(piece("] + [", Tone::Standard));
    r.push((key, Tone::Key));
    r.push((String::from_str("]: ").concat(action), Tone::Standard));
    assert(span_views(r@) =~= super_shift_row(key@, action@));
    r
}

fn click_pieces(button: &str, action: &str) -> (res: Vec<(String, Tone)>)
    ensures
        span_views(res@) == click_row(button@, action@),
{
    let mut r: Vec<(String, Tone)> = Vec::new();
    r.push(piece("[", Tone::Standard));
    r.push(piece(button, Tone::Key));
    r.push((String::from_str("]: ").concat(action), Tone::Standard));
    assert(span_views(r@) =~= click_row(button@, action@));
    r
}

fn single_piece(text: &str, tone: Tone) -> (res: Vec<(String, Tone)>)
    ensures
        span_views(res@) == seq![(text@, tone)],
{
    let mut r: Vec<(String, Tone)> = Vec::new();
    r.push(piece(text, tone));
    assert(span_views(r@) =~= seq![(text@, tone)]);
    r
}

impl HelpWindow {
    /// A help window for the given settings.
    pub fn new(settings: Settings) -> (res: HelpWindow)
        ensures
            res.settings == settings,
    {
        HelpWindow { settings }
    }

    /// The rows the help window shows: its title, the mouse actions and the
    /// bindings of its settings, upper case, and how to close it.
    pub fn rows(&self) -> (res: Vec<Vec<(String, Tone)>>)
        ensures
            row_views(res@) == help_rows(self.settings),
    {
        let b = &self.settings.bindings;
        let mut rows: Vec<Vec<(String, Tone)>> = Vec::new();
        rows.push(single_piece("Pick Full WM - Help Menu", Tone::Header));
        let blank: Vec<(String, Tone)> = Vec::new();
        assert(span_views(blank@) =~= Seq::<(Seq<char>, Tone)>::empty());
        rows.push(blank);
        rows.push(super_pieces(to_uppercase(b.help.as_str()), "open this help menu"));
        rows.push(click_pieces("LEFT CLICK", "make side window main"));
        rows.push(click_pieces("RIGHT CLICK", "kill side window"));
        rows.push(super_pieces(to_uppercase(b.close_main.as_str()), "close main window"));
        rows.push(super_pieces(to_uppercase(b.fullscreen.as_str()), "fullscreen main window"));
        let swaps = join_with(&b.swaps, "  ");
        rows.push(super_pieces(to_uppercase(swaps.as_str()), "swap with side"));
        let workspaces = join_with(&b.workspaces, "  ");
        rows.push(super_pieces(to_uppercase(workspaces.as_str()), "set workspace"));
        rows.push(super_shift_pieces(to_uppercase(workspaces.as_str()), "move main to workspace"));
        rows.push(super_pieces(to_uppercase(b.monitor.as_str()), "cycle monitor index"));
        rows.push(super_shift_pieces(to_uppercase(b.monitor.as_str()), "move main to next monitor"));
        let ghost head = row_views(rows@);
        let f = &b.functions;
        let mut i: usize = 0;
        while i < f.len()
            invariant
                f == &self.settings.bindings.functions,
                i <= f@.len(),
                row_views(rows@) == head + f@.subrange(0, i as int).map_values(|p: (String, String)| function_row(p)),
            decreases f@.len() - i,
        {
            let command = String::from_str("\"").concat(f[i].1.as_str()).concat("\"");
            let r = super_pieces(to_uppercase(f[i].0.as_str()), command.as_str());
            let ghost before = rows@;
            proof {
                assert(command@ == "\""@ + f@[i as int].1@ + "\""@);
                assert(span_views(r@) == function_row(f@[i as int]));
                assert(f@.subrange(0, i + 1) =~= f@.subrange(0, i as int).push(f@[i as int]));
            }
            rows.push(r);
            proof {
                assert(rows@ =~= before.push(r));
                assert(row_views(rows@) =~= row_views(before).push(span_views(r@)));
            }
            i += 1;
            assert(row_views(rows@) =~= head + f@.subrange(0, i as int).map_values(|p: (String, String)| function_row(p)));
        }
        let ghost mid = row_views(rows@);
        let blank: Vec<(String, Tone)> = Vec::new();
        assert(span_views(blank@) =~= Seq::<(Seq<char>, Tone)>::empty());
        rows.push(blank);
        rows.push(single_piece("Click anywhere in this window (or tap any key) to close.", Tone::Footer));
        proof {
            assert(f@.subrange(0, i as int) =~= f@);
            assert(row_views(rows@) =~= mid + seq![
                Seq::<(Seq<char>, Tone)>::empty(),
                seq![("Click anywhere in this window (or tap any key) to close."@, Tone::Footer)],
            ]);
            assert(row_views(rows@) =~= help_rows(self.settings));
        }
        rows
    }
}

} // verus!
