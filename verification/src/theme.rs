//! Terminal colour schemes: reading the palette of a Ghostty or Alacritty
//! configuration and writing it as the style sheet variables of the client.

use crate::number::{digits, format_u64, parse_index, parse_unsigned};
use crate::text::{
    after, ascii_lower, before, chars_of, contains, find, find_char, find_char_in, find_first,
    has_prefix, has_substring, is_hex_digit, lines, push_all, push_str, rest_from, slice_eq,
    split_lines, starts_with, string_of, texts, to_ascii_lower, trim, trimmed, up_to,
};
use crate::types::{opt_text, str_views};
use vstd::prelude::*;

verus! {

/// The sixteen colours of a terminal, its background and foreground, and
/// the background of a selection where the scheme names one. `normal` and
/// `bright` hold black, red, green, yellow, blue, magenta, cyan and white,
/// in this order.
#[derive(Debug, Clone)]
pub struct ThemeColors {
    pub bg: String,
    pub fg: String,
    pub normal: [String; 8],
    pub bright: [String; 8],
    pub selection_bg: Option<String>,
}

/// The mathematical value of a colour scheme.
pub ghost struct ThemeColorsView {
    pub bg: Seq<char>,
    pub fg: Seq<char>,
    pub normal: Seq<Seq<char>>,
    pub bright: Seq<Seq<char>>,
    pub selection_bg: Option<Seq<char>>,
}

impl View for ThemeColors {
    type V = ThemeColorsView;

    open spec fn view(&self) -> ThemeColorsView {
        ThemeColorsView {
            bg: self.bg@,
            fg: self.fg@,
            normal: str_views(self.normal@),
            bright: str_views(self.bright@),
            selection_bg: opt_text(self.selection_bg),
        }
    }
}

// ---------------------------------------------------------------------------
// Colours
// ---------------------------------------------------------------------------

/// The text between the quotes of a value that begins with a quote and
/// holds the same quote again.
pub open spec fn quoted(s: Seq<char>) -> Option<Seq<char>> {
    if s.len() > 0 && (s[0] == '\'' || s[0] == '"') {
        match find_char(after(s, 1), s[0]) {
            Some(end) => Some(before(after(s, 1), end)),
            None => None,
        }
    } else {
        None
    }
}

/// The part of a value that names the colour: what stands between quotes;
/// else what stands before a comment that begins with ` #`; else all of it.
pub open spec fn colour_text(raw: Seq<char>) -> Seq<char> {
    let t = trim(raw);
    match quoted(t) {
        Some(inner) => inner,
        None => match find(t, " #"@) {
            Some(pos) => trim(before(t, pos)),
            None => t,
        },
    }
}

/// A text without the prefix `#`, `0x` or `0X` that it may begin with.
pub open spec fn without_prefix(s: Seq<char>) -> Seq<char> {
    if has_prefix(s, "#"@) {
        after(s, 1)
    } else if has_prefix(s, "0x"@) {
        after(s, 2)
    } else if has_prefix(s, "0X"@) {
        after(s, 2)
    } else {
        s
    }
}

/// Whether a text holds hexadecimal digits only.
pub open spec fn all_hex(s: Seq<char>) -> bool {
    forall|i: int| 0 <= i < s.len() ==> is_hex_digit(#[trigger] s[i])
}

/// The colour that a value names, as `#` and six lowercase hexadecimal
/// digits; none if the value does not come down to six such digits.
pub open spec fn normal_hex(raw: Seq<char>) -> Option<Seq<char>> {
    let hex = without_prefix(colour_text(raw));
    if hex.len() == 6 && all_hex(hex) {
        Some(seq!['#'] + ascii_lower(hex))
    } else {
        None
    }
}

fn read_quoted<'a>(s: &'a [char]) -> (r: Option<&'a [char]>)
    ensures
        match r {
            Some(v) => quoted(s@) == Some(v@),
            None => quoted(s@) is None,
        },
{
    if s.len() > 0 && (s[0] == '\'' || s[0] == '"') {
        let inner = rest_from(s, 1);
        match find_char_in(inner, s[0]) {
            Some(end) => Some(up_to(inner, end)),
            None => None,
        }
    } else {
        None
    }
}

fn check_all_hex(s: &[char]) -> (r: bool)
    ensures
        r == all_hex(s@),
{
    let mut i: usize = 0;
    while i < s.len()
        invariant
            i <= s@.len(),
            forall|j: int| 0 <= j < i ==> is_hex_digit(#[trigger] s@[j]),
        decreases s@.len() - i,
    {
        let c = s[i];
        if !(('0' <= c && c <= '9') || ('a' <= c && c <= 'f') || ('A' <= c && c <= 'F')) {
            return false;
        }
        i += 1;
    }
    true
}

/// Reads the colour that a value of a configuration names.
pub fn normalize_hex(raw: &[char]) -> (r: Option<Vec<char>>)
    ensures
        match r {
            Some(v) => normal_hex(raw@) == Some(v@),
            None => normal_hex(raw@) is None,
        },
{
    let t = trimmed(raw);
    let total: usize = t.len();
    proof {
        reveal_strlit(" #");
        reveal_strlit("#");
        reveal_strlit("0x");
        reveal_strlit("0X");
    }
    let s = match read_quoted(t) {
        Some(inner) => inner,
        None => match find_first(t, chars_of(" #").as_slice()) {
            Some(pos) => trimmed(up_to(t, pos)),
            None => t,
        },
    };
    let hex = if starts_with(s, chars_of("#").as_slice()) {
        rest_from(s, 1)
    } else if starts_with(s, chars_of("0x").as_slice()) {
        rest_from(s, 2)
    } else if starts_with(s, chars_of("0X").as_slice()) {
        rest_from(s, 2)
    } else {
        s
    };
    if hex.len() == 6 && check_all_hex(hex) {
        let mut out: Vec<char> = Vec::new();
        out.push('#');
        push_all(&mut out, to_ascii_lower(hex).as_slice());
        proof {
            assert(out@ =~= seq!['#'] + ascii_lower(hex@));
        }
        Some(out)
    } else {
        None
    }
}

/// The value of a hexadecimal digit; zero for any other character.
pub open spec fn hex_value(c: char) -> int {
    if '0' <= c <= '9' {
        (c as u32) - ('0' as u32)
    } else if 'a' <= c <= 'f' {
        (c as u32) - ('a' as u32) + 10
    } else if 'A' <= c <= 'F' {
        (c as u32) - ('A' as u32) + 10
    } else {
        0
    }
}

/// The number that two characters denote in hexadecimal notation, where a
/// plus sign may stand for the first digit; zero if they denote none.
pub open spec fn byte_value(hi: char, lo: char) -> int {
    if is_hex_digit(hi) && is_hex_digit(lo) {
        hex_value(hi) * 16 + hex_value(lo)
    } else if hi == '+' && is_hex_digit(lo) {
        hex_value(lo)
    } else {
        0
    }
}

/// The component of a colour that begins at position `at`; zero where the
/// text is too short.
pub open spec fn component(h: Seq<char>, at: int) -> int {
    if 0 <= at && at + 2 <= h.len() {
        byte_value(h[at], h[at + 1])
    } else {
        0
    }
}

/// The red, green and blue of a colour in decimal notation, with commas
/// between them.
pub open spec fn rgb_text(hex: Seq<char>) -> Seq<char> {
    let h = if has_prefix(hex, "#"@) {
        after(hex, 1)
    } else {
        hex
    };
    digits(component(h, 0)) + seq![','] + digits(component(h, 2)) + seq![','] + digits(
        component(h, 4),
    )
}

fn read_hex_value(c: char) -> (r: u64)
    ensures
        r == hex_value(c),
        r <= 15,
{
    if '0' <= c && c <= '9' {
        (c as u32 - '0' as u32) as u64
    } else if 'a' <= c && c <= 'f' {
        (c as u32 - 'a' as u32 + 10) as u64
    } else if 'A' <= c && c <= 'F' {
        (c as u32 - 'A' as u32 + 10) as u64
    } else {
        0
    }
}

fn is_hex(c: char) -> (r: bool)
    ensures
        r == is_hex_digit(c),
{
    ('0' <= c && c <= '9') || ('a' <= c && c <= 'f') || ('A' <= c && c <= 'F')
}

fn read_component(h: &[char], at: usize) -> (r: u64)
    requires
        at <= 4,
    ensures
        r == component(h@, at as int),
        r <= 255,
{
    if h.len() >= 2 && at <= h.len() - 2 {
        let hi = h[at];
        let lo = h[at + 1];
        if is_hex(hi) && is_hex(lo) {
            read_hex_value(hi) * 16 + read_hex_value(lo)
        } else if hi == '+' && is_hex(lo) {
            read_hex_value(lo)
        } else {
            0
        }
    } else {
        0
    }
}

/// Writes the components of a colour in decimal notation.
pub fn hex_to_rgb(hex: &[char]) -> (r: Vec<char>)
    ensures
        r@ == rgb_text(hex@),
{
    proof {
        reveal_strlit("#");
    }
    let h = if starts_with(hex, chars_of("#").as_slice()) {
        rest_from(hex, 1)
    } else {
        hex
    };
    let mut out = format_u64(read_component(h, 0));
    out.push(',');
    push_all(&mut out, format_u64(read_component(h, 2)).as_slice());
    out.push(',');
    push_all(&mut out, format_u64(read_component(h, 4)).as_slice());
    proof {
        assert(out@ =~= rgb_text(hex@));
    }
    out
}

// ---------------------------------------------------------------------------
// Settings
// ---------------------------------------------------------------------------

/// The key and the value of a line that sets something: what stands before
/// and after its first `=`.
pub open spec fn setting(line: Seq<char>) -> Option<(Seq<char>, Seq<char>)> {
    match find_char(line, '=') {
        Some(i) => Some((before(line, i), after(line, i + 1))),
        None => None,
    }
}

/// Reads the key and the value of a line that sets something.
pub fn read_setting<'a>(line: &'a [char]) -> (r: Option<(&'a [char], &'a [char])>)
    ensures
        match r {
            Some(kv) => setting(line@) == Some((kv.0@, kv.1@)),
            None => setting(line@) is None,
        },
{
    let total: usize = line.len();
    match find_char_in(line, '=') {
        Some(i) => Some((up_to(line, i), rest_from(line, i + 1))),
        None => None,
    }
}

/// Whether a line says nothing: it is blank, or a comment.
pub open spec fn is_silent(line: Seq<char>) -> bool {
    trim(line).len() == 0 || trim(line)[0] == '#'
}

/// What has been read of a colour scheme so far.
pub ghost struct Palette {
    pub bg: Option<Seq<char>>,
    pub fg: Option<Seq<char>>,
    pub selection_bg: Option<Seq<char>>,
    pub colours: Seq<Option<Seq<char>>>,
}

/// A palette of which nothing is known.
pub open spec fn blank_palette() -> Palette {
    Palette {
        bg: None,
        fg: None,
        selection_bg: None,
        colours: Seq::new(16, |i: int| None::<Seq<char>>),
    }
}

/// The scheme that a palette gives: it needs all sixteen colours, a
/// background and a foreground.
pub open spec fn scheme_of(p: Palette) -> Option<ThemeColorsView> {
    if p.colours.len() == 16 && (forall|i: int| 0 <= i < 16 ==> (#[trigger] p.colours[i]) is Some)
        && p.bg is Some && p.fg is Some {
        Some(
            ThemeColorsView {
                bg: p.bg->0,
                fg: p.fg->0,
                normal: Seq::new(8, |i: int| p.colours[i]->0),
                bright: Seq::new(8, |i: int| p.colours[i + 8]->0),
                selection_bg: p.selection_bg,
            },
        )
    } else {
        None
    }
}

/// The palette as it is kept while reading.
struct Reading {
    bg: Option<Vec<char>>,
    fg: Option<Vec<char>>,
    selection_bg: Option<Vec<char>>,
    colours: Vec<Option<Vec<char>>>,
}

spec fn opt_chars(v: Option<Vec<char>>) -> Option<Seq<char>> {
    match v {
        Some(c) => Some(c@),
        None => None,
    }
}

impl Reading {
    spec fn view(&self) -> Palette {
        Palette {
            bg: opt_chars(self.bg),
            fg: opt_chars(self.fg),
            selection_bg: opt_chars(self.selection_bg),
            colours: Seq::new(self.colours@.len(), |i: int| opt_chars(self.colours@[i])),
        }
    }

    fn new() -> (r: Reading)
        ensures
            r.view() == blank_palette(),
            r.colours@.len() == 16,
    {
        let mut colours: Vec<Option<Vec<char>>> = Vec::new();
        let mut i: usize = 0;
        while i < 16
            invariant
                i <= 16,
                colours@.len() == i,
                forall|j: int| 0 <= j < i ==> colours@[j] is None,
            decreases 16 - i,
        {
            colours.push(None);
            i += 1;
        }
        let r = Reading { bg: None, fg: None, selection_bg: None, colours };
        proof {
            assert(r.view().colours =~= blank_palette().colours);
        }
        r
    }

    fn set_colour(&mut self, index: usize, value: Option<Vec<char>>)
        requires
            index < old(self).colours@.len(),
        ensures
            final(self).colours@.len() == old(self).colours@.len(),
            final(self).view() == (Palette {
                colours: old(self).view().colours.update(index as int, opt_chars(value)),
                ..old(self).view()
            }),
    {
        self.colours[index] = value;
        proof {
            assert(self.view().colours =~= old(self).view().colours.update(
                index as int,
                opt_chars(value),
            ));
        }
    }

    fn finish(self) -> (r: Option<ThemeColors>)
        ensures
            match r {
                Some(t) => scheme_of(self.view()) == Some(t@),
                None => scheme_of(self.view()) is None,
            },
    {
        if self.colours.len() != 16 {
            return None;
        }
        let mut found: Vec<String> = Vec::new();
        let mut i: usize = 0;
        while i < 16
            invariant
                i <= 16,
                self.colours@.len() == 16,
                found@.len() == i,
                forall|j: int| 0 <= j < i ==> (#[trigger] self.colours@[j]) is Some,
                forall|j: int| 0 <= j < i ==> (#[trigger] found@[j])@ == self.colours@[j]->0@,
            decreases 16 - i,
        {
            match &self.colours[i] {
                Some(c) => {
                    let text = string_of(c.as_slice());
                    found.push(text);
                    proof {
                        assert(self.colours@[i as int] is Some);
                        assert(found@[i as int]@ == self.colours@[i as int]->0@);
                    }
                },
                None => {
                    proof {
                        assert(self.view().colours[i as int] is None);
                    }
                    return None;
                },
            }
            i += 1;
        }
        let bg = match &self.bg {
            Some(c) => string_of(c.as_slice()),
            None => {
                return None;
            },
        };
        let fg = match &self.fg {
            Some(c) => string_of(c.as_slice()),
            None => {
                return None;
            },
        };
        let selection_bg = match &self.selection_bg {
            Some(c) => Some(string_of(c.as_slice())),
            None => None,
        };
        let normal: [String; 8] = [
            found[0].clone(),
            found[1].clone(),
            found[2].clone(),
            found[3].clone(),
            found[4].clone(),
            found[5].clone(),
            found[6].clone(),
            found[7].clone(),
        ];
        let bright: [String; 8] = [
            found[8].clone(),
            found[9].clone(),
            found[10].clone(),
            found[11].clone(),
            found[12].clone(),
            found[13].clone(),
            found[14].clone(),
            found[15].clone(),
        ];
        let t = ThemeColors { bg, fg, normal, bright, selection_bg };
        proof {
            let p = self.view();
            assert forall|j: int| 0 <= j < 16 implies (#[trigger] p.colours[j]) is Some by {
                assert(self.colours@[j] is Some);
            }
            assert(t@.normal =~= Seq::new(8, |i: int| p.colours[i]->0)) by {
                assert forall|j: int| 0 <= j < 8 implies t@.normal[j] == p.colours[j]->0 by {
                    assert(found@[j]@ == self.colours@[j]->0@);
                }
            }
            assert(t@.bright =~= Seq::new(8, |i: int| p.colours[i + 8]->0)) by {
                assert forall|j: int| 0 <= j < 8 implies t@.bright[j] == p.colours[j + 8]->0 by {
                    assert(found@[j + 8]@ == self.colours@[j + 8]->0@);
                }
            }
        }
        Some(t)
    }
}

// ---------------------------------------------------------------------------
// Ghostty
// ---------------------------------------------------------------------------

/// The palette after a `palette` setting of Ghostty, whose value sets one
/// of the sixteen colours by its number.
pub open spec fn with_numbered(p: Palette, value: Seq<char>) -> Palette {
    match setting(value) {
        Some((number, hex)) => match parse_unsigned(trim(number), 15) {
            Some(n) => Palette { colours: p.colours.update(n, normal_hex(hex)), ..p },
            None => p,
        },
        None => p,
    }
}

/// The palette after one more line of a Ghostty configuration.
pub open spec fn ghostty_line(p: Palette, line: Seq<char>) -> Palette {
    if is_silent(line) {
        p
    } else {
        match setting(trim(line)) {
            None => p,
            Some((k, v)) => {
                let key = trim(k);
                let value = trim(v);
                if key == "background"@ {
                    Palette { bg: normal_hex(value), ..p }
                } else if key == "foreground"@ {
                    Palette { fg: normal_hex(value), ..p }
                } else if key == "selection-background"@ {
                    Palette { selection_bg: normal_hex(value), ..p }
                } else if key == "palette"@ {
                    with_numbered(p, value)
                } else {
                    p
                }
            },
        }
    }
}

/// The palette after the lines of a Ghostty configuration.
pub open spec fn ghostty_palette(all: Seq<Seq<char>>) -> Palette
    decreases all.len(),
{
    if all.len() == 0 {
        blank_palette()
    } else {
        ghostty_line(ghostty_palette(all.drop_last()), all.last())
    }
}

/// The scheme that a Ghostty configuration describes.
pub open spec fn ghostty_scheme(content: Seq<char>) -> Option<ThemeColorsView> {
    scheme_of(ghostty_palette(lines(content)))
}

fn read_ghostty_line(p: &mut Reading, line: &[char])
    requires
        old(p).colours@.len() == 16,
    ensures
        final(p).colours@.len() == 16,
        final(p).view() == ghostty_line(old(p).view(), line@),
{
    let t = trimmed(line);
    if t.len() == 0 || t[0] == '#' {
        return ;
    }
    match read_setting(t) {
        None => {},
        Some((k, v)) => {
            let key = trimmed(k);
            let value = trimmed(v);
            if slice_eq(key, chars_of("background").as_slice()) {
                p.bg = normalize_hex(value);
            } else if slice_eq(key, chars_of("foreground").as_slice()) {
                p.fg = normalize_hex(value);
            } else if slice_eq(key, chars_of("selection-background").as_slice()) {
                p.selection_bg = normalize_hex(value);
            } else if slice_eq(key, chars_of("palette").as_slice()) {
                match read_setting(value) {
                    Some((number, hex)) => match parse_index(trimmed(number), 16) {
                        Some(n) => {
                            p.set_colour(n as usize, normalize_hex(hex));
                        },
                        None => {},
                    },
                    None => {},
                }
            }
        },
    }
}

/// Reads the colour scheme of a Ghostty configuration.
pub fn parse_ghostty_colors(content: &str) -> (r: Option<ThemeColors>)
    ensures
        match r {
            Some(t) => ghostty_scheme(content@) == Some(t@),
            None => ghostty_scheme(content@) is None,
        },
{
    let chars = chars_of(content);
    let all = split_lines(chars.as_slice());
    let mut p = Reading::new();
    let mut i: usize = 0;
    proof {
        assert(texts(all@).take(0) =~= Seq::<Seq<char>>::empty());
    }
    while i < all.len()
        invariant
            i <= all@.len(),
            p.colours@.len() == 16,
            p.view() == ghostty_palette(texts(all@).take(i as int)),
        decreases all@.len() - i,
    {
        let ghost next = texts(all@).take(i + 1);
        proof {
            assert(next.drop_last() =~= texts(all@).take(i as int));
            assert(next.last() == all@[i as int]@);
        }
        read_ghostty_line(&mut p, all[i].as_slice());
        i += 1;
    }
    proof {
        assert(texts(all@).take(all@.len() as int) =~= texts(all@));
    }
    p.finish()
}

// ---------------------------------------------------------------------------
// Alacritty
// ---------------------------------------------------------------------------

/// The table of an Alacritty configuration that the settings belong to.
#[derive(Debug, Clone, Copy, PartialEq, Eq, Structural)]
pub enum Section {
    Other,
    Primary,
    Normal,
    Bright,
    Selection,
}

/// The number of a colour by its name.
pub open spec fn colour_number(name: Seq<char>) -> Option<int> {
    if name == "black"@ {
        Some(0)
    } else if name == "red"@ {
        Some(1)
    } else if name == "green"@ {
        Some(2)
    } else if name == "yellow"@ {
        Some(3)
    } else if name == "blue"@ {
        Some(4)
    } else if name == "magenta"@ {
        Some(5)
    } else if name == "cyan"@ {
        Some(6)
    } else if name == "white"@ {
        Some(7)
    } else {
        None
    }
}

/// The section that a table header opens.
pub open spec fn section_of(header: Seq<char>) -> Section {
    if contains(header, "colors.primary"@) {
        Section::Primary
    } else if contains(header, "colors.normal"@) {
        Section::Normal
    } else if contains(header, "colors.bright"@) {
        Section::Bright
    } else if contains(header, "colors.selection"@) {
        Section::Selection
    } else {
        Section::Other
    }
}

/// The palette after a setting of Alacritty that names a colour.
pub open spec fn with_named(p: Palette, section: Section, key: Seq<char>, hex: Seq<char>)
    -> Palette {
    match section {
        Section::Primary => if key == "background"@ {
            Palette { bg: Some(hex), ..p }
        } else if key == "foreground"@ {
            Palette { fg: Some(hex), ..p }
        } else {
            p
        },
        Section::Normal => match colour_number(key) {
            Some(n) => Palette { colours: p.colours.update(n, Some(hex)), ..p },
            None => p,
        },
        Section::Bright => match colour_number(key) {
            Some(n) => Palette { colours: p.colours.update(n + 8, Some(hex)), ..p },
            None => p,
        },
        Section::Selection => if key == "background"@ {
            Palette { selection_bg: Some(hex), ..p }
        } else {
            p
        },
        Section::Other => p,
    }
}

/// The section and the palette after one more line of an Alacritty
/// configuration. A setting whose value names no colour changes nothing.
pub open spec fn alacritty_line(state: (Section, Palette), line: Seq<char>) -> (Section, Palette) {
    if is_silent(line) {
        state
    } else if trim(line)[0] == '[' {
        (section_of(trim(line)), state.1)
    } else {
        match setting(trim(line)) {
            None => state,
            Some((k, v)) => match normal_hex(v) {
                Some(hex) => (state.0, with_named(state.1, state.0, trim(k), hex)),
                None => state,
            },
        }
    }
}

/// The section and the palette after the lines of an Alacritty
/// configuration.
pub open spec fn alacritty_state(all: Seq<Seq<char>>) -> (Section, Palette)
    decreases all.len(),
{
    if all.len() == 0 {
        (Section::Other, blank_palette())
    } else {
        alacritty_line(alacritty_state(all.drop_last()), all.last())
    }
}

/// The scheme that an Alacritty configuration describes.
pub open spec fn alacritty_scheme(content: Seq<char>) -> Option<ThemeColorsView> {
    scheme_of(alacritty_state(lines(content)).1)
}

fn read_colour_number(name: &[char]) -> (r: Option<usize>)
    ensures
        match r {
            Some(n) => colour_number(name@) == Some(n as int) && n < 8,
            None => colour_number(name@) is None,
        },
{
    if slice_eq(name, chars_of("black").as_slice()) {
        Some(0)
    } else if slice_eq(name, chars_of("red").as_slice()) {
        Some(1)
    } else if slice_eq(name, chars_of("green").as_slice()) {
        Some(2)
    } else if slice_eq(name, chars_of("yellow").as_slice()) {
        Some(3)
    } else if slice_eq(name, chars_of("blue").as_slice()) {
        Some(4)
    } else if slice_eq(name, chars_of("magenta").as_slice()) {
        Some(5)
    } else if slice_eq(name, chars_of("cyan").as_slice()) {
        Some(6)
    } else if slice_eq(name, chars_of("white").as_slice()) {
        Some(7)
    } else {
        None
    }
}

fn read_section(header: &[char]) -> (r: Section)
    ensures
        r == section_of(header@),
{
    if has_substring(header, chars_of("colors.primary").as_slice()) {
        Section::Primary
    } else if has_substring(header, chars_of("colors.normal").as_slice()) {
        Section::Normal
    } else if has_substring(header, chars_of("colors.bright").as_slice()) {
        Section::Bright
    } else if has_substring(header, chars_of("colors.selection").as_slice()) {
        Section::Selection
    } else {
        Section::Other
    }
}

fn read_alacritty_line(section: Section, p: &mut Reading, line: &[char]) -> (r: Section)
    requires
        old(p).colours@.len() == 16,
    ensures
        final(p).colours@.len() == 16,
        (r, final(p).view()) == alacritty_line((section, old(p).view()), line@),
{
    let t = trimmed(line);
    if t.len() == 0 || t[0] == '#' {
        return section;
    }
    if t[0] == '[' {
        return read_section(t);
    }
    match read_setting(t) {
        None => section,
        Some((k, v)) => {
            let key = trimmed(k);
            match normalize_hex(v) {
                None => section,
                Some(hex) => {
                    match section {
                        Section::Primary => {
                            if slice_eq(key, chars_of("background").as_slice()) {
                                p.bg = Some(hex);
                            } else if slice_eq(key, chars_of("foreground").as_slice()) {
                                p.fg = Some(hex);
                            }
                        },
                        Section::Normal => match read_colour_number(key) {
                            Some(n) => {
                                p.set_colour(n, Some(hex));
                            },
                            None => {},
                        },
                        Section::Bright => match read_colour_number(key) {
                            Some(n) => {
                                p.set_colour(n + 8, Some(hex));
                            },
                            None => {},
                        },
                        Section::Selection => {
                            if slice_eq(key, chars_of("background").as_slice()) {
                                p.selection_bg = Some(hex);
                            }
                        },
                        Section::Other => {},
                    }
                    section
                },
            }
        },
    }
}

/// Reads the colour scheme of an Alacritty configuration.
pub fn parse_alacritty_colors(content: &str) -> (r: Option<ThemeColors>)
    ensures
        match r {
            Some(t) => alacritty_scheme(content@) == Some(t@),
            None => alacritty_scheme(content@) is None,
        },
{
    let chars = chars_of(content);
    let all = split_lines(chars.as_slice());
    let mut p = Reading::new();
    let mut section = Section::Other;
    let mut i: usize = 0;
    proof {
        assert(texts(all@).take(0) =~= Seq::<Seq<char>>::empty());
    }
    while i < all.len()
        invariant
            i <= all@.len(),
            p.colours@.len() == 16,
            (section, p.view()) == alacritty_state(texts(all@).take(i as int)),
        decreases all@.len() - i,
    {
        let ghost next = texts(all@).take(i + 1);
        proof {
            assert(next.drop_last() =~= texts(all@).take(i as int));
            assert(next.last() == all@[i as int]@);
        }
        section = read_alacritty_line(section, &mut p, all[i].as_slice());
        i += 1;
    }
    proof {
        assert(texts(all@).take(all@.len() as int) =~= texts(all@));
    }
    p.finish()
}

// ---------------------------------------------------------------------------
// Style sheet
// ---------------------------------------------------------------------------

/// One variable of the style sheet.
pub open spec fn variable(name: Seq<char>, value: Seq<char>) -> Seq<char> {
    "    --"@ + name + ": "@ + value + ";\n"@
}

/// The rule that gives an overlay its translucent background.
pub open spec fn overlay(id: Seq<char>, rgb: Seq<char>) -> Seq<char> {
    "\n"@ + id + " {\n    background: rgba("@ + rgb + ", 0.9);\n}\n"@
}

/// The colour of a selection: the one the scheme names, else bright black.
pub open spec fn selection_of(colors: ThemeColorsView) -> Seq<char> {
    match colors.selection_bg {
        Some(s) => s,
        None => colors.bright[0],
    }
}

/// The style sheet for a colour scheme. The scheme of a light theme is
/// marked by a comment at the end.
pub open spec fn css_text(colors: ThemeColorsView, is_light: bool) -> Seq<char> {
    ":root {\n"@ + variable("bg"@, colors.bg) + variable("bg-secondary"@, colors.normal[0])
        + variable("bg-tertiary"@, colors.bright[0]) + variable("fg"@, colors.fg) + variable(
        "fg-muted"@,
        colors.normal[7],
    ) + variable("fg-dim"@, colors.bright[0]) + variable("accent"@, colors.normal[6]) + variable(
        "accent-dim"@,
        colors.normal[4],
    ) + variable("success"@, colors.normal[2]) + variable("warning"@, colors.normal[3])
        + variable("danger"@, colors.normal[1]) + variable("selection"@, selection_of(colors))
        + variable("border"@, colors.bright[0]) + "}\n"@ + overlay(
        "#help-overlay"@,
        rgb_text(colors.bg),
    ) + overlay("#split-modal"@, rgb_text(colors.bg)) + (if is_light {
        "\n/* --light-mode */\n"@
    } else {
        Seq::empty()
    })
}

fn push_variable(out: &mut Vec<char>, name: &str, value: &str)
    ensures
        final(out)@ == old(out)@ + variable(name@, value@),
{
    let ghost start = out@;
    push_str(out, "    --");
    push_str(out, name);
    push_str(out, ": ");
    push_str(out, value);
    push_str(out, ";\n");
    proof {
        assert(out@ =~= start + variable(name@, value@));
    }
}

fn push_overlay(out: &mut Vec<char>, id: &str, rgb: &[char])
    ensures
        final(out)@ == old(out)@ + overlay(id@, rgb@),
{
    let ghost start = out@;
    push_str(out, "\n");
    push_str(out, id);
    push_str(out, " {\n    background: rgba(");
    push_all(out, rgb);
    push_str(out, ", 0.9);\n}\n");
    proof {
        assert(out@ =~= start + overlay(id@, rgb@));
    }
}

/// Writes the style sheet for a colour scheme.
pub fn generate_theme_css(colors: &ThemeColors, is_light: bool) -> (r: String)
    ensures
        r@ == css_text(colors@, is_light),
{
    let selection: &str = match &colors.selection_bg {
        Some(s) => s.as_str(),
        None => colors.bright[0].as_str(),
    };
    let rgb = hex_to_rgb(chars_of(colors.bg.as_str()).as_slice());
    let mut out = chars_of(":root {\n");
    push_variable(&mut out, "bg", colors.bg.as_str());
    push_variable(&mut out, "bg-secondary", colors.normal[0].as_str());
    push_variable(&mut out, "bg-tertiary", colors.bright[0].as_str());
    push_variable(&mut out, "fg", colors.fg.as_str());
    push_variable(&mut out, "fg-muted", colors.normal[7].as_str());
    push_variable(&mut out, "fg-dim", colors.bright[0].as_str());
    push_variable(&mut out, "accent", colors.normal[6].as_str());
    push_variable(&mut out, "accent-dim", colors.normal[4].as_str());
    push_variable(&mut out, "success", colors.normal[2].as_str());
    push_variable(&mut out, "warning", colors.normal[3].as_str());
    push_variable(&mut out, "danger", colors.normal[1].as_str());
    push_variable(&mut out, "selection", selection);
    push_variable(&mut out, "border", colors.bright[0].as_str());
    push_str(&mut out, "}\n");
    push_overlay(&mut out, "#help-overlay", rgb.as_slice());
    push_overlay(&mut out, "#split-modal", rgb.as_slice());
    if is_light {
        push_str(&mut out, "\n/* --light-mode */\n");
    } else {
        proof {
            assert(out@ + Seq::<char>::empty() =~= out@);
        }
    }
    string_of(out.as_slice())
}

} // verus!
