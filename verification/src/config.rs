//! The flat INI configuration: defaults, the line-by-line reader with its
//! value parsers and clamps, and the text of shell callbacks.
use vstd::prelude::*;
use crate::text::{
    all_digits, chars_of, digits_value, push_char, is_ws, trim_start, find_char, first_index_of, int_text, i32_to_string, i64_to_string,
    lemma_first_index_of, parse_bool_range, parse_bool_spec, parse_u32_range, parse_u32_spec,
    range_eq_str, replace_all, replace_str, string_of_range, trim, trim_range, all_digits_range,
};

verus! {

/// A colour as four bytes: red, green, blue, alpha.
#[derive(Debug, Clone, Copy, PartialEq, Eq, Structural)]
pub struct Rgba {
    pub r: u8,
    pub g: u8,
    pub b: u8,
    pub a: u8,
}

/// Settings read from the configuration file.
///
/// `hint_border_radius` holds the text of the last radius that reads as a
/// floating-point number (`None`: the default of 25); the drawing code reads
/// it as such and clamps it to `0..=100`.  The `key_*` fields are the
/// comma-separated key names of the normal-mode bindings.
#[derive(Debug, Clone)]
pub struct Config {
    pub hint_bg: Rgba,
    pub hint_fg: Rgba,
    pub hint_font: String,
    pub hint_size: u32,
    pub hint_border_radius: Option<String>,
    pub hint_chars: String,
    pub refinement_passes: u32,
    pub exit_on_select: bool,
    pub on_select_cmd: String,
    pub on_exit_cmd: String,
    pub key_left: String,
    pub key_right: String,
    pub key_up: String,
    pub key_down: String,
    pub key_shift: String,
    pub key_ctrl: String,
    pub key_click_left: String,
    pub key_click_right: String,
    pub key_click_middle: String,
    pub key_scroll_up: String,
    pub key_scroll_down: String,
    pub key_exit: String,
}

/// The mathematical content of a [`Config`].
pub struct ConfigView {
    pub hint_bg: Rgba,
    pub hint_fg: Rgba,
    pub hint_font: Seq<char>,
    pub hint_size: u32,
    pub hint_border_radius: Option<Seq<char>>,
    pub hint_chars: Seq<char>,
    pub refinement_passes: u32,
    pub exit_on_select: bool,
    pub on_select_cmd: Seq<char>,
    pub on_exit_cmd: Seq<char>,
    pub key_left: Seq<char>,
    pub key_right: Seq<char>,
    pub key_up: Seq<char>,
    pub key_down: Seq<char>,
    pub key_shift: Seq<char>,
    pub key_ctrl: Seq<char>,
    pub key_click_left: Seq<char>,
    pub key_click_right: Seq<char>,
    pub key_click_middle: Seq<char>,
    pub key_scroll_up: Seq<char>,
    pub key_scroll_down: Seq<char>,
    pub key_exit: Seq<char>,
}

pub open spec fn opt_text(s: Option<String>) -> Option<Seq<char>> {
    match s {
        Some(t) => Some(t@),
        None => None,
    }
}

impl View for Config {
    type V = ConfigView;

    open spec fn view(&self) -> ConfigView {
        ConfigView {
            hint_bg: self.hint_bg,
            hint_fg: self.hint_fg,
            hint_font: self.hint_font@,
            hint_size: self.hint_size,
            hint_border_radius: opt_text(self.hint_border_radius),
            hint_chars: self.hint_chars@,
            refinement_passes: self.refinement_passes,
            exit_on_select: self.exit_on_select,
            on_select_cmd: self.on_select_cmd@,
            on_exit_cmd: self.on_exit_cmd@,
            key_left: self.key_left@,
            key_right: self.key_right@,
            key_up: self.key_up@,
            key_down: self.key_down@,
            key_shift: self.key_shift@,
            key_ctrl: self.key_ctrl@,
            key_click_left: self.key_click_left@,
            key_click_right: self.key_click_right@,
            key_click_middle: self.key_click_middle@,
            key_scroll_up: self.key_scroll_up@,
            key_scroll_down: self.key_scroll_down@,
            key_exit: self.key_exit@,
        }
    }
}

/// The built-in settings: `#ff555560` on `#ffffffff`, 18 pt monospace, the
/// home-row key characters, two passes, and the normal-mode keys `hjkl` or
/// the arrows, Shift and Control for speed, `f`/Return, `d` and `s` for the
/// three clicks, `u` and `e` to scroll, Escape to leave.
pub open spec fn default_config() -> ConfigView {
    ConfigView {
        hint_bg: Rgba { r: 255, g: 85, b: 85, a: 96 },
        hint_fg: Rgba { r: 255, g: 255, b: 255, a: 255 },
        hint_font: "monospace"@,
        hint_size: 18,
        hint_border_radius: None,
        hint_chars: "asdfghjklqwertzxv"@,
        refinement_passes: 2,
        exit_on_select: true,
        on_select_cmd: "hyprctl dispatch movecursor {global_x} {global_y}"@,
        on_exit_cmd: ""@,
        key_left: "h,Left"@,
        key_right: "l,Right"@,
        key_up: "k,Up"@,
        key_down: "j,Down"@,
        key_shift: "Shift_L,Shift_R"@,
        key_ctrl: "Control_L,Control_R"@,
        key_click_left: "f,Return"@,
        key_click_right: "d"@,
        key_click_middle: "s"@,
        key_scroll_up: "u"@,
        key_scroll_down: "e"@,
        key_exit: "Escape"@,
    }
}

impl Default for Config {
    fn default() -> (c: Self)
        ensures
            c@ == default_config(),
    {
        Config {
            hint_bg: Rgba { r: 255, g: 85, b: 85, a: 96 },
            hint_fg: Rgba { r: 255, g: 255, b: 255, a: 255 },
            hint_font: "monospace".to_owned(),
            hint_size: 18,
            hint_border_radius: None,
            hint_chars: "asdfghjklqwertzxv".to_owned(),
            refinement_passes: 2,
            exit_on_select: true,
            on_select_cmd: "hyprctl dispatch movecursor {global_x} {global_y}".to_owned(),
            on_exit_cmd: "".to_owned(),
            key_left: "h,Left".to_owned(),
            key_right: "l,Right".to_owned(),
            key_up: "k,Up".to_owned(),
            key_down: "j,Down".to_owned(),
            key_shift: "Shift_L,Shift_R".to_owned(),
            key_ctrl: "Control_L,Control_R".to_owned(),
            key_click_left: "f,Return".to_owned(),
            key_click_right: "d".to_owned(),
            key_click_middle: "s".to_owned(),
            key_scroll_up: "u".to_owned(),
            key_scroll_down: "e".to_owned(),
            key_exit: "Escape".to_owned(),
        }
    }
}

// ---------------------------------------------------------------------------
// Colours
// ---------------------------------------------------------------------------

/// Value of one hexadecimal digit.
pub open spec fn hex_value(c: char) -> Option<u8> {
    if '0' <= c && c <= '9' {
        Some(((c as u32) - 48) as u8)
    } else if 'a' <= c && c <= 'f' {
        Some(((c as u32) - 87) as u8)
    } else if 'A' <= c && c <= 'F' {
        Some(((c as u32) - 55) as u8)
    } else {
        None
    }
}

/// The byte written as the two hexadecimal digits `a b`.
pub open spec fn hex_byte(a: char, b: char) -> Option<u8> {
    match (hex_value(a), hex_value(b)) {
        (Some(x), Some(y)) => Some((x * 16 + y) as u8),
        _ => None,
    }
}

/// `s` without its leading `#` characters.
pub open spec fn strip_hashes(s: Seq<char>) -> Seq<char>
    decreases s.len(),
{
    if s.len() > 0 && s[0] == '#' {
        strip_hashes(s.drop_first())
    } else {
        s
    }
}

/// The digits of a colour value: trimmed, leading `#`s removed.
pub open spec fn colour_digits(hex: Seq<char>) -> Seq<char> {
    strip_hashes(trim(hex))
}

/// The colour `#RRGGBBAA`, `#RRGGBB`, `RRGGBBAA` or `RRGGBB`: six or eight
/// hexadecimal digits; six digits give an opaque colour.  Anything else is
/// no colour.
pub open spec fn hex_color(hex: Seq<char>) -> Option<Rgba> {
    let c = colour_digits(hex);
    if c.len() == 6 {
        match (hex_byte(c[0], c[1]), hex_byte(c[2], c[3]), hex_byte(c[4], c[5])) {
            (Some(r), Some(g), Some(b)) => Some(Rgba { r, g, b, a: 255 }),
            _ => None,
        }
    } else if c.len() == 8 {
        match (
            hex_byte(c[0], c[1]),
            hex_byte(c[2], c[3]),
            hex_byte(c[4], c[5]),
            hex_byte(c[6], c[7]),
        ) {
            (Some(r), Some(g), Some(b), Some(a)) => Some(Rgba { r, g, b, a }),
            _ => None,
        }
    } else {
        None
    }
}

fn hex_value_exec(c: char) -> (r: Option<u8>)
    ensures
        r == hex_value(c),
{
    if '0' <= c && c <= '9' {
        Some(((c as u32) - 48) as u8)
    } else if 'a' <= c && c <= 'f' {
        Some(((c as u32) - 87) as u8)
    } else if 'A' <= c && c <= 'F' {
        Some(((c as u32) - 55) as u8)
    } else {
        None
    }
}

fn hex_byte_exec(a: char, b: char) -> (r: Option<u8>)
    ensures
        r == hex_byte(a, b),
{
    match (hex_value_exec(a), hex_value_exec(b)) {
        (Some(x), Some(y)) => Some(x * 16 + y),
        _ => None,
    }
}

/// Reads the colour value `v[lo..hi]`.
fn scan_hex_color(v: &Vec<char>, lo: usize, hi: usize) -> (r: Option<Rgba>)
    requires
        lo <= hi <= v@.len(),
    ensures
        r == hex_color(v@.subrange(lo as int, hi as int)),
{
    let ghost hex = v@.subrange(lo as int, hi as int);
    let (a, b) = trim_range(v, lo, hi);
    let mut s = a;
    while s < b && v[s] == '#'
        invariant
            a <= s <= b <= v@.len(),
            strip_hashes(v@.subrange(a as int, b as int)) == strip_hashes(
                v@.subrange(s as int, b as int),
            ),
        decreases b - s,
    {
        assert(v@.subrange(s as int, b as int).drop_first() =~= v@.subrange(s + 1, b as int));
        s = s + 1;
    }
    let ghost c = v@.subrange(s as int, b as int);
    assert(c == colour_digits(hex));
    let len = b - s;
    if len == 6 {
        assert(c[0] == v@[s as int] && c[1] == v@[s + 1] && c[2] == v@[s + 2]);
        assert(c[3] == v@[s + 3] && c[4] == v@[s + 4] && c[5] == v@[s + 5]);
        let r = hex_byte_exec(v[s], v[s + 1]);
        let g = hex_byte_exec(v[s + 2], v[s + 3]);
        let bb = hex_byte_exec(v[s + 4], v[s + 5]);
        match (r, g, bb) {
            (Some(r), Some(g), Some(bb)) => Some(Rgba { r, g, b: bb, a: 255 }),
            _ => None,
        }
    } else if len == 8 {
        assert(c[0] == v@[s as int] && c[1] == v@[s + 1] && c[2] == v@[s + 2]);
        assert(c[3] == v@[s + 3] && c[4] == v@[s + 4] && c[5] == v@[s + 5]);
        assert(c[6] == v@[s + 6] && c[7] == v@[s + 7]);
        let r = hex_byte_exec(v[s], v[s + 1]);
        let g = hex_byte_exec(v[s + 2], v[s + 3]);
        let bb = hex_byte_exec(v[s + 4], v[s + 5]);
        let al = hex_byte_exec(v[s + 6], v[s + 7]);
        match (r, g, bb, al) {
            (Some(r), Some(g), Some(bb), Some(al)) => Some(Rgba { r, g, b: bb, a: al }),
            _ => None,
        }
    } else {
        None
    }
}

/// Helper function to parse hex color (#RRGGBBAA, #RRGGBB, RRGGBBAA, RRGGBB)
pub fn parse_hex_color(hex: &str) -> (r: Option<Rgba>)
    ensures
        r == hex_color(hex@),
{
    let v = chars_of(hex);
    assert(v@.subrange(0, v@.len() as int) =~= v@);
    scan_hex_color(&v, 0, v.len())
}

// ---------------------------------------------------------------------------
// Floating-point literals
// ---------------------------------------------------------------------------

/// `c` in lower case, for ASCII letters.
pub open spec fn ascii_lower(c: char) -> char {
    if 'A' <= c && c <= 'Z' {
        (((c as u32) + 32) as u8) as char
    } else {
        c
    }
}

/// `s` equals the lower-case word `lit` when ASCII letters are lowered.
pub open spec fn eq_ignore_case(s: Seq<char>, lit: Seq<char>) -> bool {
    s.len() == lit.len() && forall|i: int| 0 <= i < s.len() ==> ascii_lower(#[trigger] s[i]) == lit[i]
}

/// `s` without one leading `+` or `-`.
pub open spec fn strip_sign(s: Seq<char>) -> Seq<char> {
    if s.len() > 0 && (s[0] == '+' || s[0] == '-') {
        s.drop_first()
    } else {
        s
    }
}

/// `Digit+ | Digit+ '.' Digit* | Digit* '.' Digit+`
pub open spec fn is_decimal_mantissa(m: Seq<char>) -> bool {
    let d = first_index_of(m, '.');
    if d < m.len() {
        m.len() >= 2 && all_digits(m.take(d as int)) && all_digits(m.skip(d + 1int))
    } else {
        m.len() >= 1 && all_digits(m)
    }
}

/// Index of the first `e` or `E` in `s`, or `s.len()`.
pub open spec fn first_exp_mark(s: Seq<char>) -> nat
    decreases s.len(),
{
    if s.len() == 0 {
        0
    } else if s[0] == 'e' || s[0] == 'E' {
        0
    } else {
        1 + first_exp_mark(s.drop_first())
    }
}

/// Whether `f64::from_str` accepts `s`: an optional sign, then `inf`,
/// `infinity` or `nan` in any case, or a decimal number with an optional
/// exponent (`e` or `E`, an optional sign, digits).
pub open spec fn is_float_text(s: Seq<char>) -> bool {
    let t = strip_sign(s);
    let e = first_exp_mark(t);
    ||| eq_ignore_case(t, "inf"@)
    ||| eq_ignore_case(t, "infinity"@)
    ||| eq_ignore_case(t, "nan"@)
    ||| is_decimal_mantissa(t.take(e as int)) && (e == t.len() || {
        let x = strip_sign(t.skip(e + 1int));
        x.len() >= 1 && all_digits(x)
    })
}

proof fn lemma_first_exp_mark(s: Seq<char>)
    ensures
        first_exp_mark(s) <= s.len(),
        first_exp_mark(s) < s.len() ==> (s[first_exp_mark(s) as int] == 'e' || s[first_exp_mark(
            s,
        ) as int] == 'E'),
        forall|k: int| 0 <= k < first_exp_mark(s) ==> #[trigger] s[k] != 'e' && s[k] != 'E',
    decreases s.len(),
{
    if s.len() > 0 && s[0] != 'e' && s[0] != 'E' {
        lemma_first_exp_mark(s.drop_first());
        assert forall|k: int| 0 <= k < first_exp_mark(s) implies #[trigger] s[k] != 'e' && s[k]
            != 'E' by {
            if k > 0 {
                assert(s[k] == s.drop_first()[k - 1]);
            }
        }
    }
}

fn ascii_lower_exec(c: char) -> (r: char)
    ensures
        r == ascii_lower(c),
{
    if 'A' <= c && c <= 'Z' {
        (((c as u32) + 32) as u8) as char
    } else {
        c
    }
}

fn range_eq_ignore_case(v: &Vec<char>, lo: usize, hi: usize, lit: &str) -> (b: bool)
    requires
        lo <= hi <= v@.len(),
    ensures
        b == eq_ignore_case(v@.subrange(lo as int, hi as int), lit@),
{
    let lv = chars_of(lit);
    if lv.len() != hi - lo {
        return false;
    }
    let mut i: usize = 0;
    while i < lv.len()
        invariant
            lv@ == lit@,
            lv@.len() == hi - lo,
            lo <= hi <= v@.len(),
            i <= lv@.len(),
            forall|k: int| 0 <= k < i ==> ascii_lower(#[trigger] v@[lo + k]) == lit@[k],
        decreases lv@.len() - i,
    {
        if ascii_lower_exec(v[lo + i]) != lv[i] {
            assert(v@.subrange(lo as int, hi as int)[i as int] == v@[lo + i]);
            return false;
        }
        i = i + 1;
    }
    assert forall|k: int| 0 <= k < hi - lo implies ascii_lower(
        #[trigger] v@.subrange(lo as int, hi as int)[k],
    ) == lit@[k] by {
        assert(v@.subrange(lo as int, hi as int)[k] == v@[lo + k]);
    }
    true
}

/// Whether `v[lo..hi]` is a floating-point literal that `f64::from_str` accepts.
fn is_float_range(v: &Vec<char>, lo: usize, hi: usize) -> (b: bool)
    requires
        lo <= hi <= v@.len(),
    ensures
        b == is_float_text(v@.subrange(lo as int, hi as int)),
{
    let ghost s = v@.subrange(lo as int, hi as int);
    let t0 = if lo < hi && (v[lo] == '+' || v[lo] == '-') {
        lo + 1
    } else {
        lo
    };
    let ghost t = v@.subrange(t0 as int, hi as int);
    assert(t =~= strip_sign(s));
    if range_eq_ignore_case(v, t0, hi, "inf") || range_eq_ignore_case(v, t0, hi, "infinity")
        || range_eq_ignore_case(v, t0, hi, "nan") {
        return true;
    }
    // position of the exponent mark
    let mut e = t0;
    while e < hi && v[e] != 'e' && v[e] != 'E'
        invariant
            t0 <= e <= hi <= v@.len(),
            forall|k: int| t0 <= k < e ==> #[trigger] v@[k] != 'e' && v@[k] != 'E',
        decreases hi - e,
    {
        e = e + 1;
    }
    proof {
        lemma_first_exp_mark(t);
        let f = first_exp_mark(t);
        if f < e - t0 {
            assert(t[f as int] == v@[t0 + f]);
        }
        if e < hi {
            assert(t[e - t0] == v@[e as int]);
        }
        assert(f == e - t0);
        assert(t.take(f as int) =~= v@.subrange(t0 as int, e as int));
    }
    // mantissa v[t0..e]
    let dot = find_char(v, t0, e, '.');
    let ghost m = v@.subrange(t0 as int, e as int);
    let mantissa_ok = if dot < e {
        proof {
            assert(m.take(dot - t0) =~= v@.subrange(t0 as int, dot as int));
            assert(m.skip(dot - t0 + 1) =~= v@.subrange(dot + 1, e as int));
        }
        e - t0 >= 2 && all_digits_range(v, t0, dot) && all_digits_range(v, dot + 1, e)
    } else {
        e - t0 >= 1 && all_digits_range(v, t0, e)
    };
    if !mantissa_ok {
        return false;
    }
    if e == hi {
        return true;
    }
    let x0 = if e + 1 < hi && (v[e + 1] == '+' || v[e + 1] == '-') {
        e + 2
    } else {
        e + 1
    };
    proof {
        assert(t.skip(e - t0 + 1) =~= v@.subrange(e + 1, hi as int));
        assert(strip_sign(v@.subrange(e + 1, hi as int)) =~= v@.subrange(x0 as int, hi as int));
    }
    x0 < hi && all_digits_range(v, x0, hi)
}

// ---------------------------------------------------------------------------
// Lines and settings
// ---------------------------------------------------------------------------

/// The lines of `s`, split at each `\n`.  (Unlike `str::lines` this keeps a
/// final empty line and reports one line for the empty text; such lines
/// are blank and are skipped by the reader, and a `\r` before the `\n` is
/// whitespace that trimming removes.)
pub open spec fn ini_lines(s: Seq<char>) -> Seq<Seq<char>>
    decreases s.len(),
{
    let i = first_index_of(s, '\n');
    if i >= s.len() {
        seq![s]
    } else {
        seq![s.take(i as int)] + ini_lines(s.skip(i + 1int))
    }
}

/// The key and value of a line, or `None` for a blank line, a comment
/// (`#` or `;`) or a line whose key is empty.  The key is the text before
/// the first `=`, the value the text after it (empty without `=`), both
/// trimmed.
pub open spec fn line_entry(raw: Seq<char>) -> Option<(Seq<char>, Seq<char>)> {
    let line = trim(raw);
    if line.len() == 0 || line[0] == '#' || line[0] == ';' {
        None
    } else {
        let e = first_index_of(line, '=');
        let key = trim(line.take(e as int));
        let val = if e < line.len() {
            trim(line.skip(e + 1int))
        } else {
            Seq::empty()
        };
        if key.len() == 0 {
            None
        } else {
            Some((key, val))
        }
    }
}

pub open spec fn clamp_u32(v: u32, lo: u32, hi: u32) -> u32 {
    if v < lo {
        lo
    } else if v > hi {
        hi
    } else {
        v
    }
}

/// The effect of one `key = value` setting.  Unknown keys, and values that do
/// not read as the setting's type, leave the configuration as it was.
pub open spec fn apply_setting(cfg: ConfigView, key: Seq<char>, val: Seq<char>) -> ConfigView {
    if key == "hint_bg"@ || key == "hint_bgcolor"@ {
        match hex_color(val) {
            Some(c) => ConfigView { hint_bg: c, ..cfg },
            None => cfg,
        }
    } else if key == "hint_fg"@ || key == "hint_fgcolor"@ {
        match hex_color(val) {
            Some(c) => ConfigView { hint_fg: c, ..cfg },
            None => cfg,
        }
    } else if key == "hint_font"@ {
        ConfigView { hint_font: val, ..cfg }
    } else if key == "hint_size"@ {
        match parse_u32_spec(val) {
            Some(n) => ConfigView { hint_size: clamp_u32(n, 8, 64), ..cfg },
            None => cfg,
        }
    } else if key == "hint_border_radius"@ || key == "hint_radius"@ {
        if is_float_text(val) {
            ConfigView { hint_border_radius: Some(val), ..cfg }
        } else {
            cfg
        }
    } else if key == "hint_chars"@ {
        if val.len() > 0 {
            ConfigView { hint_chars: val, ..cfg }
        } else {
            cfg
        }
    } else if key == "refinement_passes"@ {
        match parse_u32_spec(val) {
            Some(n) => ConfigView { refinement_passes: clamp_u32(n, 1, 4), ..cfg },
            None => cfg,
        }
    } else if key == "exit_on_select"@ {
        match parse_bool_spec(val) {
            Some(b) => ConfigView { exit_on_select: b, ..cfg },
            None => cfg,
        }
    } else if key == "on_select_cmd"@ {
        ConfigView { on_select_cmd: val, ..cfg }
    } else if key == "on_exit_cmd"@ {
        ConfigView { on_exit_cmd: val, ..cfg }
    } else {
        match apply_key_binding(cfg, key, val) {
            Some(c) => c,
            None => cfg,
        }
    }
}

/// The effect of a normal-mode binding line (`key_left`, ... `key_exit`):
/// the value, as written, becomes that binding; `None` for other keys.
pub open spec fn apply_key_binding(cfg: ConfigView, key: Seq<char>, val: Seq<char>) -> Option<
    ConfigView,
> {
    if key == "key_left"@ {
        Some(ConfigView { key_left: val, ..cfg })
    } else if key == "key_right"@ {
        Some(ConfigView { key_right: val, ..cfg })
    } else if key == "key_up"@ {
        Some(ConfigView { key_up: val, ..cfg })
    } else if key == "key_down"@ {
        Some(ConfigView { key_down: val, ..cfg })
    } else if key == "key_shift"@ {
        Some(ConfigView { key_shift: val, ..cfg })
    } else if key == "key_ctrl"@ {
        Some(ConfigView { key_ctrl: val, ..cfg })
    } else if key == "key_click_left"@ {
        Some(ConfigView { key_click_left: val, ..cfg })
    } else if key == "key_click_right"@ {
        Some(ConfigView { key_click_right: val, ..cfg })
    } else if key == "key_click_middle"@ {
        Some(ConfigView { key_click_middle: val, ..cfg })
    } else if key == "key_scroll_up"@ {
        Some(ConfigView { key_scroll_up: val, ..cfg })
    } else if key == "key_scroll_down"@ {
        Some(ConfigView { key_scroll_down: val, ..cfg })
    } else if key == "key_exit"@ {
        Some(ConfigView { key_exit: val, ..cfg })
    } else {
        None
    }
}

pub open spec fn apply_line(cfg: ConfigView, raw: Seq<char>) -> ConfigView {
    match line_entry(raw) {
        Some((key, val)) => apply_setting(cfg, key, val),
        None => cfg,
    }
}

/// The configuration that the text `content` yields: the defaults, then
/// each line applied in order, so that a later setting of a key wins.
pub open spec fn ini_config(content: Seq<char>) -> ConfigView {
    ini_lines(content).fold_left(default_config(), |cfg: ConfigView, line: Seq<char>| apply_line(cfg, line))
}

proof fn lemma_ini_lines_step(s: Seq<char>)
    ensures
        first_index_of(s, '\n') < s.len() ==> ini_lines(s) == seq![
            s.take(first_index_of(s, '\n') as int),
        ] + ini_lines(s.skip(first_index_of(s, '\n') + 1int)),
        first_index_of(s, '\n') >= s.len() ==> ini_lines(s) == seq![s],
{
}

/// Key and value bounds of the line `v[lo..hi]`, as `line_entry` describes them.
fn line_entry_range(v: &Vec<char>, lo: usize, hi: usize) -> (r: Option<(usize, usize, usize, usize)>)
    requires
        lo <= hi <= v@.len(),
    ensures
        match r {
            Some((ka, kb, va, vb)) => {
                &&& ka <= kb <= v@.len()
                &&& va <= vb <= v@.len()
                &&& line_entry(v@.subrange(lo as int, hi as int)) == Some(
                    (v@.subrange(ka as int, kb as int), v@.subrange(va as int, vb as int)),
                )
            },
            None => line_entry(v@.subrange(lo as int, hi as int)) is None,
        },
{
    let (a, b) = trim_range(v, lo, hi);
    let ghost line = v@.subrange(a as int, b as int);
    if a == b || v[a] == '#' || v[a] == ';' {
        proof {
            if a < b {
                assert(line[0] == v@[a as int]);
            }
        }
        return None;
    }
    assert(line[0] == v@[a as int]);
    let e = find_char(v, a, b, '=');
    proof {
        assert(line.take(e - a) =~= v@.subrange(a as int, e as int));
        if e < b {
            assert(line.skip(e - a + 1) =~= v@.subrange(e + 1, b as int));
        }
    }
    let (ka, kb) = trim_range(v, a, e);
    if ka == kb {
        return None;
    }
    if e < b {
        let (va, vb) = trim_range(v, e + 1, b);
        Some((ka, kb, va, vb))
    } else {
        assert(v@.subrange(b as int, b as int) =~= Seq::<char>::empty());
        Some((ka, kb, b, b))
    }
}

// ---------------------------------------------------------------------------
// Callbacks
// ---------------------------------------------------------------------------

/// The shell command of a callback: each placeholder of `template` replaced,
/// in this order, by its value: `{x}`, `{y}` by the position inside the
/// monitor, `{global_x}`, `{global_y}` by the position across all monitors
/// (the monitor's origin added), `{screen_w}`, `{screen_h}` by the monitor's
/// size, `{monitor_id}` by the monitor's index, all as decimal numbers, and
/// `{scale_x}`, `{scale_y}` by the given texts.
pub open spec fn callback_text(
    template: Seq<char>,
    x: i32,
    y: i32,
    origin_x: i32,
    origin_y: i32,
    screen_w: i32,
    screen_h: i32,
    monitor_id: u32,
    scale_x: Seq<char>,
    scale_y: Seq<char>,
) -> Seq<char> {
    let s1 = replace_all(template, "{x}"@, int_text(x as int));
    let s2 = replace_all(s1, "{y}"@, int_text(y as int));
    let s3 = replace_all(s2, "{global_x}"@, int_text(origin_x + x));
    let s4 = replace_all(s3, "{global_y}"@, int_text(origin_y + y));
    let s5 = replace_all(s4, "{screen_w}"@, int_text(screen_w as int));
    let s6 = replace_all(s5, "{screen_h}"@, int_text(screen_h as int));
    let s7 = replace_all(s6, "{monitor_id}"@, int_text(monitor_id as int));
    let s8 = replace_all(s7, "{scale_x}"@, scale_x);
    replace_all(s8, "{scale_y}"@, scale_y)
}

proof fn lemma_placeholders_nonempty()
    ensures
        "{x}"@.len() > 0,
        "{y}"@.len() > 0,
        "{global_x}"@.len() > 0,
        "{global_y}"@.len() > 0,
        "{screen_w}"@.len() > 0,
        "{screen_h}"@.len() > 0,
        "{monitor_id}"@.len() > 0,
        "{scale_x}"@.len() > 0,
        "{scale_y}"@.len() > 0,
{
    reveal_strlit("{x}");
    reveal_strlit("{y}");
    reveal_strlit("{global_x}");
    reveal_strlit("{global_y}");
    reveal_strlit("{screen_w}");
    reveal_strlit("{screen_h}");
    reveal_strlit("{monitor_id}");
    reveal_strlit("{scale_x}");
    reveal_strlit("{scale_y}");
}


// ---------------------------------------------------------------------------
// The default file
// ---------------------------------------------------------------------------

/// The configuration file written when none exists: a comment line, then
/// one line per setting with its built-in value, each ended by a line break.
pub open spec fn default_config_text() -> Seq<char> {
    "# waywarp config"@ + seq!['\n'] + "hint_bg=#ff555560"@ + seq!['\n'] + "hint_fg=#ffffffff"@ + seq!['\n'] + "hint_font=monospace"@ + seq!['\n'] + "hint_size=18"@ + seq!['\n'] + "hint_border_radius=25.0"@ + seq!['\n'] + "hint_chars=asdfghjklqwertzxv"@ + seq!['\n'] + "refinement_passes=2"@ + seq!['\n'] + "exit_on_select=true"@ + seq!['\n'] + "on_select_cmd=hyprctl dispatch movecursor {global_x} {global_y}"@ + seq!['\n'] + "on_exit_cmd="@ + seq!['\n']
}

/// Appends the characters of `t` to `s`.
fn push_text(s: &mut String, t: &str)
    ensures
        final(s)@ == old(s)@ + t@,
{
    let v = chars_of(t);
    let mut i: usize = 0;
    while i < v.len()
        invariant
            i <= v@.len(),
            v@ == t@,
            s@ == old(s)@ + v@.take(i as int),
        decreases v@.len() - i,
    {
        push_char(s, v[i]);
        assert(v@.take(i + 1) =~= v@.take(i as int).push(v@[i as int]));
        i = i + 1;
    }
    assert(v@.take(v@.len() as int) =~= v@);
}

proof fn lemma_first_index_at(s: Seq<char>, c: char, k: int)
    requires
        0 <= k < s.len(),
        s[k] == c,
        !s.take(k).contains(c),
    ensures
        first_index_of(s, c) == k,
{
    lemma_first_index_of(s, c);
    let f = first_index_of(s, c);
    if f < k {
        assert(s.take(k)[f as int] == c);
    }
}

/// A line `key=value` whose key and value carry no surrounding whitespace.
proof fn lemma_setting_line(line: Seq<char>, k: int)
    requires
        0 < k < line.len(),
        line[k] == '=',
        !line.take(k).contains('='),
        !is_ws(line[0]),
        !is_ws(line[line.len() - 1]),
        !is_ws(line[k - 1]),
        k + 1 < line.len() ==> !is_ws(line[k + 1]),
        line[0] != '#',
        line[0] != ';',
    ensures
        line_entry(line) == Some((line.take(k), line.skip(k + 1))),
{
    assert(line.last() == line[line.len() - 1]);
    assert(trim_start(line) == line);
    assert(trim(line) == line);
    lemma_first_index_at(line, '=', k);
    let key = line.take(k);
    assert(key[0] == line[0] && key.last() == line[k - 1]);
    assert(trim_start(key) == key);
    assert(trim(key) == key);
    let val = line.skip(k + 1);
    if val.len() > 0 {
        assert(val[0] == line[k + 1] && val.last() == line.last());
        assert(trim_start(val) == val);
    }
    assert(trim(val) == val);
}

proof fn lemma_append_line(a: Seq<char>, b: Seq<char>)
    requires
        !b.contains('\n'),
    ensures
        ini_config(a + seq!['\n'] + b) == apply_line(ini_config(a), b),
{
    assert(ini_step() == (|cfg: ConfigView, line: Seq<char>| apply_line(cfg, line)));
    lemma_first_index_of(b, '\n');
    if first_index_of(b, '\n') < b.len() {
        assert(b[first_index_of(b, '\n') as int] == '\n');
    }
    assert(ini_lines(b) == seq![b]);
    let one = seq![b];
    assert(one.drop_last() =~= Seq::<Seq<char>>::empty());
    assert(one.drop_last().fold_left(ini_config(a), ini_step()) == ini_config(a));
    assert(one.last() == b);
    lemma_ini_config_append(a, b);
}

proof fn lemma_default_line_size(cfg: ConfigView)
    ensures
        !"hint_size=18"@.contains('\n'),
        apply_line(cfg, "hint_size=18"@) == (ConfigView { hint_size: 18, ..cfg }),
{
    reveal_strlit("hint_size=18");
    reveal_strlit("hint_bg");
    reveal_strlit("hint_bgcolor");
    reveal_strlit("hint_fg");
    reveal_strlit("hint_fgcolor");
    reveal_strlit("hint_font");
    reveal_strlit("hint_size");
    let l = "hint_size=18"@;
    lemma_setting_line(l, 9);
    assert(l.take(9) =~= "hint_size"@);
    let v = l.skip(10);
    assert(v =~= seq!['1', '8']);
    assert(v.drop_last() =~= seq!['1']);
    assert(v.drop_last().drop_last() =~= Seq::<char>::empty());
    assert(all_digits(v));
    assert(digits_value(v.drop_last().drop_last()) == 0);
    assert(digits_value(v.drop_last()) == 1);
    assert(digits_value(v) == 18);
}

proof fn lemma_default_line_comment(cfg: ConfigView)
    ensures
        !"# waywarp config"@.contains('\n'),
        apply_line(cfg, "# waywarp config"@) == cfg,
{
    reveal_strlit("# waywarp config");
    let l = "# waywarp config"@;
    assert(l.last() == l[l.len() - 1]);
    assert(trim_start(l) == l);
    assert(trim(l) == l);
}

proof fn lemma_default_line_bg(cfg: ConfigView)
    ensures
        !"hint_bg=#ff555560"@.contains('\n'),
        apply_line(cfg, "hint_bg=#ff555560"@) == (ConfigView { hint_bg: Rgba { r: 255, g: 85, b: 85, a: 96 }, ..cfg }),
{
    reveal_strlit("hint_bg");
    reveal_strlit("hint_bgcolor");
    reveal_strlit("hint_fg");
    reveal_strlit("hint_fgcolor");
    reveal_strlit("hint_font");
    reveal_strlit("hint_size");
    reveal_strlit("hint_border_radius");
    reveal_strlit("hint_radius");
    reveal_strlit("hint_chars");
    reveal_strlit("refinement_passes");
    reveal_strlit("exit_on_select");
    reveal_strlit("on_select_cmd");
    reveal_strlit("on_exit_cmd");
    reveal_strlit("hint_bg=#ff555560");
    let l = "hint_bg=#ff555560"@;
    lemma_setting_line(l, 7);
    assert(l.take(7) =~= "hint_bg"@);
    let v = l.skip(8);
    assert(v[0] == '#' && v.last() == v[v.len() - 1]);
    assert(trim_start(v) == v);
    assert(trim(v) == v);
    assert(v.drop_first()[0] == 'f');
    assert(strip_hashes(v.drop_first()) == v.drop_first());
    assert(colour_digits(v) == v.drop_first());
    assert(v.drop_first() =~= seq!['f', 'f', '5', '5', '5', '5', '6', '0']);
}

proof fn lemma_default_line_fg(cfg: ConfigView)
    ensures
        !"hint_fg=#ffffffff"@.contains('\n'),
        apply_line(cfg, "hint_fg=#ffffffff"@) == (ConfigView { hint_fg: Rgba { r: 255, g: 255, b: 255, a: 255 }, ..cfg }),
{
    reveal_strlit("hint_bg");
    reveal_strlit("hint_bgcolor");
    reveal_strlit("hint_fg");
    reveal_strlit("hint_fgcolor");
    reveal_strlit("hint_font");
    reveal_strlit("hint_size");
    reveal_strlit("hint_border_radius");
    reveal_strlit("hint_radius");
    reveal_strlit("hint_chars");
    reveal_strlit("refinement_passes");
    reveal_strlit("exit_on_select");
    reveal_strlit("on_select_cmd");
    reveal_strlit("on_exit_cmd");
    reveal_strlit("hint_fg=#ffffffff");
    let l = "hint_fg=#ffffffff"@;
    lemma_setting_line(l, 7);
    assert(l.take(7) =~= "hint_fg"@);
    assert("hint_fg"@[5] != "hint_bg"@[5]);
    assert("hint_fg"@.len() != "hint_bgcolor"@.len());
    let v = l.skip(8);
    assert(v[0] == '#' && v.last() == v[v.len() - 1]);
    assert(trim_start(v) == v);
    assert(trim(v) == v);
    assert(v.drop_first()[0] == 'f');
    assert(strip_hashes(v.drop_first()) == v.drop_first());
    assert(colour_digits(v) == v.drop_first());
    assert(v.drop_first() =~= seq!['f', 'f', 'f', 'f', 'f', 'f', 'f', 'f']);
}

proof fn lemma_default_line_font(cfg: ConfigView)
    ensures
        !"hint_font=monospace"@.contains('\n'),
        apply_line(cfg, "hint_font=monospace"@) == (ConfigView { hint_font: "monospace"@, ..cfg }),
{
    reveal_strlit("hint_bg");
    reveal_strlit("hint_bgcolor");
    reveal_strlit("hint_fg");
    reveal_strlit("hint_fgcolor");
    reveal_strlit("hint_font");
    reveal_strlit("hint_size");
    reveal_strlit("hint_border_radius");
    reveal_strlit("hint_radius");
    reveal_strlit("hint_chars");
    reveal_strlit("refinement_passes");
    reveal_strlit("exit_on_select");
    reveal_strlit("on_select_cmd");
    reveal_strlit("on_exit_cmd");
    reveal_strlit("hint_font=monospace");
    let l = "hint_font=monospace"@;
    lemma_setting_line(l, 9);
    assert(l.take(9) =~= "hint_font"@);
    let v = l.skip(10);
    reveal_strlit("monospace");
    assert(v =~= "monospace"@);
}

proof fn lemma_default_line_radius(cfg: ConfigView)
    ensures
        !"hint_border_radius=25.0"@.contains('\n'),
        apply_line(cfg, "hint_border_radius=25.0"@) == (ConfigView { hint_border_radius: Some("25.0"@), ..cfg }),
{
    reveal_strlit("hint_bg");
    reveal_strlit("hint_bgcolor");
    reveal_strlit("hint_fg");
    reveal_strlit("hint_fgcolor");
    reveal_strlit("hint_font");
    reveal_strlit("hint_size");
    reveal_strlit("hint_border_radius");
    reveal_strlit("hint_radius");
    reveal_strlit("hint_chars");
    reveal_strlit("refinement_passes");
    reveal_strlit("exit_on_select");
    reveal_strlit("on_select_cmd");
    reveal_strlit("on_exit_cmd");
    reveal_strlit("hint_border_radius=25.0");
    let l = "hint_border_radius=25.0"@;
    lemma_setting_line(l, 18);
    assert(l.take(18) =~= "hint_border_radius"@);
    let v = l.skip(19);
    reveal_strlit("25.0");
    reveal_strlit("inf");
    reveal_strlit("infinity");
    reveal_strlit("nan");
    assert(v =~= "25.0"@);
    assert(strip_sign(v) == v);
    reveal_with_fuel(first_exp_mark, 5);
    assert(v.drop_first() =~= seq!['5', '.', '0']);
    assert(v.drop_first().drop_first() =~= seq!['.', '0']);
    assert(v.drop_first().drop_first().drop_first() =~= seq!['0']);
    assert(v.drop_first().drop_first().drop_first().drop_first() =~= Seq::<char>::empty());
    assert(first_exp_mark(v) == 4);
    assert(v.take(4) =~= v);
    assert(!v.take(2).contains('.'));
    lemma_first_index_at(v, '.', 2);
    assert(all_digits(v.take(2)));
    assert(all_digits(v.skip(3)));
    assert(is_decimal_mantissa(v));
    assert(is_float_text(v));
}

proof fn lemma_default_line_chars(cfg: ConfigView)
    ensures
        !"hint_chars=asdfghjklqwertzxv"@.contains('\n'),
        apply_line(cfg, "hint_chars=asdfghjklqwertzxv"@) == (ConfigView { hint_chars: "asdfghjklqwertzxv"@, ..cfg }),
{
    reveal_strlit("hint_bg");
    reveal_strlit("hint_bgcolor");
    reveal_strlit("hint_fg");
    reveal_strlit("hint_fgcolor");
    reveal_strlit("hint_font");
    reveal_strlit("hint_size");
    reveal_strlit("hint_border_radius");
    reveal_strlit("hint_radius");
    reveal_strlit("hint_chars");
    reveal_strlit("refinement_passes");
    reveal_strlit("exit_on_select");
    reveal_strlit("on_select_cmd");
    reveal_strlit("on_exit_cmd");
    reveal_strlit("hint_chars=asdfghjklqwertzxv");
    let l = "hint_chars=asdfghjklqwertzxv"@;
    lemma_setting_line(l, 10);
    assert(l.take(10) =~= "hint_chars"@);
    let v = l.skip(11);
    reveal_strlit("asdfghjklqwertzxv");
    assert(v =~= "asdfghjklqwertzxv"@);
}

proof fn lemma_default_line_passes(cfg: ConfigView)
    ensures
        !"refinement_passes=2"@.contains('\n'),
        apply_line(cfg, "refinement_passes=2"@) == (ConfigView { refinement_passes: 2, ..cfg }),
{
    reveal_strlit("hint_bg");
    reveal_strlit("hint_bgcolor");
    reveal_strlit("hint_fg");
    reveal_strlit("hint_fgcolor");
    reveal_strlit("hint_font");
    reveal_strlit("hint_size");
    reveal_strlit("hint_border_radius");
    reveal_strlit("hint_radius");
    reveal_strlit("hint_chars");
    reveal_strlit("refinement_passes");
    reveal_strlit("exit_on_select");
    reveal_strlit("on_select_cmd");
    reveal_strlit("on_exit_cmd");
    reveal_strlit("refinement_passes=2");
    let l = "refinement_passes=2"@;
    lemma_setting_line(l, 17);
    assert(l.take(17) =~= "refinement_passes"@);
    let v = l.skip(18);
    assert(v =~= seq!['2']);
    assert(v.drop_last() =~= Seq::<char>::empty());
    assert(all_digits(v));
    assert(digits_value(v.drop_last()) == 0);
    assert(digits_value(v) == 2);
}

proof fn lemma_default_line_exit(cfg: ConfigView)
    ensures
        !"exit_on_select=true"@.contains('\n'),
        apply_line(cfg, "exit_on_select=true"@) == (ConfigView { exit_on_select: true, ..cfg }),
{
    reveal_strlit("hint_bg");
    reveal_strlit("hint_bgcolor");
    reveal_strlit("hint_fg");
    reveal_strlit("hint_fgcolor");
    reveal_strlit("hint_font");
    reveal_strlit("hint_size");
    reveal_strlit("hint_border_radius");
    reveal_strlit("hint_radius");
    reveal_strlit("hint_chars");
    reveal_strlit("refinement_passes");
    reveal_strlit("exit_on_select");
    reveal_strlit("on_select_cmd");
    reveal_strlit("on_exit_cmd");
    reveal_strlit("exit_on_select=true");
    let l = "exit_on_select=true"@;
    lemma_setting_line(l, 14);
    assert(l.take(14) =~= "exit_on_select"@);
    let v = l.skip(15);
    reveal_strlit("true");
    assert(v =~= "true"@);
}

proof fn lemma_default_line_select(cfg: ConfigView)
    ensures
        !"on_select_cmd=hyprctl dispatch movecursor {global_x} {global_y}"@.contains('\n'),
        apply_line(cfg, "on_select_cmd=hyprctl dispatch movecursor {global_x} {global_y}"@) == (ConfigView { on_select_cmd: "hyprctl dispatch movecursor {global_x} {global_y}"@, ..cfg }),
{
    reveal_strlit("hint_bg");
    reveal_strlit("hint_bgcolor");
    reveal_strlit("hint_fg");
    reveal_strlit("hint_fgcolor");
    reveal_strlit("hint_font");
    reveal_strlit("hint_size");
    reveal_strlit("hint_border_radius");
    reveal_strlit("hint_radius");
    reveal_strlit("hint_chars");
    reveal_strlit("refinement_passes");
    reveal_strlit("exit_on_select");
    reveal_strlit("on_select_cmd");
    reveal_strlit("on_exit_cmd");
    reveal_strlit("on_select_cmd=hyprctl dispatch movecursor {global_x} {global_y}");
    let l = "on_select_cmd=hyprctl dispatch movecursor {global_x} {global_y}"@;
    lemma_setting_line(l, 13);
    assert(l.take(13) =~= "on_select_cmd"@);
    let v = l.skip(14);
    reveal_strlit("hyprctl dispatch movecursor {global_x} {global_y}");
    assert(v =~= "hyprctl dispatch movecursor {global_x} {global_y}"@);
}

proof fn lemma_default_line_exit_cmd(cfg: ConfigView)
    ensures
        !"on_exit_cmd="@.contains('\n'),
        apply_line(cfg, "on_exit_cmd="@) == (ConfigView { on_exit_cmd: ""@, ..cfg }),
{
    reveal_strlit("hint_bg");
    reveal_strlit("hint_bgcolor");
    reveal_strlit("hint_fg");
    reveal_strlit("hint_fgcolor");
    reveal_strlit("hint_font");
    reveal_strlit("hint_size");
    reveal_strlit("hint_border_radius");
    reveal_strlit("hint_radius");
    reveal_strlit("hint_chars");
    reveal_strlit("refinement_passes");
    reveal_strlit("exit_on_select");
    reveal_strlit("on_select_cmd");
    reveal_strlit("on_exit_cmd");
    reveal_strlit("on_exit_cmd=");
    let l = "on_exit_cmd="@;
    assert(l[11] == '=' && l.len() == 12);
    lemma_setting_line(l, 11);
    assert(l.skip(12) =~= Seq::<char>::empty());
    assert(line_entry(l) == Some(("on_exit_cmd"@, Seq::<char>::empty())));
    assert("on_exit_cmd"@.len() != "on_select_cmd"@.len());
    assert("on_exit_cmd"@[0] != "hint_radius"@[0]);
    assert(apply_setting(cfg, "on_exit_cmd"@, Seq::<char>::empty()) == (ConfigView {
        on_exit_cmd: Seq::<char>::empty(),
        ..cfg
    }));
    assert(l.take(11) =~= "on_exit_cmd"@);
    let v = l.skip(12);
    reveal_strlit("");
    assert(v =~= ""@);
}

proof fn lemma_single_line(b: Seq<char>)
    requires
        !b.contains('\n'),
    ensures
        ini_config(b) == apply_line(default_config(), b),
{
    assert(ini_step() == (|cfg: ConfigView, line: Seq<char>| apply_line(cfg, line)));
    lemma_first_index_of(b, '\n');
    if first_index_of(b, '\n') < b.len() {
        assert(b[first_index_of(b, '\n') as int] == '\n');
    }
    assert(ini_lines(b) == seq![b]);
    let one = seq![b];
    assert(one.drop_last() =~= Seq::<Seq<char>>::empty());
    assert(one.drop_last().fold_left(default_config(), ini_step()) == default_config());
    assert(one.last() == b);
}

/// Reading the default file gives the built-in settings, with the radius
/// written out as `25.0`.
pub proof fn lemma_default_text_gives_defaults()
    ensures
        ini_config(default_config_text()) == (ConfigView {
            hint_border_radius: Some("25.0"@),
            ..default_config()
        }),
{
    let x0 = "# waywarp config"@;
    lemma_default_line_comment(default_config());
    lemma_single_line(x0);
    let x1 = x0 + seq!['\n'] + "hint_bg=#ff555560"@;
    lemma_default_line_bg(ini_config(x0));
    lemma_append_line(x0, "hint_bg=#ff555560"@);
    let x2 = x1 + seq!['\n'] + "hint_fg=#ffffffff"@;
    lemma_default_line_fg(ini_config(x1));
    lemma_append_line(x1, "hint_fg=#ffffffff"@);
    let x3 = x2 + seq!['\n'] + "hint_font=monospace"@;
    lemma_default_line_font(ini_config(x2));
    lemma_append_line(x2, "hint_font=monospace"@);
    let x4 = x3 + seq!['\n'] + "hint_size=18"@;
    lemma_default_line_size(ini_config(x3));
    lemma_append_line(x3, "hint_size=18"@);
    let x5 = x4 + seq!['\n'] + "hint_border_radius=25.0"@;
    lemma_default_line_radius(ini_config(x4));
    lemma_append_line(x4, "hint_border_radius=25.0"@);
    let x6 = x5 + seq!['\n'] + "hint_chars=asdfghjklqwertzxv"@;
    lemma_default_line_chars(ini_config(x5));
    lemma_append_line(x5, "hint_chars=asdfghjklqwertzxv"@);
    let x7 = x6 + seq!['\n'] + "refinement_passes=2"@;
    lemma_default_line_passes(ini_config(x6));
    lemma_append_line(x6, "refinement_passes=2"@);
    let x8 = x7 + seq!['\n'] + "exit_on_select=true"@;
    lemma_default_line_exit(ini_config(x7));
    lemma_append_line(x7, "exit_on_select=true"@);
    let x9 = x8 + seq!['\n'] + "on_select_cmd=hyprctl dispatch movecursor {global_x} {global_y}"@;
    lemma_default_line_select(ini_config(x8));
    lemma_append_line(x8, "on_select_cmd=hyprctl dispatch movecursor {global_x} {global_y}"@);
    let x10 = x9 + seq!['\n'] + "on_exit_cmd="@;
    lemma_default_line_exit_cmd(ini_config(x9));
    lemma_append_line(x9, "on_exit_cmd="@);
    assert(default_config_text() == x10 + seq!['\n']);
    assert(x10 + seq!['\n'] =~= x10 + seq!['\n'] + Seq::<char>::empty());
    lemma_append_line(x10, Seq::<char>::empty());
    assert(trim(Seq::<char>::empty()) =~= Seq::<char>::empty());
}

// ---------------------------------------------------------------------------
// Laws of the reader
// ---------------------------------------------------------------------------

pub open spec fn ini_step() -> spec_fn(ConfigView, Seq<char>) -> ConfigView {
    |cfg: ConfigView, line: Seq<char>| apply_line(cfg, line)
}

pub open spec fn config_in_range(cfg: ConfigView) -> bool {
    &&& 8 <= cfg.hint_size <= 64
    &&& 1 <= cfg.refinement_passes <= 4
    &&& cfg.hint_chars.len() > 0
}

proof fn lemma_fold_in_range(lines: Seq<Seq<char>>, start: ConfigView)
    requires
        config_in_range(start),
    ensures
        config_in_range(lines.fold_left(start, ini_step())),
    decreases lines.len(),
{
    if lines.len() > 0 {
        lemma_fold_in_range(lines.drop_last(), start);
    }
}

/// Whatever the file holds, the font size stays within `8..=64`, the number
/// of refinement passes within `1..=4`, and the key characters are never
/// empty.
pub proof fn lemma_ini_config_in_range(content: Seq<char>)
    ensures
        config_in_range(ini_config(content)),
{
    reveal_strlit("asdfghjklqwertzxv");
    assert(ini_step() == (|cfg: ConfigView, line: Seq<char>| apply_line(cfg, line)));
    lemma_fold_in_range(ini_lines(content), default_config());
}

/// Joining two texts with a line break joins their lines.
pub proof fn lemma_ini_lines_concat(a: Seq<char>, b: Seq<char>)
    ensures
        ini_lines(a + seq!['\n'] + b) == ini_lines(a) + ini_lines(b),
    decreases a.len(),
{
    let s = a + seq!['\n'] + b;
    lemma_first_index_of(a, '\n');
    lemma_first_index_of(s, '\n');
    let i = first_index_of(a, '\n');
    if i < a.len() {
        assert(s[i as int] == '\n');
        assert forall|k: int| 0 <= k < i implies s[k] != '\n' by {
            assert(s[k] == a[k]);
        }
        lemma_first_index_is(s, i as int);
        assert(s.take(i as int) =~= a.take(i as int));
        let a2 = a.skip(i + 1int);
        assert(s.skip(i + 1int) =~= a2 + seq!['\n'] + b);
        lemma_ini_lines_concat(a2, b);
        assert(ini_lines(a) == seq![a.take(i as int)] + ini_lines(a2));
        assert(ini_lines(s) =~= ini_lines(a) + ini_lines(b));
    } else {
        assert(s[a.len() as int] == '\n');
        assert forall|k: int| 0 <= k < a.len() implies s[k] != '\n' by {
            assert(s[k] == a[k]);
        }
        lemma_first_index_is(s, a.len() as int);
        assert(s.take(a.len() as int) =~= a);
        assert(s.skip(a.len() + 1int) =~= b);
        assert(ini_lines(s) =~= ini_lines(a) + ini_lines(b));
    }
}

proof fn lemma_first_index_is(s: Seq<char>, i: int)
    requires
        0 <= i < s.len(),
        s[i] == '\n',
        forall|k: int| 0 <= k < i ==> s[k] != '\n',
    ensures
        first_index_of(s, '\n') == i,
{
    lemma_first_index_of(s, '\n');
    let f = first_index_of(s, '\n');
    if f < i {
        assert(s[f as int] == '\n');
    }
}

/// Settings are applied in file order, so text appended after a line break
/// acts on the configuration that the text before it produced; in
/// particular a later setting of a key overrides an earlier one.
pub proof fn lemma_ini_config_append(a: Seq<char>, b: Seq<char>)
    ensures
        ini_config(a + seq!['\n'] + b) == ini_lines(b).fold_left(ini_config(a), ini_step()),
{
    lemma_ini_lines_concat(a, b);
    let la = ini_lines(a);
    let lb = ini_lines(b);
    let all = la + lb;
    assert(ini_step() == (|cfg: ConfigView, line: Seq<char>| apply_line(cfg, line)));
    all.lemma_fold_left_split(default_config(), ini_step(), la.len() as int);
    assert(all.subrange(0, la.len() as int) =~= la);
    assert(all.subrange(la.len() as int, all.len() as int) =~= lb);
}

/// The keys that the reader knows.
pub open spec fn is_known_key(key: Seq<char>) -> bool {
    ||| key == "hint_bg"@
    ||| key == "hint_bgcolor"@
    ||| key == "hint_fg"@
    ||| key == "hint_fgcolor"@
    ||| key == "hint_font"@
    ||| key == "hint_size"@
    ||| key == "hint_border_radius"@
    ||| key == "hint_radius"@
    ||| key == "hint_chars"@
    ||| key == "refinement_passes"@
    ||| key == "exit_on_select"@
    ||| key == "on_select_cmd"@
    ||| key == "on_exit_cmd"@
    ||| key == "key_left"@
    ||| key == "key_right"@
    ||| key == "key_up"@
    ||| key == "key_down"@
    ||| key == "key_shift"@
    ||| key == "key_ctrl"@
    ||| key == "key_click_left"@
    ||| key == "key_click_right"@
    ||| key == "key_click_middle"@
    ||| key == "key_scroll_up"@
    ||| key == "key_scroll_down"@
    ||| key == "key_exit"@
}

/// A line that changes nothing: blank, a comment, without a key, or with a
/// key that the reader does not know.
pub open spec fn inert_line(raw: Seq<char>) -> bool {
    match line_entry(raw) {
        None => true,
        Some((key, _)) => !is_known_key(key),
    }
}

/// Whether `val` is a value that the setting `key` takes: a colour for the
/// colour keys, a number for the size and the passes, a floating-point
/// number for the radius, a non-empty text for the key characters, `true`
/// or `false` for `exit_on_select`, any text for the other known keys.
pub open spec fn setting_accepted(key: Seq<char>, val: Seq<char>) -> bool {
    if key == "hint_bg"@ || key == "hint_bgcolor"@ || key == "hint_fg"@ || key == "hint_fgcolor"@ {
        hex_color(val) is Some
    } else if key == "hint_font"@ {
        true
    } else if key == "hint_size"@ {
        parse_u32_spec(val) is Some
    } else if key == "hint_border_radius"@ || key == "hint_radius"@ {
        is_float_text(val)
    } else if key == "hint_chars"@ {
        val.len() > 0
    } else if key == "refinement_passes"@ {
        parse_u32_spec(val) is Some
    } else if key == "exit_on_select"@ {
        parse_bool_spec(val) is Some
    } else {
        is_known_key(key)
    }
}

/// `cfg` with the field that `key` sets taken from `from`.
pub open spec fn take_setting(cfg: ConfigView, from: ConfigView, key: Seq<char>) -> ConfigView {
    if key == "hint_bg"@ || key == "hint_bgcolor"@ {
        ConfigView { hint_bg: from.hint_bg, ..cfg }
    } else if key == "hint_fg"@ || key == "hint_fgcolor"@ {
        ConfigView { hint_fg: from.hint_fg, ..cfg }
    } else if key == "hint_font"@ {
        ConfigView { hint_font: from.hint_font, ..cfg }
    } else if key == "hint_size"@ {
        ConfigView { hint_size: from.hint_size, ..cfg }
    } else if key == "hint_border_radius"@ || key == "hint_radius"@ {
        ConfigView { hint_border_radius: from.hint_border_radius, ..cfg }
    } else if key == "hint_chars"@ {
        ConfigView { hint_chars: from.hint_chars, ..cfg }
    } else if key == "refinement_passes"@ {
        ConfigView { refinement_passes: from.refinement_passes, ..cfg }
    } else if key == "exit_on_select"@ {
        ConfigView { exit_on_select: from.exit_on_select, ..cfg }
    } else if key == "on_select_cmd"@ {
        ConfigView { on_select_cmd: from.on_select_cmd, ..cfg }
    } else if key == "on_exit_cmd"@ {
        ConfigView { on_exit_cmd: from.on_exit_cmd, ..cfg }
    } else if key == "key_left"@ {
        ConfigView { key_left: from.key_left, ..cfg }
    } else if key == "key_right"@ {
        ConfigView { key_right: from.key_right, ..cfg }
    } else if key == "key_up"@ {
        ConfigView { key_up: from.key_up, ..cfg }
    } else if key == "key_down"@ {
        ConfigView { key_down: from.key_down, ..cfg }
    } else if key == "key_shift"@ {
        ConfigView { key_shift: from.key_shift, ..cfg }
    } else if key == "key_ctrl"@ {
        ConfigView { key_ctrl: from.key_ctrl, ..cfg }
    } else if key == "key_click_left"@ {
        ConfigView { key_click_left: from.key_click_left, ..cfg }
    } else if key == "key_click_right"@ {
        ConfigView { key_click_right: from.key_click_right, ..cfg }
    } else if key == "key_click_middle"@ {
        ConfigView { key_click_middle: from.key_click_middle, ..cfg }
    } else if key == "key_scroll_up"@ {
        ConfigView { key_scroll_up: from.key_scroll_up, ..cfg }
    } else if key == "key_scroll_down"@ {
        ConfigView { key_scroll_down: from.key_scroll_down, ..cfg }
    } else if key == "key_exit"@ {
        ConfigView { key_exit: from.key_exit, ..cfg }
    } else {
        cfg
    }
}

/// A setting with an accepted value puts the same value into its field
/// whatever the configuration before it, and touches no other field.
proof fn lemma_setting_overwrites(cfg: ConfigView, key: Seq<char>, val: Seq<char>)
    requires
        setting_accepted(key, val),
    ensures
        apply_setting(cfg, key, val) == take_setting(
            cfg,
            apply_setting(default_config(), key, val),
            key,
        ),
{
}

proof fn lemma_inert_fold(lines: Seq<Seq<char>>, start: ConfigView)
    requires
        forall|i: int| 0 <= i < lines.len() ==> inert_line(#[trigger] lines[i]),
    ensures
        lines.fold_left(start, ini_step()) == start,
    decreases lines.len(),
{
    if lines.len() > 0 {
        let last = lines.last();
        assert(inert_line(lines[lines.len() - 1]));
        lemma_inert_fold(lines.drop_last(), start);
    }
}

/// Lines that are blank, comments, without a key or with an unknown key
/// change nothing, before or after any other text.
pub proof fn lemma_inert_lines(c: Seq<char>, extra: Seq<char>)
    requires
        forall|i: int| 0 <= i < ini_lines(extra).len() ==> inert_line(#[trigger] ini_lines(extra)[i]),
    ensures
        ini_config(c + seq!['\n'] + extra) == ini_config(c),
        ini_config(extra + seq!['\n'] + c) == ini_config(c),
{
    assert(ini_step() == (|cfg: ConfigView, line: Seq<char>| apply_line(cfg, line)));
    lemma_ini_config_append(c, extra);
    lemma_inert_fold(ini_lines(extra), ini_config(c));
    lemma_ini_config_append(extra, c);
    lemma_inert_fold(ini_lines(extra), default_config());
    assert(ini_config(extra) == ini_lines(extra).fold_left(default_config(), ini_step()));
    assert(ini_config(c) == ini_lines(c).fold_left(default_config(), ini_step()));
}

/// The last assignment of a key wins: after any text `a`, a line `b` that
/// sets a known key to an accepted value gives that field the value that `b`
/// alone gives it, and leaves every other field as `a` left it.
pub proof fn lemma_last_assignment_wins(a: Seq<char>, b: Seq<char>, key: Seq<char>, val: Seq<char>)
    requires
        !b.contains('\n'),
        line_entry(b) == Some((key, val)),
        setting_accepted(key, val),
    ensures
        ini_config(a + seq!['\n'] + b) == take_setting(ini_config(a), ini_config(b), key),
{
    assert(ini_step() == (|cfg: ConfigView, line: Seq<char>| apply_line(cfg, line)));
    lemma_first_index_of(b, '\n');
    if first_index_of(b, '\n') < b.len() {
        assert(b[first_index_of(b, '\n') as int] == '\n');
        assert(b.contains('\n'));
    }
    assert(ini_lines(b) == seq![b]);
    let one = seq![b];
    assert(one.drop_last() =~= Seq::<Seq<char>>::empty());
    assert(one.drop_last().fold_left(default_config(), ini_step()) == default_config());
    assert(one.drop_last().fold_left(ini_config(a), ini_step()) == ini_config(a));
    assert(one.last() == b);
    assert(one.fold_left(default_config(), ini_step()) == apply_line(default_config(), b));
    assert(one.fold_left(ini_config(a), ini_step()) == apply_line(ini_config(a), b));
    lemma_ini_config_append(a, b);
    lemma_setting_overwrites(ini_config(a), key, val);
}

/// The names kept from earlier releases act exactly as the current ones:
/// `hint_bgcolor` as `hint_bg`, `hint_fgcolor` as `hint_fg`, `hint_radius`
/// as `hint_border_radius`.
pub proof fn lemma_setting_aliases(cfg: ConfigView, val: Seq<char>)
    ensures
        apply_setting(cfg, "hint_bgcolor"@, val) == apply_setting(cfg, "hint_bg"@, val),
        apply_setting(cfg, "hint_fgcolor"@, val) == apply_setting(cfg, "hint_fg"@, val),
        apply_setting(cfg, "hint_radius"@, val) == apply_setting(cfg, "hint_border_radius"@, val),
{
    reveal_strlit("hint_bg");
    reveal_strlit("hint_bgcolor");
    reveal_strlit("hint_fg");
    reveal_strlit("hint_fgcolor");
    reveal_strlit("hint_radius");
    reveal_strlit("hint_border_radius");
    reveal_strlit("hint_font");
    reveal_strlit("hint_size");
    reveal_strlit("hint_chars");
    reveal_strlit("refinement_passes");
    reveal_strlit("exit_on_select");
    reveal_strlit("on_select_cmd");
    reveal_strlit("on_exit_cmd");
    assert("hint_fg"@[5] != "hint_bg"@[5]);
    assert("hint_fgcolor"@[5] != "hint_bgcolor"@[5]);
    assert("hint_fgcolor"@ != "hint_bg"@);
    assert("hint_fg"@ != "hint_bgcolor"@);
    assert("hint_radius"@.len() != "hint_bg"@.len());
    assert("hint_radius"@.len() != "hint_bgcolor"@.len());
    assert("hint_radius"@.len() != "hint_fg"@.len());
    assert("hint_radius"@.len() != "hint_fgcolor"@.len());
    assert("hint_radius"@.len() != "hint_font"@.len());
    assert("hint_radius"@.len() != "hint_size"@.len());
    assert("hint_border_radius"@.len() != "hint_bg"@.len());
    assert("hint_border_radius"@.len() != "hint_bgcolor"@.len());
    assert("hint_border_radius"@.len() != "hint_fg"@.len());
    assert("hint_border_radius"@.len() != "hint_fgcolor"@.len());
    assert("hint_border_radius"@.len() != "hint_font"@.len());
    assert("hint_border_radius"@.len() != "hint_size"@.len());
}

/// A colour written with six digits is opaque.
pub proof fn lemma_six_digit_colour_opaque(hex: Seq<char>)
    requires
        hex_color(hex) is Some,
        colour_digits(hex).len() == 6,
    ensures
        hex_color(hex).unwrap().a == 255,
{
}


impl Config {
    /// Applies the setting whose key is `v[ka..kb]` and value `v[va..vb]`.
    fn apply_setting_range(&mut self, v: &Vec<char>, ka: usize, kb: usize, va: usize, vb: usize)
        requires
            ka <= kb <= v@.len(),
            va <= vb <= v@.len(),
        ensures
            final(self)@ == apply_setting(
                old(self)@,
                v@.subrange(ka as int, kb as int),
                v@.subrange(va as int, vb as int),
            ),
    {
        if range_eq_str(v, ka, kb, "hint_bg") || range_eq_str(v, ka, kb, "hint_bgcolor") {
            if let Some(rgba) = scan_hex_color(v, va, vb) {
                self.hint_bg = rgba;
            }
        } else if range_eq_str(v, ka, kb, "hint_fg") || range_eq_str(v, ka, kb, "hint_fgcolor") {
            if let Some(rgba) = scan_hex_color(v, va, vb) {
                self.hint_fg = rgba;
            }
        } else if range_eq_str(v, ka, kb, "hint_font") {
            self.hint_font = string_of_range(v, va, vb);
        } else if range_eq_str(v, ka, kb, "hint_size") {
            if let Some(size) = parse_u32_range(v, va, vb) {
                self.hint_size = if size < 8 {
                    8
                } else if size > 64 {
                    64
                } else {
                    size
                };
            }
        } else if range_eq_str(v, ka, kb, "hint_border_radius") || range_eq_str(
            v,
            ka,
            kb,
            "hint_radius",
        ) {
            if is_float_range(v, va, vb) {
                self.hint_border_radius = Some(string_of_range(v, va, vb));
            }
        } else if range_eq_str(v, ka, kb, "hint_chars") {
            if va < vb {
                self.hint_chars = string_of_range(v, va, vb);
            }
        } else if range_eq_str(v, ka, kb, "refinement_passes") {
            if let Some(passes) = parse_u32_range(v, va, vb) {
                self.refinement_passes = if passes < 1 {
                    1
                } else if passes > 4 {
                    4
                } else {
                    passes
                };
            }
        } else if range_eq_str(v, ka, kb, "exit_on_select") {
            if let Some(b) = parse_bool_range(v, va, vb) {
                self.exit_on_select = b;
            }
        } else if range_eq_str(v, ka, kb, "on_select_cmd") {
            self.on_select_cmd = string_of_range(v, va, vb);
        } else if range_eq_str(v, ka, kb, "on_exit_cmd") {
            self.on_exit_cmd = string_of_range(v, va, vb);
        } else if range_eq_str(v, ka, kb, "key_left") {
            self.key_left = string_of_range(v, va, vb);
        } else if range_eq_str(v, ka, kb, "key_right") {
            self.key_right = string_of_range(v, va, vb);
        } else if range_eq_str(v, ka, kb, "key_up") {
            self.key_up = string_of_range(v, va, vb);
        } else if range_eq_str(v, ka, kb, "key_down") {
            self.key_down = string_of_range(v, va, vb);
        } else if range_eq_str(v, ka, kb, "key_shift") {
            self.key_shift = string_of_range(v, va, vb);
        } else if range_eq_str(v, ka, kb, "key_ctrl") {
            self.key_ctrl = string_of_range(v, va, vb);
        } else if range_eq_str(v, ka, kb, "key_click_left") {
            self.key_click_left = string_of_range(v, va, vb);
        } else if range_eq_str(v, ka, kb, "key_click_right") {
            self.key_click_right = string_of_range(v, va, vb);
        } else if range_eq_str(v, ka, kb, "key_click_middle") {
            self.key_click_middle = string_of_range(v, va, vb);
        } else if range_eq_str(v, ka, kb, "key_scroll_up") {
            self.key_scroll_up = string_of_range(v, va, vb);
        } else if range_eq_str(v, ka, kb, "key_scroll_down") {
            self.key_scroll_down = string_of_range(v, va, vb);
        } else if range_eq_str(v, ka, kb, "key_exit") {
            self.key_exit = string_of_range(v, va, vb);
        }
    }

    /// The command that a callback runs for a selection at (`x`, `y`) inside
    /// monitor `monitor_id`, whose top-left corner is at (`origin_x`,
    /// `origin_y`) and whose size is `screen_w` × `screen_h`, or `None` when
    /// the template is blank and nothing is to run.  `scale_x` and `scale_y`
    /// are the texts of the relative position (`x / screen_w`, `y / screen_h`
    /// with four decimals).
    pub fn callback_command(
        cmd_template: &str,
        x: i32,
        y: i32,
        origin_x: i32,
        origin_y: i32,
        screen_w: i32,
        screen_h: i32,
        monitor_id: u32,
        scale_x: &str,
        scale_y: &str,
    ) -> (cmd: Option<String>)
        ensures
            cmd is None <==> trim(cmd_template@).len() == 0,
            cmd matches Some(c) ==> c@ == callback_text(
                cmd_template@,
                x,
                y,
                origin_x,
                origin_y,
                screen_w,
                screen_h,
                monitor_id,
                scale_x@,
                scale_y@,
            ),
    {
        let v = chars_of(cmd_template);
        let (a, b) = trim_range(&v, 0, v.len());
        assert(v@.subrange(0, v@.len() as int) =~= v@);
        if a == b {
            return None;
        }
        proof {
            lemma_placeholders_nonempty();
        }
        let xs = i32_to_string(x);
        let ys = i32_to_string(y);
        let gxs = i64_to_string(origin_x as i64 + x as i64);
        let gys = i64_to_string(origin_y as i64 + y as i64);
        let ws = i32_to_string(screen_w);
        let hs = i32_to_string(screen_h);
        let ms = i64_to_string(monitor_id as i64);
        let s1 = replace_str(cmd_template, "{x}", xs.as_str());
        let s2 = replace_str(s1.as_str(), "{y}", ys.as_str());
        let s3 = replace_str(s2.as_str(), "{global_x}", gxs.as_str());
        let s4 = replace_str(s3.as_str(), "{global_y}", gys.as_str());
        let s5 = replace_str(s4.as_str(), "{screen_w}", ws.as_str());
        let s6 = replace_str(s5.as_str(), "{screen_h}", hs.as_str());
        let s7 = replace_str(s6.as_str(), "{monitor_id}", ms.as_str());
        let s8 = replace_str(s7.as_str(), "{scale_x}", scale_x);
        let s9 = replace_str(s8.as_str(), "{scale_y}", scale_y);
        Some(s9)
    }

    /// The text of the configuration file written when none exists.
    pub fn default_text() -> (s: String)
        ensures
            s@ == default_config_text(),
    {
        let mut s = String::new();
        let ghost mut acc: Seq<char> = Seq::empty();
        push_text(&mut s, "# waywarp config");
        proof {
            assert(Seq::<char>::empty() + "# waywarp config"@ =~= "# waywarp config"@);
            acc = "# waywarp config"@;
        }
        push_char(&mut s, '\n');
        proof {
            assert(s@ =~= acc + seq!['\n']);
            acc = acc + seq!['\n'];
        }
        push_text(&mut s, "hint_bg=#ff555560");
        proof {
            acc = acc + "hint_bg=#ff555560"@;
        }
        push_char(&mut s, '\n');
        proof {
            assert(s@ =~= acc + seq!['\n']);
            acc = acc + seq!['\n'];
        }
        push_text(&mut s, "hint_fg=#ffffffff");
        proof {
            acc = acc + "hint_fg=#ffffffff"@;
        }
        push_char(&mut s, '\n');
        proof {
            assert(s@ =~= acc + seq!['\n']);
            acc = acc + seq!['\n'];
        }
        push_text(&mut s, "hint_font=monospace");
        proof {
            acc = acc + "hint_font=monospace"@;
        }
        push_char(&mut s, '\n');
        proof {
            assert(s@ =~= acc + seq!['\n']);
            acc = acc + seq!['\n'];
        }
        push_text(&mut s, "hint_size=18");
        proof {
            acc = acc + "hint_size=18"@;
        }
        push_char(&mut s, '\n');
        proof {
            assert(s@ =~= acc + seq!['\n']);
            acc = acc + seq!['\n'];
        }
        push_text(&mut s, "hint_border_radius=25.0");
        proof {
            acc = acc + "hint_border_radius=25.0"@;
        }
        push_char(&mut s, '\n');
        proof {
            assert(s@ =~= acc + seq!['\n']);
            acc = acc + seq!['\n'];
        }
        push_text(&mut s, "hint_chars=asdfghjklqwertzxv");
        proof {
            acc = acc + "hint_chars=asdfghjklqwertzxv"@;
        }
        push_char(&mut s, '\n');
        proof {
            assert(s@ =~= acc + seq!['\n']);
            acc = acc + seq!['\n'];
        }
        push_text(&mut s, "refinement_passes=2");
        proof {
            acc = acc + "refinement_passes=2"@;
        }
        push_char(&mut s, '\n');
        proof {
            assert(s@ =~= acc + seq!['\n']);
            acc = acc + seq!['\n'];
        }
        push_text(&mut s, "exit_on_select=true");
        proof {
            acc = acc + "exit_on_select=true"@;
        }
        push_char(&mut s, '\n');
        proof {
            assert(s@ =~= acc + seq!['\n']);
            acc = acc + seq!['\n'];
        }
        push_text(&mut s, "on_select_cmd=hyprctl dispatch movecursor {global_x} {global_y}");
        proof {
            acc = acc + "on_select_cmd=hyprctl dispatch movecursor {global_x} {global_y}"@;
        }
        push_char(&mut s, '\n');
        proof {
            assert(s@ =~= acc + seq!['\n']);
            acc = acc + seq!['\n'];
        }
        push_text(&mut s, "on_exit_cmd=");
        proof {
            acc = acc + "on_exit_cmd="@;
        }
        push_char(&mut s, '\n');
        proof {
            assert(s@ =~= acc + seq!['\n']);
            acc = acc + seq!['\n'];
        }
        s
    }

    /// Parse flat INI string line-by-line
    pub fn parse_ini(content: &str) -> (cfg: Self)
        ensures
            cfg@ == ini_config(content@),
    {
        let v = chars_of(content);
        let mut config = Config::default();
        let ghost f = |cfg: ConfigView, line: Seq<char>| apply_line(cfg, line);
        let ghost mut done: Seq<Seq<char>> = Seq::empty();
        let mut start: usize = 0;
        assert(v@.skip(0) =~= v@);
        loop
            invariant
                v@ == content@,
                start <= v@.len(),
                ini_lines(content@) == done + ini_lines(v@.skip(start as int)),
                config@ == done.fold_left(default_config(), f),
                f == (|cfg: ConfigView, line: Seq<char>| apply_line(cfg, line)),
            decreases v@.len() - start,
        {
            let ghost rest = v@.skip(start as int);
            let end = find_char(&v, start, v.len(), '\n');
            proof {
                assert(v@.subrange(start as int, v@.len() as int) =~= rest);
                lemma_ini_lines_step(rest);
                assert(rest.take(end - start) =~= v@.subrange(start as int, end as int));
            }
            match line_entry_range(&v, start, end) {
                Some((ka, kb, va, vb)) => {
                    config.apply_setting_range(&v, ka, kb, va, vb);
                },
                None => {},
            }
            proof {
                let line = v@.subrange(start as int, end as int);
                assert(done.push(line).drop_last() =~= done);
                done = done.push(line);
            }
            if end == v.len() {
                proof {
                    assert(ini_lines(content@) =~= done);
                }
                return config;
            }
            proof {
                assert(rest.skip(end - start + 1) =~= v@.skip(end + 1));
                assert(ini_lines(content@) =~= done + ini_lines(v@.skip(end + 1)));
            }
            start = end + 1;
        }
    }
}

} // verus!
