//! State of the overlay: monitors and their geometry, the globals that the
//! compositor advertises, key bindings, and the decisions of the hint mode
//! between two keyboard events.
use vstd::prelude::*;
use vstd::string::StrSliceExecFns;
use crate::hint::{
    cell_hint, cell_hints, div_trunc, in_i32, unique_hint_chars, Hint, HintGrid, HintGridView, HintView,
    hint_views,
};
use crate::agent::{screen_hints, AgentMode};
use crate::pointer::{MouseButton, ScrollDirection};
use crate::text::{
    chars_of, find_char, first_index_of, is_prefix_of, push_char, str_starts_with,
    string_of_range, trim, trim_range,
};

verus! {

#[derive(Debug, Clone, Copy, PartialEq, Eq, Structural)]
pub enum InteractionMode {
    Hint,
    Normal,
}

#[derive(Debug, Clone)]
pub struct NormalKeyBindings {
    pub left: Vec<u32>,
    pub right: Vec<u32>,
    pub up: Vec<u32>,
    pub down: Vec<u32>,
    pub shift: Vec<u32>,
    pub ctrl: Vec<u32>,
    pub click_left: Vec<u32>,
    pub click_right: Vec<u32>,
    pub click_middle: Vec<u32>,
    pub scroll_up: Vec<u32>,
    pub scroll_down: Vec<u32>,
    pub exit: Vec<u32>,
}

#[derive(Clone, Debug)]
pub struct OutputInfo {
    pub name: String,
    pub x: i32,
    pub y: i32,
    pub width: i32,
    pub height: i32,
    pub scale: i32,
}

/// The mathematical content of an [`OutputInfo`].
pub struct OutputInfoView {
    pub name: Seq<char>,
    pub x: i32,
    pub y: i32,
    pub width: i32,
    pub height: i32,
    pub scale: i32,
}

impl View for OutputInfo {
    type V = OutputInfoView;

    open spec fn view(&self) -> OutputInfoView {
        OutputInfoView {
            name: self.name@,
            x: self.x,
            y: self.y,
            width: self.width,
            height: self.height,
            scale: self.scale,
        }
    }
}

pub open spec fn output_views(outputs: Seq<OutputInfo>) -> Seq<OutputInfoView> {
    outputs.map_values(|o: OutputInfo| o@)
}

/// The monitor assumed when the compositor reports none with a size: named
/// `default`, at the origin, 1920 × 1080, scale 1.
pub open spec fn fallback_output() -> OutputInfoView {
    OutputInfoView { name: "default"@, x: 0, y: 0, width: 1920, height: 1080, scale: 1 }
}

/// The monitor with index `screen`, or the fallback monitor.
pub open spec fn screen_info(outputs: Seq<OutputInfoView>, screen: u32) -> OutputInfoView {
    if (screen as int) < outputs.len() {
        outputs[screen as int]
    } else {
        fallback_output()
    }
}

impl OutputInfo {
    /// A copy of this description.
    pub fn duplicate(&self) -> (o: OutputInfo)
        ensures
            o@ == self@,
    {
        OutputInfo {
            name: self.name.clone(),
            x: self.x,
            y: self.y,
            width: self.width,
            height: self.height,
            scale: self.scale,
        }
    }

    /// The fallback monitor.
    pub fn fallback() -> (o: OutputInfo)
        ensures
            o@ == fallback_output(),
    {
        OutputInfo { name: "default".to_owned(), x: 0, y: 0, width: 1920, height: 1080, scale: 1 }
    }

    /// The description of monitor `screen` among `outputs`, or the fallback.
    pub fn for_screen(outputs: &Vec<OutputInfo>, screen: u32) -> (o: OutputInfo)
        ensures
            o@ == screen_info(output_views(outputs@), screen),
    {
        if (screen as usize) < outputs.len() {
            outputs[screen as usize].duplicate()
        } else {
            OutputInfo::fallback()
        }
    }

    /// Records one event of a `wl_output`.  Geometry and mode events create
    /// the description when it is missing (unnamed, scale 1, the other
    /// fields 0); scale and name events only update an existing one.
    pub fn apply_event(info: &mut Option<OutputInfo>, event: OutputEvent)
        ensures
            output_event_result(opt_output_view(*old(info)), event@) == opt_output_view(*final(info)),
            event matches OutputEvent::Mode { width, height } ==> *final(info) matches Some(i)
                && i.width == width && i.height == height,
            event matches OutputEvent::Geometry { x, y } ==> *final(info) matches Some(i) && i.x
                == x && i.y == y,
    {
        match event {
            OutputEvent::Geometry { x, y } => {
                match info {
                    Some(i) => {
                        i.x = x;
                        i.y = y;
                    },
                    None => {
                        *info = Some(
                            OutputInfo { name: String::new(), x, y, width: 0, height: 0, scale: 1 },
                        );
                    },
                }
            },
            OutputEvent::Mode { width, height } => {
                match info {
                    Some(i) => {
                        i.width = width;
                        i.height = height;
                    },
                    None => {
                        *info = Some(
                            OutputInfo { name: String::new(), x: 0, y: 0, width, height, scale: 1 },
                        );
                    },
                }
            },
            OutputEvent::Scale { factor } => {
                match info {
                    Some(i) => {
                        i.scale = factor;
                    },
                    None => {},
                }
            },
            OutputEvent::Name { name } => {
                match info {
                    Some(i) => {
                        i.name = name;
                    },
                    None => {},
                }
            },
            OutputEvent::Other => {},
        }
    }
}

pub open spec fn opt_output_view(o: Option<OutputInfo>) -> Option<OutputInfoView> {
    match o {
        Some(i) => Some(i@),
        None => None,
    }
}

/// The events of a `wl_output` that the overlay records.
pub enum OutputEvent {
    Geometry { x: i32, y: i32 },
    Mode { width: i32, height: i32 },
    Scale { factor: i32 },
    Name { name: String },
    Other,
}

pub enum OutputEventView {
    Geometry { x: i32, y: i32 },
    Mode { width: i32, height: i32 },
    Scale { factor: i32 },
    Name { name: Seq<char> },
    Other,
}

impl View for OutputEvent {
    type V = OutputEventView;

    open spec fn view(&self) -> OutputEventView {
        match self {
            OutputEvent::Geometry { x, y } => OutputEventView::Geometry { x: *x, y: *y },
            OutputEvent::Mode { width, height } => OutputEventView::Mode {
                width: *width,
                height: *height,
            },
            OutputEvent::Scale { factor } => OutputEventView::Scale { factor: *factor },
            OutputEvent::Name { name } => OutputEventView::Name { name: name@ },
            OutputEvent::Other => OutputEventView::Other,
        }
    }
}

pub open spec fn output_event_result(
    info: Option<OutputInfoView>,
    event: OutputEventView,
) -> Option<OutputInfoView> {
    match event {
        OutputEventView::Geometry { x, y } => match info {
            Some(i) => Some(OutputInfoView { x, y, ..i }),
            None => Some(OutputInfoView { name: Seq::empty(), x, y, width: 0, height: 0, scale: 1 }),
        },
        OutputEventView::Mode { width, height } => match info {
            Some(i) => Some(OutputInfoView { width, height, ..i }),
            None => Some(
                OutputInfoView { name: Seq::empty(), x: 0, y: 0, width, height, scale: 1 },
            ),
        },
        OutputEventView::Scale { factor } => match info {
            Some(i) => Some(OutputInfoView { scale: factor, ..i }),
            None => None,
        },
        OutputEventView::Name { name } => match info {
            Some(i) => Some(OutputInfoView { name, ..i }),
            None => None,
        },
        OutputEventView::Other => info,
    }
}

// ---------------------------------------------------------------------------
// Registry globals
// ---------------------------------------------------------------------------

/// The globals that the overlay binds.
#[derive(Debug, Clone, Copy, PartialEq, Eq, Structural)]
pub enum Global {
    Compositor,
    Shm,
    LayerShell,
    Output,
    Seat,
    VirtualPointerManager,
}

pub open spec fn global_spec(interface: Seq<char>) -> Option<(Global, u32)> {
    if interface == "wl_compositor"@ {
        Some((Global::Compositor, 4))
    } else if interface == "wl_shm"@ {
        Some((Global::Shm, 1))
    } else if interface == "zwlr_layer_shell_v1"@ {
        Some((Global::LayerShell, 1))
    } else if interface == "wl_output"@ {
        Some((Global::Output, 4))
    } else if interface == "wl_seat"@ {
        Some((Global::Seat, 4))
    } else if interface == "zwlr_virtual_pointer_manager_v1"@ {
        Some((Global::VirtualPointerManager, 2))
    } else {
        None
    }
}

impl Global {
    /// Which global an advertised interface is, with the version to bind;
    /// `None` for interfaces that the overlay ignores.
    pub fn for_interface(interface: &str) -> (r: Option<(Global, u32)>)
        ensures
            r == global_spec(interface@),
    {
        let v = chars_of(interface);
        let n = v.len();
        assert(v@.subrange(0, n as int) =~= v@);
        if crate::text::range_eq_str(&v, 0, n, "wl_compositor") {
            Some((Global::Compositor, 4))
        } else if crate::text::range_eq_str(&v, 0, n, "wl_shm") {
            Some((Global::Shm, 1))
        } else if crate::text::range_eq_str(&v, 0, n, "zwlr_layer_shell_v1") {
            Some((Global::LayerShell, 1))
        } else if crate::text::range_eq_str(&v, 0, n, "wl_output") {
            Some((Global::Output, 4))
        } else if crate::text::range_eq_str(&v, 0, n, "wl_seat") {
            Some((Global::Seat, 4))
        } else if crate::text::range_eq_str(&v, 0, n, "zwlr_virtual_pointer_manager_v1") {
            Some((Global::VirtualPointerManager, 2))
        } else {
            None
        }
    }
}

// ---------------------------------------------------------------------------
// Key bindings
// ---------------------------------------------------------------------------

/// The key names of a comma-separated list: each piece trimmed, empty
/// pieces dropped.
pub open spec fn key_names(s: Seq<char>) -> Seq<Seq<char>>
    decreases s.len(),
{
    let i = first_index_of(s, ',');
    let piece = trim(s.take(i as int));
    let rest = if i < s.len() {
        key_names(s.skip(i + 1int))
    } else {
        Seq::empty()
    };
    if piece.len() > 0 {
        seq![piece] + rest
    } else {
        rest
    }
}

pub open spec fn string_views(v: Seq<String>) -> Seq<Seq<char>> {
    v.map_values(|s: String| s@)
}

/// The key names of a binding such as `h,Left`.
pub fn keysym_names(comma_separated: &str) -> (names: Vec<String>)
    ensures
        string_views(names@) == key_names(comma_separated@),
{
    let v = chars_of(comma_separated);
    let mut names: Vec<String> = Vec::new();
    let ghost mut done: Seq<Seq<char>> = Seq::empty();
    let mut start: usize = 0;
    assert(v@.skip(0) =~= v@);
    loop
        invariant
            v@ == comma_separated@,
            start <= v@.len(),
            string_views(names@) == done,
            key_names(comma_separated@) == done + key_names(v@.skip(start as int)),
        decreases v@.len() - start,
    {
        let ghost rest = v@.skip(start as int);
        let end = find_char(&v, start, v.len(), ',');
        let (a, b) = trim_range(&v, start, end);
        proof {
            assert(v@.subrange(start as int, v@.len() as int) =~= rest);
            assert(rest.take(end - start) =~= v@.subrange(start as int, end as int));
            if end < v@.len() {
                assert(rest.skip(end - start + 1) =~= v@.skip(end + 1));
            }
        }
        if a < b {
            let name = string_of_range(&v, a, b);
            names.push(name);
            proof {
                let piece = v@.subrange(a as int, b as int);
                assert(string_views(names@) =~= done.push(piece));
                done = done.push(piece);
                if end < v@.len() {
                    assert(seq![piece] + key_names(v@.skip(end + 1)) =~= key_names(rest));
                    assert(key_names(comma_separated@) =~= done + key_names(v@.skip(end + 1)));
                } else {
                    assert(key_names(comma_separated@) =~= done);
                }
            }
        } else {
            proof {
                if end < v@.len() {
                    assert(key_names(rest) == key_names(v@.skip(end + 1)));
                } else {
                    assert(key_names(rest) =~= Seq::<Seq<char>>::empty());
                    assert(key_names(comma_separated@) =~= done);
                }
            }
        }
        if end == v.len() {
            return names;
        }
        start = end + 1;
    }
}

/// `k` is an answer that `lookup` may give for the name `name`.
pub open spec fn looked_up<F: Fn(&str) -> u32>(lookup: F, name: Seq<char>, k: u32) -> bool {
    exists|n: &str| n@ == name && #[trigger] lookup.ensures((n,), k)
}

/// `raw` holds an answer of `lookup` for each of `names`, in order, and
/// `keys` the answers other than 0.
pub open spec fn resolved_by<F: Fn(&str) -> u32>(
    lookup: F,
    names: Seq<Seq<char>>,
    raw: Seq<u32>,
    keys: Seq<u32>,
) -> bool {
    &&& raw.len() == names.len()
    &&& forall|i: int| 0 <= i < raw.len() ==> looked_up(lookup, names[i], #[trigger] raw[i])
    &&& keys == raw.filter(|k: u32| k != 0)
}

/// The key symbols of a comma-separated binding such as `h,Left`: each
/// listed name (as [`keysym_names`] splits them) is handed to `lookup`, in
/// order, and the answers other than 0 (no such key) are kept in order.
pub fn resolve_keysyms_with<F: Fn(&str) -> u32>(comma_separated: &str, lookup: F) -> (keys: Vec<u32>)
    requires
        forall|n: &str| #[trigger] lookup.requires((n,)),
    ensures
        exists|raw: Seq<u32>| #[trigger] resolved_by(lookup, key_names(comma_separated@), raw, keys@),
{
    let names = keysym_names(comma_separated);
    let mut raw: Vec<u32> = Vec::new();
    let mut i: usize = 0;
    while i < names.len()
        invariant
            i <= names@.len(),
            raw@.len() == i,
            string_views(names@) == key_names(comma_separated@),
            forall|n: &str| #[trigger] lookup.requires((n,)),
            forall|j: int|
                0 <= j < i ==> looked_up(lookup, key_names(comma_separated@)[j], #[trigger] raw@[j]),
        decreases names@.len() - i,
    {
        let name = names[i].as_str();
        let k = lookup(name);
        assert(string_views(names@)[i as int] == names@[i as int]@);
        raw.push(k);
        assert(raw@[i as int] == k);
        assert forall|j: int|
            0 <= j < i + 1 implies looked_up(lookup, key_names(comma_separated@)[j], #[trigger] raw@[j]) by {
            if j == i {
                assert(name@ == key_names(comma_separated@)[j] && lookup.ensures((name,), raw@[j]));
            }
        }
        i = i + 1;
    }
    let keys = known_keysyms(&raw);
    assert(resolved_by(lookup, key_names(comma_separated@), raw@, keys@));
    keys
}

/// The resolved key symbols, without the ones that named no key (0).
pub fn known_keysyms(raw: &Vec<u32>) -> (keys: Vec<u32>)
    ensures
        keys@ == raw@.filter(|k: u32| k != 0),
{
    let mut keys: Vec<u32> = Vec::new();
    let mut i: usize = 0;
    while i < raw.len()
        invariant
            i <= raw@.len(),
            keys@ == raw@.take(i as int).filter(|k: u32| k != 0),
        decreases raw@.len() - i,
    {
        proof {
            reveal_with_fuel(Seq::<u32>::filter, 1);
            assert(raw@.take(i + 1).drop_last() =~= raw@.take(i as int));
            assert(raw@.take(i + 1).last() == raw@[i as int]);
        }
        if raw[i] != 0 {
            keys.push(raw[i]);
        }
        i = i + 1;
    }
    assert(raw@.take(raw@.len() as int) =~= raw@);
    keys
}

// ---------------------------------------------------------------------------
// Keyboard input
// ---------------------------------------------------------------------------

/// The normal mode between two ticks: the keys held down, the one-shot
/// actions that the next tick performs, and whether the user asked to leave.
#[derive(Debug, Clone, Copy)]
pub struct NormalKeyState {
    pub left: bool,
    pub right: bool,
    pub up: bool,
    pub down: bool,
    pub shift: bool,
    pub ctrl: bool,
    pub click: Option<MouseButton>,
    pub scroll: Option<ScrollDirection>,
    pub canceled: bool,
}

/// What a key event does to the normal mode.  The bindings are tried in
/// this order: the six held keys (pressed or released), then, on a press
/// only, the three clicks, the two scrolls and the exit key.  A key that
/// no binding lists changes nothing.
pub open spec fn normal_key_result(
    b: NormalKeyBindings,
    st: NormalKeyState,
    sym: u32,
    pressed: bool,
) -> NormalKeyState {
    if b.left@.contains(sym) {
        NormalKeyState { left: pressed, ..st }
    } else if b.right@.contains(sym) {
        NormalKeyState { right: pressed, ..st }
    } else if b.up@.contains(sym) {
        NormalKeyState { up: pressed, ..st }
    } else if b.down@.contains(sym) {
        NormalKeyState { down: pressed, ..st }
    } else if b.shift@.contains(sym) {
        NormalKeyState { shift: pressed, ..st }
    } else if b.ctrl@.contains(sym) {
        NormalKeyState { ctrl: pressed, ..st }
    } else if pressed && b.click_left@.contains(sym) {
        NormalKeyState { click: Some(MouseButton::Left), ..st }
    } else if pressed && b.click_right@.contains(sym) {
        NormalKeyState { click: Some(MouseButton::Right), ..st }
    } else if pressed && b.click_middle@.contains(sym) {
        NormalKeyState { click: Some(MouseButton::Middle), ..st }
    } else if pressed && b.scroll_up@.contains(sym) {
        NormalKeyState { scroll: Some(ScrollDirection::Up), ..st }
    } else if pressed && b.scroll_down@.contains(sym) {
        NormalKeyState { scroll: Some(ScrollDirection::Down), ..st }
    } else if pressed && b.exit@.contains(sym) {
        NormalKeyState { canceled: true, ..st }
    } else {
        st
    }
}

/// Whether `keys` lists `sym`.
fn lists_key(keys: &Vec<u32>, sym: u32) -> (b: bool)
    ensures
        b == keys@.contains(sym),
{
    let mut i: usize = 0;
    while i < keys.len()
        invariant
            i <= keys@.len(),
            forall|j: int| 0 <= j < i ==> keys@[j] != sym,
        decreases keys@.len() - i,
    {
        if keys[i] == sym {
            assert(keys@[i as int] == sym);
            return true;
        }
        i = i + 1;
    }
    false
}

impl NormalKeyState {
    /// No key held, no action pending.
    pub fn new() -> (st: NormalKeyState)
        ensures
            !st.left && !st.right && !st.up && !st.down && !st.shift && !st.ctrl,
            st.click is None && st.scroll is None && !st.canceled,
    {
        NormalKeyState {
            left: false,
            right: false,
            up: false,
            down: false,
            shift: false,
            ctrl: false,
            click: None,
            scroll: None,
            canceled: false,
        }
    }
}

impl NormalKeyBindings {
    /// Records a key event of the normal mode.
    pub fn apply_key(&self, st: &mut NormalKeyState, sym: u32, pressed: bool)
        ensures
            *final(st) == normal_key_result(*self, *old(st), sym, pressed),
    {
        if lists_key(&self.left, sym) {
            st.left = pressed;
        } else if lists_key(&self.right, sym) {
            st.right = pressed;
        } else if lists_key(&self.up, sym) {
            st.up = pressed;
        } else if lists_key(&self.down, sym) {
            st.down = pressed;
        } else if lists_key(&self.shift, sym) {
            st.shift = pressed;
        } else if lists_key(&self.ctrl, sym) {
            st.ctrl = pressed;
        } else if pressed && lists_key(&self.click_left, sym) {
            st.click = Some(MouseButton::Left);
        } else if pressed && lists_key(&self.click_right, sym) {
            st.click = Some(MouseButton::Right);
        } else if pressed && lists_key(&self.click_middle, sym) {
            st.click = Some(MouseButton::Middle);
        } else if pressed && lists_key(&self.scroll_up, sym) {
            st.scroll = Some(ScrollDirection::Up);
        } else if pressed && lists_key(&self.scroll_down, sym) {
            st.scroll = Some(ScrollDirection::Down);
        } else if pressed && lists_key(&self.exit, sym) {
            st.canceled = true;
        }
    }
}

/// A key of the hint mode: Escape, Return, BackSpace, or any other key with
/// the text that it types.
pub enum HintKey {
    Escape,
    Return,
    BackSpace,
    Text(String),
}

pub enum HintKeyView {
    Escape,
    Return,
    BackSpace,
    Text(Seq<char>),
}

impl View for HintKey {
    type V = HintKeyView;

    open spec fn view(&self) -> HintKeyView {
        match self {
            HintKey::Escape => HintKeyView::Escape,
            HintKey::Return => HintKeyView::Return,
            HintKey::BackSpace => HintKeyView::BackSpace,
            HintKey::Text(t) => HintKeyView::Text(t@),
        }
    }
}

/// What the user typed in the hint mode: the prefix, a forced confirmation
/// and a cancellation.
pub struct HintInput {
    pub text: String,
    pub selection_made: bool,
    pub canceled: bool,
}

pub struct HintInputView {
    pub text: Seq<char>,
    pub selection_made: bool,
    pub canceled: bool,
}

impl View for HintInput {
    type V = HintInputView;

    open spec fn view(&self) -> HintInputView {
        HintInputView {
            text: self.text@,
            selection_made: self.selection_made,
            canceled: self.canceled,
        }
    }
}

/// What a key event does to the typed input: releases change nothing;
/// Escape cancels, Return confirms, BackSpace erases the last character
/// (if any) and any other key appends its text.
pub open spec fn hint_key_result(inp: HintInputView, key: HintKeyView, pressed: bool) -> HintInputView {
    if !pressed {
        inp
    } else {
        match key {
            HintKeyView::Escape => HintInputView { canceled: true, ..inp },
            HintKeyView::Return => HintInputView { selection_made: true, ..inp },
            HintKeyView::BackSpace => HintInputView {
                text: if inp.text.len() > 0 {
                    inp.text.drop_last()
                } else {
                    inp.text
                },
                ..inp
            },
            HintKeyView::Text(t) => HintInputView { text: inp.text + t, ..inp },
        }
    }
}

impl HintInput {
    /// Nothing typed yet.
    pub fn new() -> (inp: HintInput)
        ensures
            inp@ == (HintInputView { text: Seq::empty(), selection_made: false, canceled: false }),
    {
        HintInput { text: String::new(), selection_made: false, canceled: false }
    }

    /// Records a key event of the hint mode.
    pub fn apply_key(&mut self, key: HintKey, pressed: bool)
        ensures
            final(self)@ == hint_key_result(old(self)@, key@, pressed),
            key matches HintKey::Return ==> final(self).text@ == old(self).text@,
            key matches HintKey::Escape ==> final(self).text@ == old(self).text@,
    {
        if !pressed {
            return;
        }
        match key {
            HintKey::Escape => {
                self.canceled = true;
            },
            HintKey::Return => {
                self.selection_made = true;
            },
            HintKey::BackSpace => {
                let v = chars_of(self.text.as_str());
                let n = v.len();
                if n > 0 {
                    self.text = string_of_range(&v, 0, n - 1);
                    assert(v@.subrange(0, n - 1) =~= v@.drop_last());
                }
            },
            HintKey::Text(t) => {
                let tv = chars_of(t.as_str());
                let ghost start = self.text@;
                let mut i: usize = 0;
                while i < tv.len()
                    invariant
                        i <= tv@.len(),
                        tv@ == t@,
                        self.text@ == start + tv@.take(i as int),
                        self.selection_made == old(self).selection_made,
                        self.canceled == old(self).canceled,
                        start == old(self).text@,
                    decreases tv@.len() - i,
                {
                    push_char(&mut self.text, tv[i]);
                    assert(tv@.take(i + 1) =~= tv@.take(i as int).push(tv@[i as int]));
                    i = i + 1;
                }
                assert(tv@.take(tv@.len() as int) =~= tv@);
            },
        }
    }
}

/// Each normal-mode key acts on its own binding's flag or action and on
/// nothing else.  A key that the left, right, up, down, Shift or Control
/// binding lists (the first of them that does) sets exactly that held flag
/// to whether the key is down; a key listed by a click, scroll or exit
/// binding (and by no held binding) sets that action on a press and does
/// nothing on a release; a key that no binding lists changes nothing.
pub proof fn lemma_normal_keys_act_on_their_binding(
    b: NormalKeyBindings,
    st: NormalKeyState,
    sym: u32,
    pressed: bool,
)
    ensures
        ({
            let r = normal_key_result(b, st, sym, pressed);
            let held = b.left@.contains(sym) || b.right@.contains(sym) || b.up@.contains(sym)
                || b.down@.contains(sym) || b.shift@.contains(sym) || b.ctrl@.contains(sym);
            let action = b.click_left@.contains(sym) || b.click_right@.contains(sym)
                || b.click_middle@.contains(sym) || b.scroll_up@.contains(sym)
                || b.scroll_down@.contains(sym) || b.exit@.contains(sym);
            &&& b.left@.contains(sym) ==> r == NormalKeyState { left: pressed, ..st }
            &&& !b.left@.contains(sym) && b.right@.contains(sym) ==> r == NormalKeyState {
                right: pressed,
                ..st
            }
            &&& !b.left@.contains(sym) && !b.right@.contains(sym) && b.up@.contains(sym) ==> r
                == NormalKeyState { up: pressed, ..st }
            &&& !b.left@.contains(sym) && !b.right@.contains(sym) && !b.up@.contains(sym)
                && b.down@.contains(sym) ==> r == NormalKeyState { down: pressed, ..st }
            &&& !b.left@.contains(sym) && !b.right@.contains(sym) && !b.up@.contains(sym)
                && !b.down@.contains(sym) && b.shift@.contains(sym) ==> r == NormalKeyState {
                shift: pressed,
                ..st
            }
            &&& !b.left@.contains(sym) && !b.right@.contains(sym) && !b.up@.contains(sym)
                && !b.down@.contains(sym) && !b.shift@.contains(sym) && b.ctrl@.contains(sym) ==> r
                == NormalKeyState { ctrl: pressed, ..st }
            &&& !held && pressed && b.click_left@.contains(sym) ==> r == NormalKeyState {
                click: Some(MouseButton::Left),
                ..st
            }
            &&& !held && pressed && !b.click_left@.contains(sym) && b.click_right@.contains(sym)
                ==> r == NormalKeyState { click: Some(MouseButton::Right), ..st }
            &&& !held && pressed && !b.click_left@.contains(sym) && !b.click_right@.contains(sym)
                && b.click_middle@.contains(sym) ==> r == NormalKeyState {
                click: Some(MouseButton::Middle),
                ..st
            }
            &&& !held && pressed && !b.click_left@.contains(sym) && !b.click_right@.contains(sym)
                && !b.click_middle@.contains(sym) && b.scroll_up@.contains(sym) ==> r
                == NormalKeyState { scroll: Some(ScrollDirection::Up), ..st }
            &&& !held && pressed && !b.click_left@.contains(sym) && !b.click_right@.contains(sym)
                && !b.click_middle@.contains(sym) && !b.scroll_up@.contains(sym)
                && b.scroll_down@.contains(sym) ==> r == NormalKeyState {
                scroll: Some(ScrollDirection::Down),
                ..st
            }
            &&& !held && pressed && !b.click_left@.contains(sym) && !b.click_right@.contains(sym)
                && !b.click_middle@.contains(sym) && !b.scroll_up@.contains(sym)
                && !b.scroll_down@.contains(sym) && b.exit@.contains(sym) ==> r == NormalKeyState {
                canceled: true,
                ..st
            }
            &&& !held && !pressed ==> r == st
            &&& !held && !action ==> r == st
        }),
{
}

/// Each hint-mode key does its one thing: text keys append their text,
/// BackSpace removes the last character (if any), Return only asks for a
/// confirmation and Escape only cancels; both keep the typed text.  Key
/// releases change nothing.
pub proof fn lemma_hint_keys_edit_as_documented(inp: HintInputView, t: Seq<char>)
    ensures
        hint_key_result(inp, HintKeyView::Text(t), true) == (HintInputView {
            text: inp.text + t,
            ..inp
        }),
        hint_key_result(inp, HintKeyView::Return, true).text == inp.text,
        hint_key_result(inp, HintKeyView::Return, true).selection_made,
        hint_key_result(inp, HintKeyView::Return, true).canceled == inp.canceled,
        hint_key_result(inp, HintKeyView::Escape, true).text == inp.text,
        hint_key_result(inp, HintKeyView::Escape, true).canceled,
        hint_key_result(inp, HintKeyView::Escape, true).selection_made == inp.selection_made,
        inp.text.len() > 0 ==> hint_key_result(inp, HintKeyView::BackSpace, true).text.push(
            inp.text.last(),
        ) == inp.text,
        inp.text.len() == 0 ==> hint_key_result(inp, HintKeyView::BackSpace, true).text
            == inp.text,
        hint_key_result(inp, HintKeyView::BackSpace, true).selection_made == inp.selection_made,
        hint_key_result(inp, HintKeyView::BackSpace, true).canceled == inp.canceled,
        hint_key_result(inp, HintKeyView::Text(t), false) == inp,
        hint_key_result(inp, HintKeyView::Return, false) == inp,
        hint_key_result(inp, HintKeyView::Escape, false) == inp,
        hint_key_result(inp, HintKeyView::BackSpace, false) == inp,
{
    if inp.text.len() > 0 {
        assert(inp.text.drop_last().push(inp.text.last()) =~= inp.text);
    }
}

/// Each output event records what it carries, whatever came before: a
/// geometry event the position, a mode event the size (both creating the
/// description when it is missing), a scale or name event its value on an
/// existing description; no event touches the other fields.
pub proof fn lemma_output_events_record_their_values(
    info: Option<OutputInfoView>,
    x: i32,
    y: i32,
    width: i32,
    height: i32,
    factor: i32,
    name: Seq<char>,
)
    ensures
        ({
            let g = output_event_result(info, OutputEventView::Geometry { x, y });
            &&& g is Some && g.unwrap().x == x && g.unwrap().y == y
            &&& info matches Some(i) ==> g.unwrap().width == i.width && g.unwrap().height
                == i.height && g.unwrap().scale == i.scale && g.unwrap().name == i.name
        }),
        ({
            let m = output_event_result(info, OutputEventView::Mode { width, height });
            &&& m is Some && m.unwrap().width == width && m.unwrap().height == height
            &&& info matches Some(i) ==> m.unwrap().x == i.x && m.unwrap().y == i.y
                && m.unwrap().scale == i.scale && m.unwrap().name == i.name
        }),
        ({
            let sc = output_event_result(info, OutputEventView::Scale { factor });
            &&& info is None ==> sc is None
            &&& info matches Some(i) ==> sc is Some && sc.unwrap().scale == factor
                && sc.unwrap().x == i.x && sc.unwrap().y == i.y && sc.unwrap().width == i.width
                && sc.unwrap().height == i.height && sc.unwrap().name == i.name
        }),
        ({
            let n = output_event_result(info, OutputEventView::Name { name });
            &&& info is None ==> n is None
            &&& info matches Some(i) ==> n is Some && n.unwrap().name == name && n.unwrap().x
                == i.x && n.unwrap().y == i.y && n.unwrap().width == i.width && n.unwrap().height
                == i.height && n.unwrap().scale == i.scale
        }),
        output_event_result(info, OutputEventView::Other) == info,
{
}

// ---------------------------------------------------------------------------
// Hint mode
// ---------------------------------------------------------------------------

/// The hints whose label starts with `prefix`, in grid order.
pub open spec fn matching(hints: Seq<HintView>, prefix: Seq<char>) -> Seq<HintView> {
    hints.filter(|h: HintView| is_prefix_of(prefix, h.label))
}

/// The hints of monitor `screen` whose label starts with `prefix`.
pub open spec fn screen_matches(hints: Seq<HintView>, screen: u32, prefix: Seq<char>) -> Seq<
    HintView,
> {
    hints.filter(|h: HintView| h.screen == screen && is_prefix_of(prefix, h.label))
}

/// What the overlay of monitor `screen` shows: `None` for a fully
/// transparent overlay (normal mode, or a non-empty prefix that no hint of
/// this monitor matches), otherwise the hints to draw over a dimmed screen.
pub open spec fn overlay_spec(
    mode: InteractionMode,
    hints: Seq<HintView>,
    screen: u32,
    prefix: Seq<char>,
) -> Option<Seq<HintView>> {
    if mode == InteractionMode::Normal {
        None
    } else {
        let ms = screen_matches(hints, screen, prefix);
        if prefix.len() > 0 && ms.len() == 0 {
            None
        } else {
            Some(ms)
        }
    }
}

/// The hint grid at the start of the hint mode: a given element-based grid
/// as it is, else the hints of all monitors (a grid of no size on several
/// monitors, the first monitor's size on one).
pub open spec fn initial_grid_spec(
    given: HintGridView,
    outputs: Seq<OutputInfoView>,
    hint_chars: Seq<char>,
) -> HintGridView {
    if given.is_element_based {
        given
    } else if outputs.len() > 1 {
        HintGridView {
            hints: screen_hints(outputs, hint_chars),
            width: 0,
            height: 0,
            screen: 0,
            is_element_based: false,
        }
    } else {
        HintGridView {
            hints: screen_hints(outputs, hint_chars),
            width: outputs[0].width as int,
            height: outputs[0].height as int,
            screen: 0,
            is_element_based: false,
        }
    }
}

impl HintGrid {
    /// A copy of this grid.
    pub fn duplicate(&self) -> (g: HintGrid)
        ensures
            g@ == self@,
    {
        let mut hints: Vec<Hint> = Vec::new();
        let mut i: usize = 0;
        while i < self.hints.len()
            invariant
                i <= self.hints@.len(),
                hints@.len() == i,
                hint_views(hints@) == hint_views(self.hints@).take(i as int),
            decreases self.hints@.len() - i,
        {
            let h = self.hints[i].duplicate();
            assert(h@ == hint_views(self.hints@)[i as int]);
            hints.push(h);
            assert(hint_views(hints@) =~= hint_views(self.hints@).take(i + 1));
            i = i + 1;
        }
        assert(hint_views(self.hints@).take(self.hints@.len() as int) =~= hint_views(
            self.hints@,
        ));
        HintGrid {
            hints,
            width: self.width,
            height: self.height,
            screen: self.screen,
            is_element_based: self.is_element_based,
        }
    }

    /// The grid that the hint mode starts from.
    pub fn initial_grid(given: &HintGrid, outputs: &Vec<OutputInfo>, hint_chars: &str) -> (g:
        HintGrid)
        requires
            outputs@.len() >= 1,
        ensures
            g@ == initial_grid_spec(given@, output_views(outputs@), hint_chars@),
    {
        if given.is_element_based {
            given.duplicate()
        } else if outputs.len() > 1 {
            let mut g = HintGrid::new(0, 0, 0);
            g.hints = AgentMode::hints_for_outputs(outputs, hint_chars);
            g
        } else {
            let hints = AgentMode::hints_for_outputs(outputs, hint_chars);
            HintGrid {
                hints,
                width: outputs[0].width,
                height: outputs[0].height,
                screen: 0,
                is_element_based: false,
            }
        }
    }

    /// What the overlay of monitor `screen` shows for the typed `prefix`.
    pub fn overlay_hints(&self, mode: InteractionMode, screen: u32, prefix: &str) -> (r: Option<
        Vec<Hint>,
    >)
        ensures
            match (r, overlay_spec(mode, self@.hints, screen, prefix@)) {
                (Some(v), Some(s)) => hint_views(v@) == s,
                (None, None) => true,
                _ => false,
            },
    {
        if mode == InteractionMode::Normal {
            return None;
        }
        let ghost hs = self@.hints;
        let mut shown: Vec<Hint> = Vec::new();
        let mut i: usize = 0;
        while i < self.hints.len()
            invariant
                i <= self.hints@.len(),
                hs == hint_views(self.hints@),
                hint_views(shown@) == screen_matches(hs.take(i as int), screen, prefix@),
            decreases self.hints@.len() - i,
        {
            proof {
                reveal_with_fuel(Seq::<HintView>::filter, 1);
                assert(hs.take(i + 1).drop_last() =~= hs.take(i as int));
                assert(hs.take(i + 1).last() == self.hints@[i as int]@);
            }
            let h = &self.hints[i];
            if h.screen == screen && str_starts_with(h.label.as_str(), prefix) {
                shown.push(h.duplicate());
                assert(hint_views(shown@) =~= screen_matches(hs.take(i + 1), screen, prefix@));
            }
            i = i + 1;
        }
        assert(hs.take(self.hints@.len() as int) =~= hs);
        if prefix.unicode_len() > 0 && shown.len() == 0 {
            None
        } else {
            Some(shown)
        }
    }
}

/// The hint mode between two keyboard events: the current grid, the prefix
/// that the grid was last drawn for, the refinement pass (from 1), and
/// whether the pointer was warped to a hint.
pub struct HintSession {
    pub grid: HintGrid,
    pub current_prefix: String,
    pub refinement_level: u32,
    pub warped: bool,
}

pub struct HintSessionView {
    pub grid: HintGridView,
    pub current_prefix: Seq<char>,
    pub refinement_level: u32,
    pub warped: bool,
}

impl View for HintSession {
    type V = HintSessionView;

    open spec fn view(&self) -> HintSessionView {
        HintSessionView {
            grid: self.grid@,
            current_prefix: self.current_prefix@,
            refinement_level: self.refinement_level,
            warped: self.warped,
        }
    }
}

/// What the overlay does after a keyboard event.
pub enum HintStep {
    /// The user cancelled: leave the loop.
    Cancel,
    /// The user forced a confirmation: warp to this hint (if one matches
    /// the typed prefix) and leave the loop.
    Confirm(Option<Hint>),
    /// The typed prefix did not change.
    Idle,
    /// No hint matches: clear the typed input and redraw every hint.
    Reset,
    /// One hint matches and a refinement pass follows: clear the typed
    /// input and draw the session's new grid.
    Refine,
    /// One hint matches and it is final: warp there, click, run the
    /// selection callback, and stop when `stop` (the `exit_on_select`
    /// setting) says so; otherwise clear the typed input and redraw.
    Warp { hint: Hint, stop: bool },
    /// Several hints match: draw the ones that start with the prefix.
    Narrow,
}

pub enum HintStepView {
    Cancel,
    Confirm(Option<HintView>),
    Idle,
    Reset,
    Refine,
    Warp(HintView, bool),
    Narrow,
}

impl View for HintStep {
    type V = HintStepView;

    open spec fn view(&self) -> HintStepView {
        match self {
            HintStep::Cancel => HintStepView::Cancel,
            HintStep::Confirm(h) => HintStepView::Confirm(
                match h {
                    Some(x) => Some(x@),
                    None => None,
                },
            ),
            HintStep::Idle => HintStepView::Idle,
            HintStep::Reset => HintStepView::Reset,
            HintStep::Refine => HintStepView::Refine,
            HintStep::Warp { hint, stop } => HintStepView::Warp(hint@, *stop),
            HintStep::Narrow => HintStepView::Narrow,
        }
    }
}

/// The region refined around hint `m` when the grid being refined is
/// `w` × `h`: one cell of that grid (its size divided by the number of key
/// characters `u`), centred on the hint.
pub open spec fn refine_around(m: HintView, w: int, h: int, u: int) -> (int, int, int, int) {
    let hw = div_trunc(div_trunc(w, u), 2);
    let hh = div_trunc(div_trunc(h, u), 2);
    (m.x - hw, m.y - hh, m.x + hw, m.y + hh)
}

/// The size of the grid whose cell the next pass covers: on the first
/// refinement the monitor of the hint (the overview may span several
/// monitors), afterwards the current refined grid.
pub open spec fn refine_source(
    s: HintSessionView,
    m: HintView,
    outputs: Seq<OutputInfoView>,
) -> (int, int) {
    if s.refinement_level >= 2 {
        (s.grid.width, s.grid.height)
    } else {
        let info = screen_info(outputs, m.screen);
        (info.width as int, info.height as int)
    }
}

/// The region that the next pass covers around the matched hint `m`.
pub open spec fn refine_region(
    s: HintSessionView,
    m: HintView,
    outputs: Seq<OutputInfoView>,
    u: int,
) -> (int, int, int, int) {
    let (w, h) = refine_source(s, m, outputs);
    refine_around(m, w, h, u)
}

pub open spec fn can_refine(s: HintSessionView, passes: u32) -> bool {
    !s.grid.is_element_based && s.refinement_level < passes
}

/// Whether the corners of the region refined around `m` leave `i32`.
pub open spec fn refine_overflows(
    s: HintSessionView,
    m: HintView,
    outputs: Seq<OutputInfoView>,
    hint_chars: Seq<char>,
) -> bool {
    let r = refine_region(s, m, outputs, unique_hint_chars(hint_chars).len() as int);
    !(in_i32(r.0) && in_i32(r.1) && in_i32(r.2) && in_i32(r.3))
}

/// The step that a keyboard event makes: the action and the next session.
/// The checks come in this order: cancellation, forced confirmation, an
/// unchanged prefix, then the number of hints that the prefix matches.  A
/// confirmation that matches a hint, and a final single match, warp.
pub open spec fn step_spec(
    s: HintSessionView,
    input: Seq<char>,
    selection_made: bool,
    canceled: bool,
    passes: u32,
    exit_on_select: bool,
    hint_chars: Seq<char>,
    outputs: Seq<OutputInfoView>,
) -> (HintStepView, HintSessionView) {
    let ms = matching(s.grid.hints, input);
    if canceled {
        (HintStepView::Cancel, s)
    } else if selection_made {
        if ms.len() > 0 {
            (HintStepView::Confirm(Some(ms[0])), HintSessionView { warped: true, ..s })
        } else {
            (HintStepView::Confirm(None), s)
        }
    } else if input == s.current_prefix {
        (HintStepView::Idle, s)
    } else if ms.len() == 0 {
        (HintStepView::Reset, HintSessionView { current_prefix: Seq::empty(), ..s })
    } else if ms.len() == 1 {
        if can_refine(s, passes) {
            let m = ms[0];
            let chars = unique_hint_chars(hint_chars);
            let r = refine_region(s, m, outputs, chars.len() as int);
            (
                HintStepView::Refine,
                HintSessionView {
                    grid: HintGridView {
                        hints: cell_hints(r.0, r.1, r.2 - r.0, r.3 - r.1, chars, m.screen, None),
                        width: r.2 - r.0,
                        height: r.3 - r.1,
                        screen: m.screen,
                        is_element_based: false,
                    },
                    current_prefix: Seq::empty(),
                    refinement_level: (s.refinement_level + 1) as u32,
                    warped: s.warped,
                },
            )
        } else {
            (
                HintStepView::Warp(ms[0], exit_on_select),
                HintSessionView {
                    current_prefix: if exit_on_select {
                        input
                    } else {
                        Seq::empty()
                    },
                    warped: true,
                    ..s
                },
            )
        }
    } else {
        (HintStepView::Narrow, HintSessionView { current_prefix: input, ..s })
    }
}

/// Whether the step would compute a refinement region outside `i32`.
pub open spec fn step_overflows(
    s: HintSessionView,
    input: Seq<char>,
    selection_made: bool,
    canceled: bool,
    passes: u32,
    hint_chars: Seq<char>,
    outputs: Seq<OutputInfoView>,
) -> bool {
    let ms = matching(s.grid.hints, input);
    &&& !canceled
    &&& !selection_made
    &&& input != s.current_prefix
    &&& ms.len() == 1
    &&& can_refine(s, passes)
    &&& refine_overflows(s, ms[0], outputs, hint_chars)
}

/// The region refined around a hint of a grid over `w` × `h` at (`ox`, `oy`)
/// (non-negative sides) lies inside the hint's own cell, column `i` and row
/// `j`, and is at most one cell wide and high.
pub proof fn lemma_refinement_inside_cell(
    ox: int,
    oy: int,
    w: int,
    h: int,
    chars: Seq<char>,
    screen: u32,
    prefix: Option<char>,
    i: int,
    j: int,
)
    requires
        w >= 0,
        h >= 0,
        chars.len() >= 1,
        0 <= i < chars.len(),
        0 <= j < chars.len(),
    ensures
        ({
            let u = chars.len() as int;
            let cw = div_trunc(w, u);
            let ch = div_trunc(h, u);
            let r = refine_around(cell_hint(ox, oy, w, h, chars, screen, prefix, i, j), w, h, u);
            &&& ox + i * cw <= r.0 && r.2 <= ox + (i + 1) * cw
            &&& oy + j * ch <= r.1 && r.3 <= oy + (j + 1) * ch
            &&& 0 <= r.2 - r.0 <= cw
            &&& 0 <= r.3 - r.1 <= ch
        }),
{
    let u = chars.len() as int;
    let cw = div_trunc(w, u);
    let ch = div_trunc(h, u);
    assert(cw >= 0 && ch >= 0) by (nonlinear_arith)
        requires
            cw == w / u,
            ch == h / u,
            w >= 0,
            h >= 0,
            u >= 1,
    ;
    assert((i + 1) * cw == i * cw + cw) by (nonlinear_arith);
    assert((j + 1) * ch == j * ch + ch) by (nonlinear_arith);
}

proof fn lemma_filter_member(s: Seq<HintView>, p: spec_fn(HintView) -> bool, i: int)
    requires
        0 <= i < s.filter(p).len(),
    ensures
        exists|k: int| 0 <= k < s.len() && s[k] == s.filter(p)[i],
    decreases s.len(),
{
    reveal_with_fuel(Seq::<HintView>::filter, 1);
    if s.len() > 0 {
        let d = s.drop_last();
        if i < d.filter(p).len() {
            lemma_filter_member(d, p, i);
            let k = choose|k: int| 0 <= k < d.len() && d[k] == d.filter(p)[i];
            assert(s[k] == s.filter(p)[i]);
        } else {
            assert(s[s.len() - 1] == s.filter(p)[i]);
        }
    }
}

/// Every refinement after the first narrows: when the current grid is the
/// key-character grid over its `width` × `height` region at (`ox`, `oy`),
/// the grid that a refining step draws lies inside the matched hint's cell
/// and is at most one cell of the current grid wide and high.
pub proof fn lemma_later_refinement_narrows(
    s: HintSessionView,
    input: Seq<char>,
    selection_made: bool,
    canceled: bool,
    passes: u32,
    exit_on_select: bool,
    hint_chars: Seq<char>,
    outputs: Seq<OutputInfoView>,
    ox: int,
    oy: int,
)
    requires
        s.refinement_level >= 2,
        s.grid.width >= 0,
        s.grid.height >= 0,
        s.grid.hints == cell_hints(
            ox,
            oy,
            s.grid.width,
            s.grid.height,
            unique_hint_chars(hint_chars),
            s.grid.screen,
            None,
        ),
        step_spec(s, input, selection_made, canceled, passes, exit_on_select, hint_chars, outputs).0
            is Refine,
    ensures
        ({
            let u = unique_hint_chars(hint_chars).len() as int;
            let next = step_spec(
                s,
                input,
                selection_made,
                canceled,
                passes,
                exit_on_select,
                hint_chars,
                outputs,
            ).1.grid;
            let m = matching(s.grid.hints, input)[0];
            &&& 0 <= next.width <= div_trunc(s.grid.width, u)
            &&& 0 <= next.height <= div_trunc(s.grid.height, u)
            &&& exists|i: int, j: int|
                0 <= i < u && 0 <= j < u && m == cell_hint(
                    ox,
                    oy,
                    s.grid.width,
                    s.grid.height,
                    unique_hint_chars(hint_chars),
                    s.grid.screen,
                    None,
                    i,
                    j,
                ) && ox + i * div_trunc(s.grid.width, u) <= m.x - div_trunc(
                    div_trunc(s.grid.width, u),
                    2,
                ) && m.x + div_trunc(div_trunc(s.grid.width, u), 2) <= ox + (i + 1) * div_trunc(
                    s.grid.width,
                    u,
                ) && oy + j * div_trunc(s.grid.height, u) <= m.y - div_trunc(
                    div_trunc(s.grid.height, u),
                    2,
                ) && m.y + div_trunc(div_trunc(s.grid.height, u), 2) <= oy + (j + 1) * div_trunc(
                    s.grid.height,
                    u,
                )
        }),
{
    let chars = unique_hint_chars(hint_chars);
    crate::hint::lemma_unique_hint_chars(hint_chars);
    let u = chars.len() as int;
    let hs = s.grid.hints;
    let ms = matching(hs, input);
    lemma_filter_member(hs, |h: HintView| is_prefix_of(input, h.label), 0);
    let k = choose|k: int| 0 <= k < hs.len() && hs[k] == ms[0];
    let i = k / u;
    let j = k % u;
    assert(0 <= i < u && 0 <= j < u) by (nonlinear_arith)
        requires
            0 <= k < u * u,
            u >= 1,
            i == k / u,
            j == k % u,
    ;
    assert(hs[k] == cell_hint(ox, oy, s.grid.width, s.grid.height, chars, s.grid.screen, None, i, j));
    lemma_refinement_inside_cell(ox, oy, s.grid.width, s.grid.height, chars, s.grid.screen, None, i, j);
}

/// The first refinement zooms into the matched hint's own monitor: the new
/// grid lies on that monitor's screen index and is at most one cell of
/// that monitor's key-character grid wide and high, and when the hint is a
/// cell hint of that monitor's grid, the region lies inside the hint's cell.
pub proof fn lemma_first_refinement_on_own_monitor(
    s: HintSessionView,
    input: Seq<char>,
    selection_made: bool,
    canceled: bool,
    passes: u32,
    exit_on_select: bool,
    hint_chars: Seq<char>,
    outputs: Seq<OutputInfoView>,
)
    requires
        s.refinement_level < 2,
        step_spec(s, input, selection_made, canceled, passes, exit_on_select, hint_chars, outputs).0
            is Refine,
        screen_info(outputs, matching(s.grid.hints, input)[0].screen).width >= 0,
        screen_info(outputs, matching(s.grid.hints, input)[0].screen).height >= 0,
    ensures
        ({
            let chars = unique_hint_chars(hint_chars);
            let u = chars.len() as int;
            let m = matching(s.grid.hints, input)[0];
            let info = screen_info(outputs, m.screen);
            let next = step_spec(
                s,
                input,
                selection_made,
                canceled,
                passes,
                exit_on_select,
                hint_chars,
                outputs,
            ).1.grid;
            let r = refine_region(s, m, outputs, u);
            &&& next.screen == m.screen
            &&& 0 <= next.width <= div_trunc(info.width as int, u)
            &&& 0 <= next.height <= div_trunc(info.height as int, u)
            &&& forall|prefix: Option<char>, i: int, j: int|
                0 <= i < u && 0 <= j < u && m == #[trigger] cell_hint(
                    0,
                    0,
                    info.width as int,
                    info.height as int,
                    chars,
                    m.screen,
                    prefix,
                    i,
                    j,
                ) ==> {
                    &&& i * div_trunc(info.width as int, u) <= r.0
                    &&& r.2 <= (i + 1) * div_trunc(info.width as int, u)
                    &&& j * div_trunc(info.height as int, u) <= r.1
                    &&& r.3 <= (j + 1) * div_trunc(info.height as int, u)
                }
        }),
{
    let chars = unique_hint_chars(hint_chars);
    crate::hint::lemma_unique_hint_chars(hint_chars);
    let u = chars.len() as int;
    let m = matching(s.grid.hints, input)[0];
    let info = screen_info(outputs, m.screen);
    let w = info.width as int;
    let h = info.height as int;
    let cw = div_trunc(w, u);
    let ch = div_trunc(h, u);
    assert(0 <= 2 * div_trunc(cw, 2) <= cw && 0 <= 2 * div_trunc(ch, 2) <= ch) by (nonlinear_arith)
        requires
            cw == w / u,
            ch == h / u,
            w >= 0,
            h >= 0,
            u >= 1,
            div_trunc(cw, 2) == cw / 2,
            div_trunc(ch, 2) == ch / 2,
    ;
    assert forall|prefix: Option<char>, i: int, j: int|
        0 <= i < u && 0 <= j < u && m == #[trigger] cell_hint(0, 0, w, h, chars, m.screen, prefix, i, j)
        implies {
            let r = refine_region(s, m, outputs, u);
            &&& i * cw <= r.0
            &&& r.2 <= (i + 1) * cw
            &&& j * ch <= r.1
            &&& r.3 <= (j + 1) * ch
        } by {
        lemma_refinement_inside_cell(0, 0, w, h, chars, m.screen, prefix, i, j);
    }
}

/// Half of a monitor dimension's cell, as `i32` arithmetic gives it.
proof fn lemma_half_cell(w: int, u: int)
    requires
        in_i32(w),
        1 <= u,
    ensures
        in_i32(div_trunc(w, u)),
        in_i32(div_trunc(div_trunc(w, u), 2)),
        in_i32(2 * div_trunc(div_trunc(w, u), 2)),
{
    if w >= 0 {
        assert(0 <= w / u <= w) by (nonlinear_arith)
            requires
                w >= 0,
                u >= 1,
        ;
    } else {
        assert(0 <= (-w) / u <= -w) by (nonlinear_arith)
            requires
                w < 0,
                u >= 1,
        ;
    }
}

impl HintSession {
    pub fn new(grid: HintGrid) -> (s: HintSession)
        ensures
            s@ == (HintSessionView {
                grid: grid@,
                current_prefix: Seq::empty(),
                refinement_level: 1,
                warped: false,
            }),
    {
        HintSession { grid, current_prefix: String::new(), refinement_level: 1, warped: false }
    }

    /// Whether the exit callback is due when the overlay closes: only when
    /// the pointer was never warped to a hint (the user cancelled or left).
    pub fn exit_callback_due(&self) -> (b: bool)
        ensures
            b == !self@.warped,
    {
        !self.warped
    }

    /// The first hint matching `prefix` (if any) and whether several match.
    fn match_summary(&self, prefix: &str) -> (r: (Option<usize>, bool))
        ensures
            ({
                let ms = matching(self@.grid.hints, prefix@);
                &&& (r.0 is None <==> ms.len() == 0)
                &&& (r.0 matches Some(k) ==> k < self.grid.hints@.len() && self.grid.hints@[k as int]@
                    == ms[0])
                &&& (r.1 <==> ms.len() >= 2)
            }),
    {
        let ghost hs = self@.grid.hints;
        let mut first: Option<usize> = None;
        let mut several = false;
        let mut i: usize = 0;
        while i < self.grid.hints.len()
            invariant
                i <= self.grid.hints@.len(),
                hs == hint_views(self.grid.hints@),
                ({
                    let ms = matching(hs.take(i as int), prefix@);
                    &&& (first is None <==> ms.len() == 0)
                    &&& (first matches Some(k) ==> k < i && hs[k as int] == ms[0])
                    &&& (several <==> ms.len() >= 2)
                }),
            decreases self.grid.hints@.len() - i,
        {
            proof {
                reveal_with_fuel(Seq::<HintView>::filter, 1);
                assert(hs.take(i + 1).drop_last() =~= hs.take(i as int));
                assert(hs.take(i + 1).last() == hs[i as int]);
            }
            if str_starts_with(self.grid.hints[i].label.as_str(), prefix) {
                match first {
                    Some(_) => {
                        several = true;
                    },
                    None => {
                        first = Some(i);
                    },
                }
            }
            i = i + 1;
        }
        assert(hs.take(self.grid.hints@.len() as int) =~= hs);
        (first, several)
    }

    /// The size of the grid whose cell a refinement around `m` covers.
    fn refine_source(&self, m: &Hint, outputs: &Vec<OutputInfo>) -> (r: (i32, i32))
        ensures
            (r.0 as int, r.1 as int) == refine_source(self@, m@, output_views(outputs@)),
    {
        if self.refinement_level >= 2 {
            (self.grid.width, self.grid.height)
        } else {
            let info = OutputInfo::for_screen(outputs, m.screen);
            (info.width, info.height)
        }
    }

    /// Whether [`HintSession::step`] would leave `i32` while computing a
    /// refinement region for these inputs.
    pub fn step_would_overflow(
        &self,
        input: &str,
        selection_made: bool,
        canceled: bool,
        refinement_passes: u32,
        hint_chars: &str,
        outputs: &Vec<OutputInfo>,
    ) -> (b: bool)
        ensures
            b == step_overflows(
                self@,
                input@,
                selection_made,
                canceled,
                refinement_passes,
                hint_chars@,
                output_views(outputs@),
            ),
    {
        if canceled || selection_made || crate::text::str_eq(input, self.current_prefix.as_str()) {
            return false;
        }
        let (first, several) = self.match_summary(input);
        let k = match first {
            Some(k) => k,
            None => {
                return false;
            },
        };
        if several || self.grid.is_element_based || self.refinement_level >= refinement_passes {
            return false;
        }
        let m = &self.grid.hints[k];
        let (w, h) = self.refine_source(m, outputs);
        let u = HintGrid::get_unique_chars(hint_chars).len();
        proof {
            crate::hint::lemma_unique_hint_chars(hint_chars@);
            lemma_half_cell(w as int, u as int);
            lemma_half_cell(h as int, u as int);
        }
        let ui = u as i32;
        let hw = (w / ui / 2) as i64;
        let hh = (h / ui / 2) as i64;
        let x = m.x as i64;
        let y = m.y as i64;
        let lo: i64 = -2147483648;
        let hi: i64 = 2147483647;
        !(lo <= x - hw && x - hw <= hi && lo <= y - hh && y - hh <= hi && lo <= x + hw && x + hw
            <= hi && lo <= y + hh && y + hh <= hi)
    }

    /// The step for one keyboard event: `input` is the typed prefix,
    /// `selection_made` a forced confirmation, `canceled` a cancellation.
    pub fn step(
        &mut self,
        input: &str,
        selection_made: bool,
        canceled: bool,
        refinement_passes: u32,
        exit_on_select: bool,
        hint_chars: &str,
        outputs: &Vec<OutputInfo>,
    ) -> (r: HintStep)
        requires
            !step_overflows(
                old(self)@,
                input@,
                selection_made,
                canceled,
                refinement_passes,
                hint_chars@,
                output_views(outputs@),
            ),
        ensures
            (r@, final(self)@) == step_spec(
                old(self)@,
                input@,
                selection_made,
                canceled,
                refinement_passes,
                exit_on_select,
                hint_chars@,
                output_views(outputs@),
            ),
    {
        if canceled {
            return HintStep::Cancel;
        }
        let (first, several) = self.match_summary(input);
        if selection_made {
            return match first {
                Some(k) => {
                    let h = self.grid.hints[k].duplicate();
                    self.warped = true;
                    HintStep::Confirm(Some(h))
                },
                None => HintStep::Confirm(None),
            };
        }
        if crate::text::str_eq(input, self.current_prefix.as_str()) {
            return HintStep::Idle;
        }
        let k = match first {
            Some(k) => k,
            None => {
                self.current_prefix = String::new();
                return HintStep::Reset;
            },
        };
        if several {
            self.current_prefix = input.to_owned();
            return HintStep::Narrow;
        }
        let m = self.grid.hints[k].duplicate();
        if !self.grid.is_element_based && self.refinement_level < refinement_passes {
            let (w, h) = self.refine_source(&m, outputs);
            let u = HintGrid::get_unique_chars(hint_chars).len();
            proof {
                crate::hint::lemma_unique_hint_chars(hint_chars@);
                lemma_half_cell(w as int, u as int);
                lemma_half_cell(h as int, u as int);
            }
            let unique_len = u as i32;
            let cell_w = w / unique_len;
            let cell_h = h / unique_len;
            let x_min = m.x - cell_w / 2;
            let y_min = m.y - cell_h / 2;
            let x_max = m.x + cell_w / 2;
            let y_max = m.y + cell_h / 2;
            self.refinement_level = self.refinement_level + 1;
            self.current_prefix = String::new();
            self.grid = HintGrid::generate_refinement(
                x_min,
                y_min,
                x_max,
                y_max,
                hint_chars,
                m.screen,
            );
            HintStep::Refine
        } else {
            self.current_prefix = if exit_on_select {
                input.to_owned()
            } else {
                String::new()
            };
            self.warped = true;
            HintStep::Warp { hint: m, stop: exit_on_select }
        }
    }
}

} // verus!
