//! Decisions of the headless agent commands: which monitors count, the hints
//! of all monitors, the hint that a label selects, where a move lands, and
//! where the cursor currently is.
use vstd::prelude::*;
use crate::json::{json_as_int, json_get, json_int, json_member, json_parse, parse_json, JsonValue};
use crate::hint::{cell_hints, in_i32, unique_hint_chars, Hint, HintGrid, HintView, hint_views};
use crate::render::{fallback_output, output_views, screen_info, OutputInfo, OutputInfoView};
use crate::text::{chars_of, find_char, first_index_of, parse_i32_range, parse_i32_spec, trim, trim_range};

verus! {

pub struct AgentMode;

/// Why an agent command cannot go on.
#[derive(Debug, Clone, Copy, PartialEq, Eq, Structural)]
pub enum AgentError {
    /// The compositor registered no output at all.
    NoOutputs,
    /// No hint carries the requested label.
    LabelMismatch,
}

pub open spec fn is_active(o: Option<OutputInfoView>) -> bool {
    o matches Some(i) && i.width > 0 && i.height > 0
}

/// The registered outputs that have a description with a positive size,
/// with their indices, in registration order.
pub open spec fn active_entries(infos: Seq<Option<OutputInfoView>>) -> Seq<(nat, OutputInfoView)>
    decreases infos.len(),
{
    if infos.len() == 0 {
        Seq::empty()
    } else {
        let prev = active_entries(infos.drop_last());
        let k = (infos.len() - 1) as nat;
        if is_active(infos.last()) {
            prev.push((k, infos.last().unwrap()))
        } else {
            prev
        }
    }
}

/// The monitors that the agent works with: the active ones; if there is
/// none, the first registered output described as the fallback monitor; if
/// no output is registered at all, an error.
pub open spec fn active_outputs_spec(infos: Seq<Option<OutputInfoView>>) -> Result<
    Seq<(nat, OutputInfoView)>,
    AgentError,
> {
    let a = active_entries(infos);
    if a.len() > 0 {
        Ok(a)
    } else if infos.len() > 0 {
        Ok(seq![(0nat, fallback_output())])
    } else {
        Err(AgentError::NoOutputs)
    }
}

pub open spec fn opt_views(infos: Seq<Option<OutputInfo>>) -> Seq<Option<OutputInfoView>> {
    infos.map_values(
        |o: Option<OutputInfo>|
            match o {
                Some(i) => Some(i@),
                None => None,
            },
    )
}

pub open spec fn entry_views(v: Seq<(usize, OutputInfo)>) -> Seq<(nat, OutputInfoView)> {
    v.map_values(|e: (usize, OutputInfo)| (e.0 as nat, e.1@))
}

/// Hints of every monitor: on a single monitor its first-pass grid, on
/// several monitors each one's grid labelled with its monitor character.
pub open spec fn monitor_hints(outputs: Seq<OutputInfoView>, chars: Seq<char>) -> Seq<HintView>
    decreases outputs.len(),
{
    if outputs.len() == 0 {
        Seq::empty()
    } else {
        let i = outputs.len() - 1;
        monitor_hints(outputs.drop_last(), chars) + cell_hints(
            0,
            0,
            outputs[i].width as int,
            outputs[i].height as int,
            chars,
            i as u32,
            Some(chars[i % (chars.len() as int)]),
        )
    }
}

pub open spec fn screen_hints(outputs: Seq<OutputInfoView>, hint_chars: Seq<char>) -> Seq<HintView> {
    let chars = unique_hint_chars(hint_chars);
    if outputs.len() > 1 {
        monitor_hints(outputs, chars)
    } else {
        cell_hints(0, 0, outputs[0].width as int, outputs[0].height as int, chars, 0, None)
    }
}

/// Index of the first hint labelled `label`, or `hints.len()`.
pub open spec fn first_labelled(hints: Seq<HintView>, label: Seq<char>) -> nat
    decreases hints.len(),
{
    if hints.len() == 0 {
        0
    } else if hints[0].label == label {
        0
    } else {
        1 + first_labelled(hints.drop_first(), label)
    }
}

proof fn lemma_first_labelled(hints: Seq<HintView>, label: Seq<char>)
    ensures
        first_labelled(hints, label) <= hints.len(),
        first_labelled(hints, label) < hints.len() ==> hints[first_labelled(hints, label) as int].label
            == label,
        forall|k: int| 0 <= k < first_labelled(hints, label) ==> (#[trigger] hints[k]).label != label,
    decreases hints.len(),
{
    if hints.len() > 0 && hints[0].label != label {
        lemma_first_labelled(hints.drop_first(), label);
        assert forall|k: int| 0 <= k < first_labelled(hints, label) implies (
        #[trigger] hints[k]).label != label by {
            if k > 0 {
                assert(hints[k] == hints.drop_first()[k - 1]);
            }
        }
    }
}

/// Where the pointer goes and which monitor is meant: the target position,
/// the index of the monitor when it exists, and that monitor's description
/// (the fallback monitor otherwise).
#[derive(Debug, Clone)]
pub struct Target {
    pub x: i32,
    pub y: i32,
    pub screen: u32,
    pub output: Option<usize>,
    pub info: OutputInfo,
}

pub open spec fn clamp_i32(v: int, lo: int, hi: int) -> int {
    if v < lo {
        lo
    } else if v > hi {
        hi
    } else {
        v
    }
}

/// The monitor that direct moves address: the first one, or the fallback.
pub open spec fn first_output(outputs: Seq<OutputInfoView>) -> OutputInfoView {
    if outputs.len() > 0 {
        outputs[0]
    } else {
        fallback_output()
    }
}

/// Direct and relative moves address the first registered monitor when
/// there is one (the fallback monitor otherwise), and clamping keeps a
/// coordinate inside `0..=size`, leaving one that is already inside as it is.
pub proof fn lemma_moves_target_the_first_monitor(
    outputs: Seq<OutputInfoView>,
    v: int,
    hi: int,
)
    requires
        hi >= 0,
    ensures
        outputs.len() > 0 ==> first_output(outputs) == outputs[0],
        outputs.len() == 0 ==> first_output(outputs) == fallback_output(),
        0 <= clamp_i32(v, 0, hi) <= hi,
        0 <= v <= hi ==> clamp_i32(v, 0, hi) == v,
        v < 0 ==> clamp_i32(v, 0, hi) == 0,
        v > hi ==> clamp_i32(v, 0, hi) == hi,
{
}

/// The cursor of one seat as the compositor reports it.
#[derive(Debug, Clone, Copy)]
pub struct SeatCursor {
    pub x: Option<i64>,
    pub y: Option<i64>,
}

/// The position in `hyprctl cursorpos` output: two comma-separated integers.
pub open spec fn hyprctl_cursor(s: Seq<char>) -> Option<(i32, i32)> {
    let t = trim(s);
    let c = first_index_of(t, ',');
    if c >= t.len() {
        None
    } else {
        let rest = t.skip(c + 1int);
        if first_index_of(rest, ',') < rest.len() {
            None
        } else {
            match (parse_i32_spec(trim(t.take(c as int))), parse_i32_spec(trim(rest))) {
                (Some(x), Some(y)) => Some((x, y)),
                _ => None,
            }
        }
    }
}

/// The cursor of the first seat that reports both coordinates, each
/// converted to `i32` by truncation as `as` does.
pub open spec fn seats_cursor(seats: Seq<SeatCursor>) -> Option<(i32, i32)>
    decreases seats.len(),
{
    if seats.len() == 0 {
        None
    } else {
        match (seats[0].x, seats[0].y) {
            (Some(x), Some(y)) => Some((x as i32, y as i32)),
            _ => seats_cursor(seats.drop_first()),
        }
    }
}

/// The cursor of one seat object that `swaymsg -t get_seats` lists: the
/// integer members `x` and `y` of its member `cursor` (none without one).
pub open spec fn seat_cursor_of(seat: JsonValue) -> SeatCursor {
    match json_member(seat, "cursor"@) {
        Some(c) => SeatCursor { x: json_int(json_member(c, "x"@)), y: json_int(json_member(c, "y"@)) },
        None => SeatCursor { x: None, y: None },
    }
}

/// The seat cursors of a `swaymsg -t get_seats` document: one per element
/// when it is an array, otherwise none at all.
pub open spec fn seat_cursors_spec(json: JsonValue) -> Option<Seq<SeatCursor>> {
    match json {
        JsonValue::Array(items) => Some(items@.map_values(|seat: JsonValue| seat_cursor_of(seat))),
        _ => None,
    }
}

/// The seat cursors that the text `swaymsg` printed describes, if any.
pub open spec fn sway_seats(text: Option<Seq<char>>) -> Option<Seq<SeatCursor>> {
    match text {
        Some(t) => match json_parse(t) {
            Some(j) => seat_cursors_spec(j),
            None => None,
        },
        None => None,
    }
}

/// The cursor position: from `hyprctl` when it answered with a position,
/// else from the seats that `swaymsg` reported, else the middle of a
/// 1920 × 1080 screen.
pub open spec fn cursor_position_spec(
    hyprctl: Option<Seq<char>>,
    seats: Option<Seq<SeatCursor>>,
) -> (i32, i32) {
    let from_hypr = match hyprctl {
        Some(s) => hyprctl_cursor(s),
        None => None,
    };
    let from_seats = match seats {
        Some(s) => seats_cursor(s),
        None => None,
    };
    match from_hypr {
        Some(p) => p,
        None => match from_seats {
            Some(p) => p,
            None => (960, 540),
        },
    }
}

/// The first character of every label in the hints of the first `n`
/// monitors is the monitor character of one of them, and all labels differ,
/// as long as there are no more monitors than key characters.
proof fn lemma_monitor_hints_distinct(outputs: Seq<OutputInfoView>, chars: Seq<char>)
    requires
        chars.len() >= 1,
        chars.no_duplicates(),
        outputs.len() <= chars.len(),
    ensures
        forall|k: int|
            0 <= k < monitor_hints(outputs, chars).len() ==> {
                let l = (#[trigger] monitor_hints(outputs, chars)[k]).label;
                &&& l.len() == 3
                &&& exists|j: int| 0 <= j < outputs.len() && l[0] == chars[j]
            },
        forall|k1: int, k2: int|
            0 <= k1 < monitor_hints(outputs, chars).len() && 0 <= k2 < monitor_hints(
                outputs,
                chars,
            ).len() && k1 != k2 ==> (#[trigger] monitor_hints(outputs, chars)[k1]).label != (
            #[trigger] monitor_hints(outputs, chars)[k2]).label,
    decreases outputs.len(),
{
    if outputs.len() > 0 {
        let n = outputs.len() - 1;
        let prev = outputs.drop_last();
        lemma_monitor_hints_distinct(prev, chars);
        let a = monitor_hints(prev, chars);
        let mc = chars[n % (chars.len() as int)];
        assert(n % (chars.len() as int) == n) by {
            vstd::arithmetic::div_mod::lemma_small_mod(n as nat, chars.len());
        }
        let b = cell_hints(
            0,
            0,
            outputs[n].width as int,
            outputs[n].height as int,
            chars,
            n as u32,
            Some(mc),
        );
        crate::hint::lemma_cell_labels_distinct(
            0,
            0,
            outputs[n].width as int,
            outputs[n].height as int,
            chars,
            n as u32,
            Some(mc),
        );
        let all = monitor_hints(outputs, chars);
        assert(all == a + b);
        assert forall|k: int| 0 <= k < all.len() implies {
            let l = (#[trigger] all[k]).label;
            &&& l.len() == 3
            &&& exists|j: int| 0 <= j < outputs.len() && l[0] == chars[j]
        } by {
            if k < a.len() {
                assert(all[k] == a[k]);
                let j = choose|j: int| 0 <= j < prev.len() && a[k].label[0] == chars[j];
                assert(0 <= j < outputs.len() && all[k].label[0] == chars[j]);
            } else {
                assert(all[k] == b[k - a.len()]);
                assert(all[k].label[0] == chars[n as int]);
            }
        }
        assert forall|k1: int, k2: int|
            0 <= k1 < all.len() && 0 <= k2 < all.len() && k1 != k2 implies (
            #[trigger] all[k1]).label != (#[trigger] all[k2]).label by {
            if k1 < a.len() && k2 < a.len() {
                assert(all[k1] == a[k1] && all[k2] == a[k2]);
            } else if k1 >= a.len() && k2 >= a.len() {
                assert(all[k1] == b[k1 - a.len()] && all[k2] == b[k2 - a.len()]);
                let l1 = b[k1 - a.len()].label;
                let l2 = b[k2 - a.len()].label;
                assert(l2.take(l1.len() as int) =~= l2);
            } else {
                let (ka, kb) = if k1 < a.len() {
                    (k1, k2)
                } else {
                    (k2, k1)
                };
                assert(all[ka] == a[ka]);
                assert(all[kb] == b[kb - a.len()]);
                let j = choose|j: int| 0 <= j < prev.len() && a[ka].label[0] == chars[j];
                assert(b[kb - a.len()].label[0] == chars[n as int]);
                assert(chars[j] != chars[n as int]);
            }
        }
    }
}

/// Every label that the agent lists selects the hint it was listed with:
/// its coordinates and monitor come back.  This holds on one monitor, and
/// on several as long as there are no more monitors than key characters
/// (beyond that, monitor characters repeat and labels of different monitors
/// coincide).
pub proof fn lemma_listed_label_selects_its_hint(
    outputs: Seq<OutputInfoView>,
    hint_chars: Seq<char>,
    k: int,
)
    requires
        outputs.len() >= 1,
        outputs.len() <= unique_hint_chars(hint_chars).len(),
        0 <= k < screen_hints(outputs, hint_chars).len(),
    ensures
        first_labelled(
            screen_hints(outputs, hint_chars),
            screen_hints(outputs, hint_chars)[k].label,
        ) == k,
{
    let hs = screen_hints(outputs, hint_chars);
    let chars = unique_hint_chars(hint_chars);
    crate::hint::lemma_unique_hint_chars(hint_chars);
    lemma_first_labelled(hs, hs[k].label);
    let f = first_labelled(hs, hs[k].label);
    if outputs.len() > 1 {
        lemma_monitor_hints_distinct(outputs, chars);
    } else {
        crate::hint::lemma_cell_labels_distinct(
            0,
            0,
            outputs[0].width as int,
            outputs[0].height as int,
            chars,
            0,
            None,
        );
        if f < k {
            let l1 = hs[f as int].label;
            let l2 = hs[k].label;
            assert(l2.take(l1.len() as int) =~= l2);
        }
    }
    if f < k {
        assert(hs[f as int].label == hs[k].label);
    }
}


impl AgentMode {
    /// The monitors to work with, each with its index among `outputs` (the
    /// outputs in registration order, with their description if one arrived).
    pub fn active_outputs(outputs: &Vec<Option<OutputInfo>>) -> (r: Result<
        Vec<(usize, OutputInfo)>,
        AgentError,
    >)
        ensures
            match (r, active_outputs_spec(opt_views(outputs@))) {
                (Ok(v), Ok(s)) => entry_views(v@) == s,
                (Err(e), Err(f)) => e == f,
                _ => false,
            },
    {
        let mut active: Vec<(usize, OutputInfo)> = Vec::new();
        let mut i: usize = 0;
        while i < outputs.len()
            invariant
                i <= outputs@.len(),
                entry_views(active@) == active_entries(opt_views(outputs@).take(i as int)),
            decreases outputs@.len() - i,
        {
            proof {
                assert(opt_views(outputs@).take(i + 1).drop_last() =~= opt_views(outputs@).take(
                    i as int,
                ));
                assert(opt_views(outputs@).take(i + 1).last() == opt_views(outputs@)[i as int]);
            }
            match &outputs[i] {
                Some(info) => {
                    if info.width > 0 && info.height > 0 {
                        let entry = (i, info.duplicate());
                        active.push(entry);
                        assert(entry_views(active@) =~= active_entries(
                            opt_views(outputs@).take(i + 1),
                        ));
                    }
                },
                None => {},
            }
            i = i + 1;
        }
        assert(opt_views(outputs@).take(outputs@.len() as int) =~= opt_views(outputs@));
        if active.len() > 0 {
            Ok(active)
        } else if outputs.len() > 0 {
            let mut v: Vec<(usize, OutputInfo)> = Vec::new();
            v.push((0, OutputInfo::fallback()));
            assert(entry_views(v@) =~= seq![(0nat, fallback_output())]);
            Ok(v)
        } else {
            Err(AgentError::NoOutputs)
        }
    }

    /// The hints of all monitors, as the agent commands and the overlay lay
    /// them out.
    pub fn hints_for_outputs(outputs: &Vec<OutputInfo>, hint_chars: &str) -> (hints: Vec<Hint>)
        requires
            outputs@.len() >= 1,
        ensures
            hint_views(hints@) == screen_hints(output_views(outputs@), hint_chars@),
    {
        let chars = HintGrid::get_unique_chars(hint_chars);
        proof {
            crate::hint::lemma_unique_hint_chars(hint_chars@);
        }
        let mut all_hints: Vec<Hint> = Vec::new();
        if outputs.len() > 1 {
            let mut i: usize = 0;
            while i < outputs.len()
                invariant
                    i <= outputs@.len(),
                    chars@ == unique_hint_chars(hint_chars@),
                    chars@.len() >= 1,
                    hint_views(all_hints@) == monitor_hints(
                        output_views(outputs@).take(i as int),
                        chars@,
                    ),
                decreases outputs@.len() - i,
            {
                let monitor_char = chars[i % chars.len()];
                let info = &outputs[i];
                let mut grid = HintGrid::generate_first_pass(
                    info.width,
                    info.height,
                    hint_chars,
                    i as u32,
                    true,
                    Some(monitor_char),
                );
                let ghost before = hint_views(all_hints@);
                let ghost added = hint_views(grid.hints@);
                all_hints.append(&mut grid.hints);
                proof {
                    let ov = output_views(outputs@);
                    assert(ov.take(i + 1).drop_last() =~= ov.take(i as int));
                    assert(ov.take(i + 1)[i as int] == ov[i as int]);
                    assert(hint_views(all_hints@) =~= before + added);
                }
                i = i + 1;
            }
            assert(output_views(outputs@).take(outputs@.len() as int) =~= output_views(outputs@));
        } else {
            let info = &outputs[0];
            let mut grid = HintGrid::generate_first_pass(
                info.width,
                info.height,
                hint_chars,
                0,
                false,
                None,
            );
            let ghost added = hint_views(grid.hints@);
            all_hints.append(&mut grid.hints);
            assert(hint_views(all_hints@) =~= added);
        }
        all_hints
    }

    /// The hint that `label` selects among the hints of `outputs`, with its
    /// monitor; `LabelMismatch` when no hint carries that label.
    pub fn resolve_selection(label: &str, outputs: &Vec<OutputInfo>, hint_chars: &str) -> (r: Result<
        Target,
        AgentError,
    >)
        requires
            outputs@.len() >= 1,
        ensures
            ({
                let hs = screen_hints(output_views(outputs@), hint_chars@);
                let k = first_labelled(hs, label@);
                match r {
                    Ok(t) => {
                        &&& k < hs.len()
                        &&& t.x as int == hs[k as int].x
                        &&& t.y as int == hs[k as int].y
                        &&& t.screen == hs[k as int].screen
                        &&& t.output == (if (t.screen as int) < outputs@.len() {
                            Some(t.screen as usize)
                        } else {
                            None
                        })
                        &&& t.info@ == screen_info(output_views(outputs@), t.screen)
                    },
                    Err(e) => k == hs.len() && e == AgentError::LabelMismatch,
                }
            }),
    {
        let hints = Self::hints_for_outputs(outputs, hint_chars);
        let ghost hs = hint_views(hints@);
        let mut i: usize = 0;
        while i < hints.len()
            invariant
                i <= hints@.len(),
                hs == hint_views(hints@),
                hs == screen_hints(output_views(outputs@), hint_chars@),
                forall|k: int| 0 <= k < i ==> (#[trigger] hs[k]).label != label@,
            decreases hints@.len() - i,
        {
            if crate::text::str_eq(hints[i].label.as_str(), label) {
                proof {
                    lemma_first_labelled(hs, label@);
                    let f = first_labelled(hs, label@);
                    if f < i {
                        assert(hs[f as int].label == label@);
                    }
                    assert(hs[i as int].label == label@);
                }
                let h = &hints[i];
                let output = if (h.screen as usize) < outputs.len() {
                    Some(h.screen as usize)
                } else {
                    None
                };
                let info = OutputInfo::for_screen(outputs, h.screen);
                return Ok(Target { x: h.x, y: h.y, screen: h.screen, output, info });
            }
            i = i + 1;
        }
        proof {
            lemma_first_labelled(hs, label@);
            let f = first_labelled(hs, label@);
            if f < hs.len() {
                assert(hs[f as int].label == label@);
            }
        }
        Err(AgentError::LabelMismatch)
    }

    /// Where a move to (`x`, `y`) lands: on the first monitor (or the
    /// fallback one), clamped into `0..=width` × `0..=height`.
    pub fn resolve_move_to(x: i32, y: i32, outputs: &Vec<OutputInfo>) -> (t: Target)
        requires
            first_output(output_views(outputs@)).width >= 0,
            first_output(output_views(outputs@)).height >= 0,
        ensures
            t.info@ == first_output(output_views(outputs@)),
            outputs@.len() > 0 ==> t.info@ == outputs@[0]@,
            outputs@.len() == 0 ==> t.info@ == fallback_output(),
            0 <= t.x <= t.info.width,
            0 <= t.y <= t.info.height,
            0 <= x <= t.info.width ==> t.x == x,
            0 <= y <= t.info.height ==> t.y == y,
            t.x as int == clamp_i32(x as int, 0, t.info.width as int),
            t.y as int == clamp_i32(y as int, 0, t.info.height as int),
            t.screen == 0,
            t.output == (if outputs@.len() > 0 {
                Some(0usize)
            } else {
                None
            }),
    {
        let (output, info) = if outputs.len() > 0 {
            (Some(0usize), outputs[0].duplicate())
        } else {
            (None, OutputInfo::fallback())
        };
        let cx = if x < 0 {
            0
        } else if x > info.width {
            info.width
        } else {
            x
        };
        let cy = if y < 0 {
            0
        } else if y > info.height {
            info.height
        } else {
            y
        };
        Target { x: cx, y: cy, screen: 0, output, info }
    }

    /// Where a move by (`dx`, `dy`) from the cursor at (`cur_x`, `cur_y`)
    /// lands: the sum, clamped as for a direct move.
    pub fn resolve_move_by(
        dx: i32,
        dy: i32,
        cur_x: i32,
        cur_y: i32,
        outputs: &Vec<OutputInfo>,
    ) -> (t: Target)
        requires
            in_i32(cur_x + dx),
            in_i32(cur_y + dy),
            first_output(output_views(outputs@)).width >= 0,
            first_output(output_views(outputs@)).height >= 0,
        ensures
            t.info@ == first_output(output_views(outputs@)),
            outputs@.len() > 0 ==> t.info@ == outputs@[0]@,
            outputs@.len() == 0 ==> t.info@ == fallback_output(),
            0 <= t.x <= t.info.width,
            0 <= t.y <= t.info.height,
            0 <= cur_x + dx <= t.info.width ==> t.x == cur_x + dx,
            0 <= cur_y + dy <= t.info.height ==> t.y == cur_y + dy,
            t.x as int == clamp_i32(cur_x + dx, 0, t.info.width as int),
            t.y as int == clamp_i32(cur_y + dy, 0, t.info.height as int),
            t.screen == 0,
            t.output == (if outputs@.len() > 0 {
                Some(0usize)
            } else {
                None
            }),
    {
        Self::resolve_move_to(cur_x + dx, cur_y + dy, outputs)
    }

    /// The position that `hyprctl cursorpos` printed, if it reads as one.
    pub fn cursor_from_hyprctl(output: &str) -> (r: Option<(i32, i32)>)
        ensures
            r == hyprctl_cursor(output@),
    {
        let v = chars_of(output);
        let (a, b) = trim_range(&v, 0, v.len());
        assert(v@.subrange(0, v@.len() as int) =~= v@);
        let ghost t = v@.subrange(a as int, b as int);
        let c = find_char(&v, a, b, ',');
        if c >= b {
            return None;
        }
        let c2 = find_char(&v, c + 1, b, ',');
        proof {
            assert(t.skip(c - a + 1) =~= v@.subrange(c + 1, b as int));
            assert(t.take(c - a) =~= v@.subrange(a as int, c as int));
        }
        if c2 < b {
            return None;
        }
        let (xa, xb) = trim_range(&v, a, c);
        let (ya, yb) = trim_range(&v, c + 1, b);
        match (parse_i32_range(&v, xa, xb), parse_i32_range(&v, ya, yb)) {
            (Some(x), Some(y)) => Some((x, y)),
            _ => None,
        }
    }

    /// The cursor of the first seat that reports both coordinates.
    pub fn cursor_from_seats(seats: &Vec<SeatCursor>) -> (r: Option<(i32, i32)>)
        ensures
            r == seats_cursor(seats@),
    {
        let mut i: usize = 0;
        assert(seats@.skip(0) =~= seats@);
        while i < seats.len()
            invariant
                i <= seats@.len(),
                seats_cursor(seats@) == seats_cursor(seats@.skip(i as int)),
            decreases seats@.len() - i,
        {
            let s = seats[i];
            assert(seats@.skip(i as int)[0] == s);
            match (s.x, s.y) {
                (Some(x), Some(y)) => {
                    return Some((x as i32, y as i32));
                },
                _ => {},
            }
            assert(seats@.skip(i as int).drop_first() =~= seats@.skip(i + 1));
            i = i + 1;
        }
        None
    }

    /// The cursor position, given what `hyprctl cursorpos` printed (when it
    /// ran successfully and printed text) and the seats that `swaymsg -t
    /// get_seats` listed (when it did).
    pub fn cursor_position(hyprctl: Option<&str>, seats: Option<&Vec<SeatCursor>>) -> (p: (i32, i32))
        ensures
            p == cursor_position_spec(
                match hyprctl {
                    Some(s) => Some(s@),
                    None => None,
                },
                match seats {
                    Some(v) => Some(v@),
                    None => None,
                },
            ),
    {
        if let Some(s) = hyprctl {
            if let Some(p) = Self::cursor_from_hyprctl(s) {
                return p;
            }
        }
        if let Some(v) = seats {
            if let Some(p) = Self::cursor_from_seats(v) {
                return p;
            }
        }
        (960, 540)
    }

    /// The cursor of one seat object.
    fn seat_cursor(seat: &JsonValue) -> (c: SeatCursor)
        ensures
            c == seat_cursor_of(*seat),
    {
        match json_get(seat, "cursor") {
            Some(cursor) => SeatCursor {
                x: json_as_int(json_get(cursor, "x")),
                y: json_as_int(json_get(cursor, "y")),
            },
            None => SeatCursor { x: None, y: None },
        }
    }

    /// The seat cursors of a `swaymsg -t get_seats` document.
    pub fn seat_cursors(json: &JsonValue) -> (r: Option<Vec<SeatCursor>>)
        ensures
            match r {
                Some(v) => seat_cursors_spec(*json) == Some(v@),
                None => seat_cursors_spec(*json) is None,
            },
    {
        match json {
            JsonValue::Array(items) => {
                let mut out: Vec<SeatCursor> = Vec::new();
                let mut i: usize = 0;
                while i < items.len()
                    invariant
                        i <= items@.len(),
                        seat_cursors_spec(*json) == Some(
                            items@.map_values(|seat: JsonValue| seat_cursor_of(seat)),
                        ),
                        out@ == items@.take(i as int).map_values(
                            |seat: JsonValue| seat_cursor_of(seat),
                        ),
                    decreases items@.len() - i,
                {
                    let c = Self::seat_cursor(&items[i]);
                    out.push(c);
                    assert(out@ =~= items@.take(i + 1).map_values(
                        |seat: JsonValue| seat_cursor_of(seat),
                    ));
                    i = i + 1;
                }
                assert(items@.take(items@.len() as int) =~= items@);
                Some(out)
            },
            _ => None,
        }
    }

    /// The cursor position from the texts that `hyprctl cursorpos` and
    /// `swaymsg -t get_seats` printed (each when it ran successfully and
    /// printed text).
    pub fn cursor_position_from_texts(hyprctl: Option<&str>, swaymsg: Option<&str>) -> (p: (
        i32,
        i32,
    ))
        ensures
            p == cursor_position_spec(
                match hyprctl {
                    Some(s) => Some(s@),
                    None => None,
                },
                sway_seats(
                    match swaymsg {
                        Some(t) => Some(t@),
                        None => None,
                    },
                ),
            ),
    {
        if let Some(s) = hyprctl {
            if let Some(p) = Self::cursor_from_hyprctl(s) {
                return p;
            }
        }
        if let Some(t) = swaymsg {
            if let Some(json) = parse_json(t) {
                if let Some(seats) = Self::seat_cursors(&json) {
                    if let Some(p) = Self::cursor_from_seats(&seats) {
                        return p;
                    }
                }
            }
        }
        (960, 540)
    }
}

} // verus!
