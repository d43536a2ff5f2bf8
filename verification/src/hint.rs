//! Hint tags and hint grids: the unique key characters, the coarse grid that
//! spans a monitor, the refinement grid inside one cell, and the prefix-free
//! labels for element-based grids.
use vstd::prelude::*;
use vstd::arithmetic::power::pow;
use crate::text::{
    char_is_alphabetic, chars_of, is_alpha, is_prefix_of, lemma_distinct_chars_bound, push_char,
};

verus! {

/// Integer division rounding toward zero, as `/` does on `i32`.
pub open spec fn div_trunc(a: int, b: int) -> int {
    if a >= 0 {
        a / b
    } else {
        -((-a) / b)
    }
}

pub open spec fn in_i32(v: int) -> bool {
    i32::MIN <= v <= i32::MAX
}

/// Represents a single hint tag on the screen
#[derive(Debug, Clone)]
pub struct Hint {
    pub label: String,
    pub x: i32,
    pub y: i32,
    pub width: i32,
    pub height: i32,
    pub screen: u32,
}

/// The mathematical content of a [`Hint`].
pub struct HintView {
    pub label: Seq<char>,
    pub x: int,
    pub y: int,
    pub width: int,
    pub height: int,
    pub screen: u32,
}

impl View for Hint {
    type V = HintView;

    open spec fn view(&self) -> HintView {
        HintView {
            label: self.label@,
            x: self.x as int,
            y: self.y as int,
            width: self.width as int,
            height: self.height as int,
            screen: self.screen,
        }
    }
}

impl Hint {
    /// A copy of this hint.
    pub fn duplicate(&self) -> (h: Hint)
        ensures
            h@ == self@,
    {
        Hint {
            label: self.label.clone(),
            x: self.x,
            y: self.y,
            width: self.width,
            height: self.height,
            screen: self.screen,
        }
    }
}

/// Grid representation
pub struct HintGrid {
    pub hints: Vec<Hint>,
    pub width: i32,
    pub height: i32,
    pub screen: u32,
    pub is_element_based: bool,
}

/// The mathematical content of a [`HintGrid`].
pub struct HintGridView {
    pub hints: Seq<HintView>,
    pub width: int,
    pub height: int,
    pub screen: u32,
    pub is_element_based: bool,
}

pub open spec fn hint_views(hints: Seq<Hint>) -> Seq<HintView> {
    hints.map_values(|h: Hint| h@)
}

impl View for HintGrid {
    type V = HintGridView;

    open spec fn view(&self) -> HintGridView {
        HintGridView {
            hints: hint_views(self.hints@),
            width: self.width as int,
            height: self.height as int,
            screen: self.screen,
            is_element_based: self.is_element_based,
        }
    }
}

// ---------------------------------------------------------------------------
// Key characters
// ---------------------------------------------------------------------------

/// The alphabetic characters of `s`, each kept at its first occurrence.
pub open spec fn alpha_dedup(s: Seq<char>) -> Seq<char>
    decreases s.len(),
{
    if s.len() == 0 {
        Seq::empty()
    } else {
        let prev = alpha_dedup(s.drop_last());
        let c = s.last();
        if is_alpha(c) && !prev.contains(c) {
            prev.push(c)
        } else {
            prev
        }
    }
}

/// The key characters used when a configured set holds no letter at all.
pub open spec fn default_hint_chars() -> Seq<char> {
    "asdfghjklqwertzxv"@
}

/// The key characters that a configured character set yields.
pub open spec fn unique_hint_chars(s: Seq<char>) -> Seq<char> {
    if alpha_dedup(s).len() == 0 {
        default_hint_chars()
    } else {
        alpha_dedup(s)
    }
}

pub proof fn lemma_alpha_dedup(s: Seq<char>)
    ensures
        alpha_dedup(s).no_duplicates(),
        forall|i: int| 0 <= i < alpha_dedup(s).len() ==> is_alpha(#[trigger] alpha_dedup(s)[i]),
        forall|i: int| 0 <= i < alpha_dedup(s).len() ==> s.contains(#[trigger] alpha_dedup(s)[i]),
        forall|i: int| 0 <= i < s.len() && is_alpha(#[trigger] s[i]) ==> alpha_dedup(s).contains(s[i]),
    decreases s.len(),
{
    if s.len() > 0 {
        let p = s.drop_last();
        lemma_alpha_dedup(p);
        let d = alpha_dedup(s);
        assert forall|i: int| 0 <= i < d.len() implies s.contains(#[trigger] d[i]) by {
            if i < alpha_dedup(p).len() {
                let k = choose|k: int| 0 <= k < p.len() && p[k] == alpha_dedup(p)[i];
                assert(s[k] == p[k]);
            } else {
                assert(s[s.len() - 1] == d[i]);
            }
        }
        assert forall|i: int| 0 <= i < s.len() && is_alpha(#[trigger] s[i]) implies d.contains(
            s[i],
        ) by {
            if i < s.len() - 1 {
                assert(s[i] == p[i]);
                let k = choose|k: int| 0 <= k < alpha_dedup(p).len() && alpha_dedup(p)[k] == p[i];
                assert(d[k] == alpha_dedup(p)[k]);
            } else if alpha_dedup(p).contains(s.last()) {
                let k = choose|k: int|
                    0 <= k < alpha_dedup(p).len() && alpha_dedup(p)[k] == s.last();
                assert(d[k] == alpha_dedup(p)[k]);
            } else {
                assert(d[d.len() - 1] == s.last());
            }
        }
    }
}

pub proof fn lemma_default_hint_chars()
    ensures
        default_hint_chars().len() == 17,
        default_hint_chars().no_duplicates(),
        forall|i: int| 0 <= i < 17 ==> is_alpha(#[trigger] default_hint_chars()[i]),
{
    reveal_strlit("asdfghjklqwertzxv");
    let d = default_hint_chars();
    assert(d =~= seq![
        'a', 's', 'd', 'f', 'g', 'h', 'j', 'k', 'l', 'q', 'w', 'e', 'r', 't', 'z', 'x', 'v',
    ]);
}

/// The key characters are never empty, never repeat, and are letters.
pub proof fn lemma_unique_hint_chars(s: Seq<char>)
    ensures
        unique_hint_chars(s).len() >= 1,
        unique_hint_chars(s).len() <= 0x110000,
        unique_hint_chars(s).no_duplicates(),
        forall|i: int|
            0 <= i < unique_hint_chars(s).len() ==> is_alpha(#[trigger] unique_hint_chars(s)[i]),
{
    lemma_alpha_dedup(s);
    lemma_default_hint_chars();
    lemma_distinct_chars_bound(unique_hint_chars(s));
}

proof fn lemma_alpha_dedup_fixed(t: Seq<char>)
    requires
        t.no_duplicates(),
        forall|i: int| 0 <= i < t.len() ==> is_alpha(#[trigger] t[i]),
    ensures
        alpha_dedup(t) == t,
    decreases t.len(),
{
    if t.len() > 0 {
        let p = t.drop_last();
        assert forall|i: int| 0 <= i < p.len() implies is_alpha(#[trigger] p[i]) by {
            assert(p[i] == t[i]);
        }
        assert(p.no_duplicates()) by {
            assert forall|i: int, j: int| 0 <= i < p.len() && 0 <= j < p.len() && i != j implies p[i]
                != p[j] by {
                assert(p[i] == t[i] && p[j] == t[j]);
            }
        }
        lemma_alpha_dedup_fixed(p);
        assert(is_alpha(t[t.len() - 1]));
        if p.contains(t.last()) {
            let k = choose|k: int| 0 <= k < p.len() && p[k] == t.last();
            assert(t[k] == t[t.len() - 1]);
        }
        assert(p.push(t.last()) =~= t);
    }
}

/// The key characters of a set of key characters are that set: applying
/// the selection to its own result changes nothing.
pub proof fn lemma_unique_hint_chars_idempotent(s: Seq<char>)
    ensures
        unique_hint_chars(unique_hint_chars(s)) == unique_hint_chars(s),
{
    let t = unique_hint_chars(s);
    lemma_unique_hint_chars(s);
    lemma_alpha_dedup_fixed(t);
}

fn contains_char(v: &Vec<char>, c: char) -> (b: bool)
    ensures
        b == v@.contains(c),
{
    let mut i: usize = 0;
    while i < v.len()
        invariant
            i <= v@.len(),
            forall|k: int| 0 <= k < i ==> v@[k] != c,
        decreases v@.len() - i,
    {
        if v[i] == c {
            return true;
        }
        i = i + 1;
    }
    false
}

// ---------------------------------------------------------------------------
// Grid cells
// ---------------------------------------------------------------------------

/// Hint for column `i`, row `j` of a grid of `chars.len()`² cells covering
/// the `w` × `h` rectangle whose corner is (`ox`, `oy`): the centre of the
/// cell, labelled with the optional monitor character, then `chars[i]`,
/// then `chars[j]`.
pub open spec fn cell_hint(
    ox: int,
    oy: int,
    w: int,
    h: int,
    chars: Seq<char>,
    screen: u32,
    prefix: Option<char>,
    i: int,
    j: int,
) -> HintView {
    let u = chars.len() as int;
    let cw = div_trunc(w, u);
    let ch = div_trunc(h, u);
    HintView {
        label: match prefix {
            Some(m) => seq![m, chars[i], chars[j]],
            None => seq![chars[i], chars[j]],
        },
        x: ox + i * cw + div_trunc(cw, 2),
        y: oy + j * ch + div_trunc(ch, 2),
        width: 40,
        height: 30,
        screen,
    }
}

/// All cell hints, column by column: index `i * u + j` holds column `i`, row `j`.
pub open spec fn cell_hints(
    ox: int,
    oy: int,
    w: int,
    h: int,
    chars: Seq<char>,
    screen: u32,
    prefix: Option<char>,
) -> Seq<HintView> {
    let u = chars.len() as int;
    Seq::new(
        (u * u) as nat,
        |k: int| cell_hint(ox, oy, w, h, chars, screen, prefix, k / u, k % u),
    )
}

/// The label prefix of a first-pass grid: on a multi-monitor setup the
/// monitor character (given, or the key character at the screen's index).
pub open spec fn monitor_prefix(
    chars: Seq<char>,
    screen: u32,
    multi_monitor: bool,
    monitor_char: Option<char>,
) -> Option<char> {
    if multi_monitor {
        Some(
            match monitor_char {
                Some(c) => c,
                None => chars[(screen as int) % (chars.len() as int)],
            },
        )
    } else {
        None
    }
}

/// Offsets of a cell inside a span `w` cut into `u` cells stay between 0 and `w`.
proof fn lemma_cell_offset(w: int, u: int, i: int)
    requires
        1 <= u,
        0 <= i < u,
        in_i32(w),
    ensures
        in_i32(div_trunc(w, u)),
        w >= 0 ==> 0 <= i * div_trunc(w, u) <= i * div_trunc(w, u) + div_trunc(
            div_trunc(w, u),
            2,
        ) <= w,
        w < 0 ==> w <= i * div_trunc(w, u) + div_trunc(div_trunc(w, u), 2) <= i * div_trunc(
            w,
            u,
        ) <= 0,
{
    if w >= 0 {
        let q = w / u;
        assert(0 <= q <= w && q * u <= w) by (nonlinear_arith)
            requires
                w >= 0,
                u >= 1,
                q == w / u,
        ;
        assert(0 <= i * q && i * q + q / 2 <= w) by (nonlinear_arith)
            requires
                0 <= i < u,
                q >= 0,
                q * u <= w,
        ;
    } else {
        let a = -w;
        let q = a / u;
        assert(0 <= q <= a && q * u <= a) by (nonlinear_arith)
            requires
                a > 0,
                u >= 1,
                q == a / u,
        ;
        assert(0 <= i * q && i * q + q / 2 <= a) by (nonlinear_arith)
            requires
                0 <= i < u,
                q >= 0,
                q * u <= a,
        ;
        assert(i * (-q) == -(i * q)) by (nonlinear_arith);
    }
}

proof fn lemma_cell_index(i: int, j: int, u: int)
    requires
        0 <= i,
        0 <= j < u,
    ensures
        (i * u + j) / u == i,
        (i * u + j) % u == j,
{
    vstd::arithmetic::div_mod::lemma_fundamental_div_mod_converse(i * u + j, u, i, j);
}

/// Fills an empty hint list with the cells of the `w` × `h` rectangle at (`ox`, `oy`).
fn fill_cells(
    hints: &mut Vec<Hint>,
    ox: i32,
    oy: i32,
    w: i32,
    h: i32,
    chars: &Vec<char>,
    screen: u32,
    prefix: Option<char>,
)
    requires
        old(hints)@.len() == 0,
        1 <= chars@.len() <= 0x110000,
        in_i32(ox + w),
        in_i32(oy + h),
    ensures
        hint_views(final(hints)@) == cell_hints(
            ox as int,
            oy as int,
            w as int,
            h as int,
            chars@,
            screen,
            prefix,
        ),
{
    let u = chars.len();
    let ghost un = u as int;
    let ui = u as i32;
    let cw = w / ui;
    let ch = h / ui;
    let ghost want = cell_hints(ox as int, oy as int, w as int, h as int, chars@, screen, prefix);
    let mut i: usize = 0;
    while i < u
        invariant
            u == chars@.len(),
            1 <= u <= 0x110000,
            ui as int == u as int,
            cw as int == div_trunc(w as int, u as int),
            ch as int == div_trunc(h as int, u as int),
            in_i32(ox + w),
            in_i32(oy + h),
            i <= u,
            want == cell_hints(ox as int, oy as int, w as int, h as int, chars@, screen, prefix),
            hints@.len() == i * u,
            forall|k: int|
                0 <= k < hints@.len() ==> (#[trigger] hints@[k])@ == cell_hint(
                    ox as int,
                    oy as int,
                    w as int,
                    h as int,
                    chars@,
                    screen,
                    prefix,
                    k / (u as int),
                    k % (u as int),
                ),
        decreases u - i,
    {
        let mut j: usize = 0;
        while j < u
            invariant
                u == chars@.len(),
                1 <= u <= 0x110000,
                ui as int == u as int,
                cw as int == div_trunc(w as int, u as int),
                ch as int == div_trunc(h as int, u as int),
                in_i32(ox + w),
                in_i32(oy + h),
                i < u,
                j <= u,
                hints@.len() == i * u + j,
                forall|k: int|
                    0 <= k < hints@.len() ==> (#[trigger] hints@[k])@ == cell_hint(
                        ox as int,
                        oy as int,
                        w as int,
                        h as int,
                        chars@,
                        screen,
                        prefix,
                        k / (u as int),
                        k % (u as int),
                    ),
            decreases u - j,
        {
            proof {
                lemma_cell_offset(w as int, u as int, i as int);
                lemma_cell_offset(h as int, u as int, j as int);
            }
            let cell_x = ox + (i as i32) * cw;
            let cell_y = oy + (j as i32) * ch;
            let x = cell_x + cw / 2;
            let y = cell_y + ch / 2;
            let mut label = String::new();
            match prefix {
                Some(m) => push_char(&mut label, m),
                None => {},
            }
            push_char(&mut label, chars[i]);
            push_char(&mut label, chars[j]);
            let hint = Hint { label, x, y, width: 40, height: 30, screen };
            proof {
                lemma_cell_index(i as int, j as int, u as int);
                let k = i * u + j;
                let expect = cell_hint(
                    ox as int,
                    oy as int,
                    w as int,
                    h as int,
                    chars@,
                    screen,
                    prefix,
                    k / (u as int),
                    k % (u as int),
                );
                assert(hint@.label =~= expect.label);
            }
            hints.push(hint);
            j = j + 1;
        }
        assert((i + 1) * u == i * u + u) by (nonlinear_arith);
        i = i + 1;
    }
    proof {
        assert(hints@.len() == un * un) by (nonlinear_arith)
            requires
                hints@.len() == i * u,
                i == u,
                un == u,
        ;
        assert(hint_views(hints@) =~= want);
    }
}

// ---------------------------------------------------------------------------
// Fixed-length labels
// ---------------------------------------------------------------------------

/// The last `len` digits of `n` in base `b`, most significant first.
pub open spec fn base_digits(n: nat, b: nat, len: nat) -> Seq<nat>
    decreases len,
{
    if len == 0 {
        Seq::empty()
    } else {
        base_digits(n / b, b, (len - 1) as nat).push(n % b)
    }
}

/// Label number `n`: its `len` base-`chars.len()` digits spelled with `chars`.
pub open spec fn base_label(chars: Seq<char>, n: nat, len: nat) -> Seq<char> {
    base_digits(n, chars.len(), len).map_values(|d: nat| chars[d as int])
}

pub open spec fn label_length_from(count: nat, base: nat, l: nat) -> nat
    decreases count - l,
{
    if l >= count || pow(base as int, l) >= count {
        l
    } else {
        label_length_from(count, base, l + 1)
    }
}

/// The smallest length `l >= 1` with `base^l >= count`.
pub open spec fn label_length(count: nat, base: nat) -> nat {
    label_length_from(count, base, 1)
}

/// Whether `count` distinct labels of one length exist over `base` characters
/// (and at least one is asked for).
pub open spec fn labels_possible(count: nat, base: nat) -> bool {
    count > 0 && base > 0 && !(base == 1 && count > 1)
}

proof fn lemma_pow_exceeds(b: int, l: nat)
    requires
        b >= 2,
    ensures
        pow(b, l) > l,
    decreases l,
{
    vstd::arithmetic::power::lemma_pow0(b);
    if l > 0 {
        lemma_pow_exceeds(b, (l - 1) as nat);
        vstd::arithmetic::power::lemma_pow_positive(b, (l - 1) as nat);
        reveal(pow);
        assert(pow(b, l) == b * pow(b, (l - 1) as nat));
        assert(b * pow(b, (l - 1) as nat) >= 2 * pow(b, (l - 1) as nat)) by (nonlinear_arith)
            requires
                b >= 2,
                pow(b, (l - 1) as nat) > 0,
        ;
    }
}

proof fn lemma_label_length_from(count: nat, base: nat, l: nat, len: nat)
    requires
        labels_possible(count, base),
        1 <= l <= len,
        pow(base as int, len) >= count,
        len == 1 || pow(base as int, (len - 1) as nat) < count,
    ensures
        label_length_from(count, base, l) == len,
    decreases len - l,
{
    if l < len {
        assert(base >= 2) by {
            if base == 1 {
                vstd::arithmetic::power::lemma_pow1(1);
                lemma_pow_one(((len - 1) as nat));
            }
        }
        vstd::arithmetic::power::lemma_pow_increases(base, l, (len - 1) as nat);
        lemma_pow_exceeds(base as int, l);
        lemma_label_length_from(count, base, l + 1, len);
    }
}

proof fn lemma_pow_one(e: nat)
    ensures
        pow(1, e) == 1,
    decreases e,
{
    reveal(pow);
    if e > 0 {
        lemma_pow_one((e - 1) as nat);
    }
}

proof fn lemma_base_digits_bounded(n: nat, b: nat, len: nat)
    requires
        b >= 1,
    ensures
        base_digits(n, b, len).len() == len,
        forall|k: int| 0 <= k < len ==> #[trigger] base_digits(n, b, len)[k] < b,
    decreases len,
{
    if len > 0 {
        lemma_base_digits_bounded(n / b, b, (len - 1) as nat);
    }
}

proof fn lemma_base_digits_injective(n: nat, m: nat, b: nat, len: nat)
    requires
        b >= 1,
        n < pow(b as int, len),
        m < pow(b as int, len),
        base_digits(n, b, len) == base_digits(m, b, len),
    ensures
        n == m,
    decreases len,
{
    vstd::arithmetic::power::lemma_pow0(b as int);
    if len > 0 {
        let p = pow(b as int, (len - 1) as nat);
        reveal(pow);
        assert(pow(b as int, len) == b * p);
        let dn = base_digits(n, b, len);
        let dm = base_digits(m, b, len);
        assert(dn.drop_last() =~= base_digits(n / b, b, (len - 1) as nat));
        assert(dm.drop_last() =~= base_digits(m / b, b, (len - 1) as nat));
        assert(n % b == m % b) by {
            assert(dn.last() == dm.last());
        }
        assert(n / b < p && m / b < p) by {
            vstd::arithmetic::div_mod::lemma_fundamental_div_mod(n as int, b as int);
            vstd::arithmetic::div_mod::lemma_fundamental_div_mod(m as int, b as int);
            assert((n / b) < p) by (nonlinear_arith)
                requires
                    n == b * (n / b) + n % b,
                    n % b >= 0,
                    n < b * p,
                    b >= 1,
            ;
            assert((m / b) < p) by (nonlinear_arith)
                requires
                    m == b * (m / b) + m % b,
                    m % b >= 0,
                    m < b * p,
                    b >= 1,
            ;
        }
        lemma_base_digits_injective(n / b, m / b, b, (len - 1) as nat);
        vstd::arithmetic::div_mod::lemma_fundamental_div_mod(n as int, b as int);
        vstd::arithmetic::div_mod::lemma_fundamental_div_mod(m as int, b as int);
    }
}

/// Labels of one length over distinct characters: label `n` has length `len`,
/// and two different numbers below `base^len` get different labels.
pub proof fn lemma_base_label_injective(chars: Seq<char>, n: nat, m: nat, len: nat)
    requires
        chars.len() >= 1,
        chars.no_duplicates(),
        n < pow(chars.len() as int, len),
        m < pow(chars.len() as int, len),
        n != m,
    ensures
        base_label(chars, n, len).len() == len,
        base_label(chars, n, len) != base_label(chars, m, len),
{
    let b = chars.len();
    lemma_base_digits_bounded(n, b, len);
    lemma_base_digits_bounded(m, b, len);
    let dn = base_digits(n, b, len);
    let dm = base_digits(m, b, len);
    if base_label(chars, n, len) == base_label(chars, m, len) {
        assert forall|k: int| 0 <= k < len implies dn[k] == dm[k] by {
            assert(base_label(chars, n, len)[k] == chars[dn[k] as int]);
            assert(base_label(chars, m, len)[k] == chars[dm[k] as int]);
        }
        assert(dn =~= dm);
        lemma_base_digits_injective(n, m, b, len);
    }
}

/// The labels that `generate_labels` produces for `count` items over `chars`
/// are prefix-free: they all have the minimal length `l` with
/// `chars.len()^l >= count`, and when the characters are distinct no label
/// is a prefix of another.
pub proof fn lemma_labels_prefix_free(chars: Seq<char>, count: nat)
    requires
        labels_possible(count, chars.len()),
        chars.no_duplicates(),
    ensures
        label_length(count, chars.len()) >= 1,
        pow(chars.len() as int, label_length(count, chars.len())) >= count,
        label_length(count, chars.len()) == 1 || pow(
            chars.len() as int,
            (label_length(count, chars.len()) - 1) as nat,
        ) < count,
        forall|i: nat|
            i < count ==> (#[trigger] base_label(chars, i, label_length(count, chars.len()))).len()
                == label_length(count, chars.len()),
        forall|i: nat, j: nat|
            i < count && j < count && i != j ==> !is_prefix_of(
                #[trigger] base_label(chars, i, label_length(count, chars.len())),
                #[trigger] base_label(chars, j, label_length(count, chars.len())),
            ),
{
    let b = chars.len();
    let len = label_length_min(count, b);
    lemma_label_length_from(count, b, 1, len);
    let l = label_length(count, b);
    assert forall|i: nat| i < count implies (#[trigger] base_label(chars, i, l)).len() == l by {
        lemma_base_digits_bounded(i, b, l);
    }
    assert forall|i: nat, j: nat| i < count && j < count && i != j implies !is_prefix_of(
        #[trigger] base_label(chars, i, l),
        #[trigger] base_label(chars, j, l),
    ) by {
        lemma_base_label_injective(chars, i, j, l);
        lemma_base_digits_bounded(j, b, l);
        assert(base_label(chars, j, l).take(l as int) =~= base_label(chars, j, l));
    }
}

/// A length witnessing the characterisation of [`label_length`].
proof fn label_length_min(count: nat, base: nat) -> (len: nat)
    requires
        labels_possible(count, base),
    ensures
        len >= 1,
        pow(base as int, len) >= count,
        len == 1 || pow(base as int, (len - 1) as nat) < count,
    decreases count,
{
    label_length_search(count, base, 1)
}

proof fn label_length_search(count: nat, base: nat, l: nat) -> (len: nat)
    requires
        labels_possible(count, base),
        l >= 1,
        l == 1 || pow(base as int, (l - 1) as nat) < count,
    ensures
        len >= 1,
        pow(base as int, len) >= count,
        len == 1 || pow(base as int, (len - 1) as nat) < count,
    decreases count - l,
{
    if pow(base as int, l) >= count {
        l
    } else {
        if base == 1 {
            lemma_pow_one(l);
        }
        lemma_pow_exceeds(base as int, l);
        label_length_search(count, base, l + 1)
    }
}

/// Appends label number `n` of length `len` over `chars`.
fn push_base_label(out: &mut String, n: usize, chars: &[char], len: usize)
    requires
        chars@.len() >= 1,
    ensures
        final(out)@ == old(out)@ + base_label(chars@, n as nat, len as nat),
    decreases len,
{
    if len == 0 {
        assert(base_label(chars@, n as nat, 0) =~= Seq::<char>::empty());
        assert(old(out)@ + Seq::<char>::empty() =~= old(out)@);
        return;
    }
    let b = chars.len();
    push_base_label(out, n / b, chars, len - 1);
    push_char(out, chars[n % b]);
    proof {
        let rest = base_label(chars@, (n / b) as nat, (len - 1) as nat);
        assert(base_label(chars@, n as nat, len as nat) =~= rest.push(chars@[(n % b) as int]));
        assert(old(out)@ + rest + seq![chars@[(n % b) as int]] =~= old(out)@ + base_label(
            chars@,
            n as nat,
            len as nat,
        ));
    }
}

// ---------------------------------------------------------------------------
// Laws of grids
// ---------------------------------------------------------------------------

/// Every hint of a grid over a `w` × `h` rectangle at (`ox`, `oy`) with
/// non-negative sides lies inside that rectangle.
pub proof fn lemma_cell_hints_inside(
    ox: int,
    oy: int,
    w: int,
    h: int,
    chars: Seq<char>,
    screen: u32,
    prefix: Option<char>,
)
    requires
        chars.len() >= 1,
        0 <= w <= i32::MAX,
        0 <= h <= i32::MAX,
    ensures
        forall|k: int|
            0 <= k < cell_hints(ox, oy, w, h, chars, screen, prefix).len() ==> {
                let hv = #[trigger] cell_hints(ox, oy, w, h, chars, screen, prefix)[k];
                &&& ox <= hv.x <= ox + w
                &&& oy <= hv.y <= oy + h
                &&& hv.screen == screen
            },
{
    let u = chars.len() as int;
    assert forall|k: int| 0 <= k < cell_hints(ox, oy, w, h, chars, screen, prefix).len() implies {
        let hv = #[trigger] cell_hints(ox, oy, w, h, chars, screen, prefix)[k];
        &&& ox <= hv.x <= ox + w
        &&& oy <= hv.y <= oy + h
        &&& hv.screen == screen
    } by {
        assert(0 <= k / u < u && 0 <= k % u < u) by (nonlinear_arith)
            requires
                0 <= k < u * u,
                u >= 1,
        ;
        lemma_cell_offset(w, u, k / u);
        lemma_cell_offset(h, u, k % u);
    }
}

/// Over distinct key characters, the hints of a grid have pairwise different
/// labels of one length, so none is a prefix of another and every complete
/// label picks exactly one hint.
pub proof fn lemma_cell_labels_distinct(
    ox: int,
    oy: int,
    w: int,
    h: int,
    chars: Seq<char>,
    screen: u32,
    prefix: Option<char>,
)
    requires
        chars.len() >= 1,
        chars.no_duplicates(),
    ensures
        forall|k: int|
            0 <= k < cell_hints(ox, oy, w, h, chars, screen, prefix).len() ==> (
            #[trigger] cell_hints(ox, oy, w, h, chars, screen, prefix)[k]).label.len() == (
            if prefix is Some {
                3int
            } else {
                2int
            }),
        forall|k1: int, k2: int|
            0 <= k1 < cell_hints(ox, oy, w, h, chars, screen, prefix).len() && 0 <= k2
                < cell_hints(ox, oy, w, h, chars, screen, prefix).len() && k1 != k2 ==> !is_prefix_of(
                (#[trigger] cell_hints(ox, oy, w, h, chars, screen, prefix)[k1]).label,
                (#[trigger] cell_hints(ox, oy, w, h, chars, screen, prefix)[k2]).label,
            ),
{
    let u = chars.len() as int;
    let hs = cell_hints(ox, oy, w, h, chars, screen, prefix);
    assert forall|k1: int, k2: int|
        0 <= k1 < hs.len() && 0 <= k2 < hs.len() && k1 != k2 implies !is_prefix_of(
        (#[trigger] hs[k1]).label,
        (#[trigger] hs[k2]).label,
    ) by {
        assert(0 <= k1 / u < u && 0 <= k1 % u < u && 0 <= k2 / u < u && 0 <= k2 % u < u)
            by (nonlinear_arith)
            requires
                0 <= k1 < u * u,
                0 <= k2 < u * u,
                u >= 1,
        ;
        vstd::arithmetic::div_mod::lemma_fundamental_div_mod(k1, u);
        vstd::arithmetic::div_mod::lemma_fundamental_div_mod(k2, u);
        let l1 = hs[k1].label;
        let l2 = hs[k2].label;
        assert(l2.take(l1.len() as int) =~= l2);
        if l1 == l2 {
            match prefix {
                Some(m) => {
                    assert(l1[1] == l2[1] && l1[2] == l2[2]);
                },
                None => {
                    assert(l1[0] == l2[0] && l1[1] == l2[1]);
                },
            }
            assert(k1 / u == k2 / u);
            assert(k1 % u == k2 % u);
        }
    }
}

impl HintGrid {
    pub fn new(width: i32, height: i32, screen: u32) -> (g: Self)
        ensures
            g@ == (HintGridView {
                hints: Seq::empty(),
                width: width as int,
                height: height as int,
                screen,
                is_element_based: false,
            }),
    {
        let g = Self { hints: Vec::new(), width, height, screen, is_element_based: false };
        assert(g@.hints =~= Seq::<HintView>::empty());
        g
    }

    /// Generate prefix-free fixed-length labels dynamically using Base-M representation.
    /// Ensures that no label is a prefix of another by padding labels to a uniform length.
    pub fn generate_labels(count: usize, chars: &[char]) -> (labels: Vec<String>)
        ensures
            !labels_possible(count as nat, chars@.len()) ==> labels@.len() == 0,
            labels_possible(count as nat, chars@.len()) ==> {
                &&& labels@.len() == count
                &&& forall|i: int|
                    0 <= i < count ==> (#[trigger] labels@[i])@ == base_label(
                        chars@,
                        i as nat,
                        label_length(count as nat, chars@.len()),
                    )
            },
    {
        if count == 0 {
            return Vec::new();
        }
        let base = chars.len();
        if base == 0 {
            return Vec::new();
        }
        if base == 1 && count > 1 {
            return Vec::new();
        }
        let mut length: usize = 1;
        let mut capacity: usize = base;
        proof {
            vstd::arithmetic::power::lemma_pow1(base as int);
        }
        while capacity < count
            invariant
                labels_possible(count as nat, base as nat),
                base == chars@.len(),
                1 <= length,
                capacity as int == (if pow(base as int, length as nat) >= usize::MAX {
                    usize::MAX as int
                } else {
                    pow(base as int, length as nat)
                }),
                length == 1 || pow(base as int, (length - 1) as nat) < count,
            decreases usize::MAX - capacity,
        {
            proof {
                assert(base >= 2) by {
                    if base == 1 {
                        lemma_pow_one(length as nat);
                    }
                }
                lemma_pow_exceeds(base as int, length as nat);
                reveal(pow);
                assert(pow(base as int, (length + 1) as nat) == base * pow(
                    base as int,
                    length as nat,
                ));
                assert(capacity * base >= capacity + 1) by (nonlinear_arith)
                    requires
                        base >= 2,
                        capacity >= 1,
                ;
            }
            let ghost old_cap = capacity;
            assert(old_cap as int == pow(base as int, length as nat));
            assert(old_cap * base == base * old_cap) by (nonlinear_arith);
            length = length + 1;
            capacity = match capacity.checked_mul(base) {
                Some(c) => c,
                None => usize::MAX,
            };
            assert(pow(base as int, length as nat) == base * old_cap);
            assert(capacity > old_cap);
        }
        proof {
            lemma_label_length_from(count as nat, base as nat, 1, length as nat);
        }
        let mut labels: Vec<String> = Vec::new();
        let mut i: usize = 0;
        while i < count
            invariant
                i <= count,
                chars@.len() >= 1,
                length as nat == label_length(count as nat, chars@.len()),
                labels@.len() == i,
                forall|k: int|
                    0 <= k < i ==> (#[trigger] labels@[k])@ == base_label(
                        chars@,
                        k as nat,
                        length as nat,
                    ),
            decreases count - i,
        {
            let mut label = String::new();
            push_base_label(&mut label, i, chars, length);
            assert(label@ =~= base_label(chars@, i as nat, length as nat));
            labels.push(label);
            i = i + 1;
        }
        labels
    }

    /// Helper to get unique, ordered characters from config string
    pub fn get_unique_chars(hint_chars: &str) -> (chars: Vec<char>)
        ensures
            chars@ == unique_hint_chars(hint_chars@),
    {
        let source = chars_of(hint_chars);
        let mut unique: Vec<char> = Vec::new();
        let mut i: usize = 0;
        while i < source.len()
            invariant
                i <= source@.len(),
                unique@ == alpha_dedup(source@.take(i as int)),
            decreases source@.len() - i,
        {
            let c = source[i];
            if char_is_alphabetic(c) && !contains_char(&unique, c) {
                unique.push(c);
            }
            assert(source@.take(i + 1).drop_last() =~= source@.take(i as int));
            i = i + 1;
        }
        assert(source@.take(source@.len() as int) =~= source@);
        if unique.len() == 0 {
            // Safe fallback if config is completely empty/corrupted
            unique = chars_of("asdfghjklqwertzxv");
        }
        unique
    }

    /// Generate initial grid spanning full monitor boundaries
    pub fn generate_first_pass(
        width: i32,
        height: i32,
        hint_chars: &str,
        screen: u32,
        multi_monitor: bool,
        monitor_char: Option<char>,
    ) -> (g: Self)
        ensures
            g@ == (HintGridView {
                hints: cell_hints(
                    0,
                    0,
                    width as int,
                    height as int,
                    unique_hint_chars(hint_chars@),
                    screen,
                    monitor_prefix(
                        unique_hint_chars(hint_chars@),
                        screen,
                        multi_monitor,
                        monitor_char,
                    ),
                ),
                width: width as int,
                height: height as int,
                screen,
                is_element_based: false,
            }),
    {
        let mut grid = Self::new(width, height, screen);
        let chars = Self::get_unique_chars(hint_chars);
        proof {
            lemma_unique_hint_chars(hint_chars@);
        }
        let u = chars.len();
        let prefix = if multi_monitor {
            let m_char = match monitor_char {
                Some(c) => c,
                None => chars[(screen as usize) % u],
            };
            Some(m_char)
        } else {
            None
        };
        assert(grid.hints@.len() == hint_views(grid.hints@).len());
        fill_cells(&mut grid.hints, 0, 0, width, height, &chars, screen, prefix);
        grid
    }

    /// Subdivide a specific grid region for micro-refinement
    pub fn generate_refinement(
        x_min: i32,
        y_min: i32,
        x_max: i32,
        y_max: i32,
        hint_chars: &str,
        screen: u32,
    ) -> (g: Self)
        requires
            in_i32(x_max - x_min),
            in_i32(y_max - y_min),
        ensures
            g@ == (HintGridView {
                hints: cell_hints(
                    x_min as int,
                    y_min as int,
                    x_max - x_min,
                    y_max - y_min,
                    unique_hint_chars(hint_chars@),
                    screen,
                    None,
                ),
                width: x_max - x_min,
                height: y_max - y_min,
                screen,
                is_element_based: false,
            }),
    {
        let width = x_max - x_min;
        let height = y_max - y_min;
        let mut grid = Self::new(width, height, screen);
        let chars = Self::get_unique_chars(hint_chars);
        proof {
            lemma_unique_hint_chars(hint_chars@);
        }
        assert(grid.hints@.len() == hint_views(grid.hints@).len());
        fill_cells(&mut grid.hints, x_min, y_min, width, height, &chars, screen, None);
        grid
    }
}

} // verus!
