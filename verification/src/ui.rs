//! Text and geometry of the screen: the header line, the status line, list
//! rows, grid captions, the AI overlay's contents and its placement.

use vstd::prelude::*;
use crate::ai::DescribeDone;
use crate::app::{
    ai_map, App, AppModel, AiState, AiStatus, ViewMode, CELL_TOTAL_H, CELL_TOTAL_W, GRID_CELL_H, GRID_CELL_W,
};
use crate::scan::{entry_label, Entry, ImageEntry};
use crate::text::{chars_of, decimal, decimal_chars, push_all, slice_chars, string_of};

verus! {

/// A rectangle of terminal cells.
#[derive(Debug, Clone, Copy, PartialEq, Eq, Structural)]
pub struct Rect {
    pub x: u16,
    pub y: u16,
    pub width: u16,
    pub height: u16,
}

/// The number of terminal columns ratatui gives a string (`Span::width`:
/// the Unicode display width of its content).
pub uninterp spec fn str_width_of(s: Seq<char>) -> nat;

/// Only printable ASCII characters (space to `~`).
pub open spec fn printable_ascii(s: Seq<char>) -> bool {
    forall|i: int| 0 <= i < s.len() ==> ' ' <= #[trigger] s[i] <= '~'
}

/// Calls `ratatui::text::Span::width`; printable ASCII takes one column a
/// character (so the empty string takes none).
#[verifier::external_body]
fn display_width(s: &str) -> (r: usize)
    ensures
        r == str_width_of(s@),
        printable_ascii(s@) ==> r == s@.len(),
{
    ratatui::text::Span::raw(s).width()
}

/// `s` fits in `max` columns.
pub open spec fn fits(s: Seq<char>, max: nat) -> bool {
    str_width_of(s) <= max
}

/// The longest prefix length, at most `k`, whose prefix fits in `max`
/// columns (0 when none does).
pub open spec fn longest_fitting_prefix(s: Seq<char>, max: nat, k: nat) -> nat
    decreases k,
{
    if k == 0 || fits(s.take(k as int), max) {
        k
    } else {
        longest_fitting_prefix(s, max, (k - 1) as nat)
    }
}

/// The first `h` and last `t` characters of `s` around a `…`.
pub open spec fn elided(s: Seq<char>, h: nat, t: nat) -> Seq<char> {
    s.take(h as int) + seq!['…'] + s.subrange(s.len() - t, s.len() as int)
}

/// Keeping one more character: of the start while it has no more than the end.
pub open spec fn grow(h: nat, t: nat) -> (nat, nat) {
    if h <= t {
        (h + 1, t)
    } else {
        (h, t + 1)
    }
}

/// Growing the kept start and end in turn, from `h` and `t`, while the
/// elided string still fits in `max` columns and leaves a character out.
pub open spec fn split_fit(s: Seq<char>, max: nat, h: nat, t: nat) -> (nat, nat)
    decreases s.len() - (h + t),
{
    if h + t + 1 >= s.len() {
        (h, t)
    } else {
        let (h2, t2) = grow(h, t);
        if fits(elided(s, h2, t2), max) {
            split_fit(s, max, h2, t2)
        } else {
            (h, t)
        }
    }
}

/// `s` shortened to fit in `max` columns: unchanged when it fits; else its
/// start and end around a `…`, as much of each (in turn, the start first) as
/// fits; or, when the limit is at most 3 columns or not even `…` fits, its
/// longest prefix that fits.
pub open spec fn truncate_middle_spec(s: Seq<char>, max: nat) -> Seq<char> {
    if max == 0 {
        Seq::empty()
    } else if fits(s, max) {
        s
    } else if max <= 3 || !fits(elided(s, 0, 0), max) {
        s.take(longest_fitting_prefix(s, max, s.len()) as int)
    } else {
        let (h, t) = split_fit(s, max, 0, 0);
        elided(s, h, t)
    }
}

proof fn lemma_split_fit_fits(s: Seq<char>, max: nat, h: nat, t: nat)
    requires
        fits(elided(s, h, t), max),
        h + t < s.len(),
    ensures
        fits(elided(s, split_fit(s, max, h, t).0, split_fit(s, max, h, t).1), max),
        split_fit(s, max, h, t).0 + split_fit(s, max, h, t).1 < s.len(),
    decreases s.len() - (h + t),
{
    if h + t + 1 < s.len() {
        let (h2, t2) = grow(h, t);
        if fits(elided(s, h2, t2), max) {
            lemma_split_fit_fits(s, max, h2, t2);
        }
    }
}

proof fn lemma_prefix_fits(s: Seq<char>, max: nat, k: nat)
    requires
        str_width_of(Seq::<char>::empty()) == 0,
        k <= s.len(),
    ensures
        fits(s.take(longest_fitting_prefix(s, max, k) as int), max),
        longest_fitting_prefix(s, max, k) <= k,
    decreases k,
{
    if k > 0 && !fits(s.take(k as int), max) {
        lemma_prefix_fits(s, max, (k - 1) as nat);
    } else if k == 0 {
        assert(s.take(0) =~= Seq::<char>::empty());
    }
}

/// The first `h` and last `t` characters of `chars` around a `…`.
fn elided_string(chars: &[char], h: usize, t: usize) -> (r: String)
    requires
        h + t <= chars@.len(),
    ensures
        r@ == elided(chars@, h as nat, t as nat),
{
    let n = chars.len();
    let mut out = slice_chars(chars, 0, h);
    out.push('…');
    let end = slice_chars(chars, n - t, n);
    push_all(&mut out, end.as_slice());
    assert(out@ =~= elided(chars@, h as nat, t as nat));
    string_of(out.as_slice())
}

/// Shorten `s` so it fits in `max` terminal columns, preserving the start
/// and end (see [`truncate_middle_spec`]).
pub fn truncate_middle(s: &str, max: usize) -> (r: String)
    ensures
        r@ == truncate_middle_spec(s@, max as nat),
        str_width_of(r@) <= max,
{
    let w0 = display_width("");
    proof {
        reveal_strlit("");
        assert(""@ =~= Seq::<char>::empty());
    }
    assert(str_width_of(Seq::<char>::empty()) == 0);
    if max == 0 {
        let r = string_of(&[]);
        assert(r@ =~= Seq::<char>::empty());
        return r;
    }
    let chars = chars_of(s);
    let n = chars.len();
    if display_width(s) <= max {
        return string_of(chars.as_slice());
    }
    let dots = elided_string(chars.as_slice(), 0, 0);
    if max <= 3 || display_width(dots.as_str()) > max {
        let mut k = n;
        while k > 0
            invariant
                k <= n == s@.len(),
                chars@ == s@,
                longest_fitting_prefix(s@, max as nat, n as nat) == longest_fitting_prefix(
                    s@,
                    max as nat,
                    k as nat,
                ),
            ensures
                k <= n,
                longest_fitting_prefix(s@, max as nat, n as nat) == k,
            decreases k,
        {
            let p = string_of(slice_chars(chars.as_slice(), 0, k).as_slice());
            if display_width(p.as_str()) <= max {
                break;
            }
            k = k - 1;
        }
        proof {
            lemma_prefix_fits(s@, max as nat, n as nat);
        }
        return string_of(slice_chars(chars.as_slice(), 0, k).as_slice());
    }
    let mut h: usize = 0;
    let mut t: usize = 0;
    while h + t + 1 < n
        invariant
            n == s@.len(),
            chars@ == s@,
            h + t < n,
            fits(elided(s@, h as nat, t as nat), max as nat),
            split_fit(s@, max as nat, 0, 0) == split_fit(s@, max as nat, h as nat, t as nat),
        ensures
            h + t < n,
            fits(elided(s@, h as nat, t as nat), max as nat),
            split_fit(s@, max as nat, 0, 0) == (h as nat, t as nat),
        decreases n - (h + t),
    {
        let (h2, t2) = if h <= t {
            (h + 1, t)
        } else {
            (h, t + 1)
        };
        let cand = elided_string(chars.as_slice(), h2, t2);
        if display_width(cand.as_str()) > max {
            break;
        }
        h = h2;
        t = t2;
    }
    elided_string(chars.as_slice(), h, t)
}

/// A box of `cols_pct`% x `rows_pct`% of `area` (the percentages truncated to
/// 16 bits), at least 20 x 6 cells but never larger than `area`, centered in it.
pub open spec fn modal_rect_spec(area: Rect, cols_pct: u16, rows_pct: u16) -> Rect {
    let w0 = (area.width * cols_pct / 100) % 0x10000;
    let h0 = (area.height * rows_pct / 100) % 0x10000;
    let w1 = if w0 < 20 {
        20
    } else {
        w0
    };
    let h1 = if h0 < 6 {
        6
    } else {
        h0
    };
    let w = if w1 > area.width {
        area.width as int
    } else {
        w1
    };
    let h = if h1 > area.height {
        area.height as int
    } else {
        h1
    };
    Rect {
        x: (area.x + (area.width - w) / 2) as u16,
        y: (area.y + (area.height - h) / 2) as u16,
        width: w as u16,
        height: h as u16,
    }
}

/// Centered modal sized as percentages of `area` (see [`modal_rect_spec`]).
pub fn centered_modal_rect(area: Rect, cols_pct: u16, rows_pct: u16) -> (r: Rect)
    requires
        area.x + area.width <= 0xffff,
        area.y + area.height <= 0xffff,
    ensures
        r == modal_rect_spec(area, cols_pct, rows_pct),
        area.x <= r.x,
        r.x + r.width <= area.x + area.width,
        area.y <= r.y,
        r.y + r.height <= area.y + area.height,
{
    assert((area.width as u32) * (cols_pct as u32) <= 0xffff * 0xffff && (area.height as u32) * (
    rows_pct as u32) <= 0xffff * 0xffff) by (nonlinear_arith)
        requires
            area.width <= 0xffff,
            area.height <= 0xffff,
            cols_pct <= 0xffff,
            rows_pct <= 0xffff,
    ;
    let wp: u32 = (area.width as u32) * (cols_pct as u32) / 100;
    let hp: u32 = (area.height as u32) * (rows_pct as u32) / 100;
    let w0 = (wp % 0x10000) as u16;
    let h0 = (hp % 0x10000) as u16;
    let w1 = if w0 < 20 {
        20
    } else {
        w0
    };
    let h1 = if h0 < 6 {
        6
    } else {
        h0
    };
    let w = if w1 > area.width {
        area.width
    } else {
        w1
    };
    let h = if h1 > area.height {
        area.height
    } else {
        h1
    };
    Rect { x: area.x + (area.width - w) / 2, y: area.y + (area.height - h) / 2, width: w, height: h }
}

/// A grid cell on screen: the entry it shows, its thumbnail area and its
/// one-row caption below.
#[derive(Debug, Clone, Copy, PartialEq, Eq, Structural)]
pub struct GridCell {
    pub index: usize,
    pub image: Rect,
    pub caption: Rect,
}

/// The cell in visible row `row` and column `col` of a grid of `cols`
/// columns scrolled down `scroll` rows over `n` entries, laid out in
/// `area`: `None` when no entry falls there or the cell does not fit.
pub open spec fn grid_cell_spec(
    area: Rect,
    cols: int,
    scroll: int,
    n: int,
    row: int,
    col: int,
) -> Option<GridCell> {
    let index = (scroll + row) * cols + col;
    let x = area.x + col * CELL_TOTAL_W;
    let y = area.y + row * CELL_TOTAL_H;
    if index >= n || y + GRID_CELL_H + 1 > area.y + area.height || x + GRID_CELL_W > area.x
        + area.width {
        None
    } else {
        Some(
            GridCell {
                index: index as usize,
                image: Rect { x: x as u16, y: y as u16, width: GRID_CELL_W, height: GRID_CELL_H },
                caption: Rect { x: x as u16, y: (y + GRID_CELL_H) as u16, width: GRID_CELL_W, height: 1 },
            },
        )
    }
}

/// The grid cell at `row`, `col` (see [`grid_cell_spec`]).
pub fn grid_cell(area: Rect, cols: u16, scroll: usize, n: usize, row: usize, col: usize) -> (r: Option<
    GridCell,
>)
    requires
        area.x + area.width <= 0xffff,
        area.y + area.height <= 0xffff,
    ensures
        r == grid_cell_spec(area, cols as int, scroll as int, n as int, row as int, col as int),
{
    if row > 0xffff || col > 0xffff {
        assert(row * CELL_TOTAL_H >= 0) by (nonlinear_arith)
            requires
                row >= 0,
        ;
        assert(col * CELL_TOTAL_W >= 0) by (nonlinear_arith)
            requires
                col >= 0,
        ;
        assert(row > 0xffff ==> row * CELL_TOTAL_H > 0xffff) by (nonlinear_arith)
            requires
                CELL_TOTAL_H == 10,
        ;
        assert(col > 0xffff ==> col * CELL_TOTAL_W > 0xffff) by (nonlinear_arith)
            requires
                CELL_TOTAL_W == 17,
        ;
        return None;
    }
    let x: u64 = area.x as u64 + col as u64 * CELL_TOTAL_W as u64;
    let y: u64 = area.y as u64 + row as u64 * CELL_TOTAL_H as u64;
    assert((scroll + row) * cols + col < 0x1_0000_0000_0000_0000_0000_0000_0000) by (nonlinear_arith)
        requires
            scroll < 0x1_0000_0000_0000_0000,
            row <= 0xffff,
            col <= 0xffff,
            cols <= 0xffff,
    ;
    let index: u128 = (scroll as u128 + row as u128) * cols as u128 + col as u128;
    if index >= n as u128 || y + GRID_CELL_H as u64 + 1 > area.y as u64 + area.height as u64 || x
        + GRID_CELL_W as u64 > area.x as u64 + area.width as u64 {
        None
    } else {
        Some(
            GridCell {
                index: index as usize,
                image: Rect { x: x as u16, y: y as u16, width: GRID_CELL_W, height: GRID_CELL_H },
                caption: Rect { x: x as u16, y: (y + GRID_CELL_H as u64) as u16, width: GRID_CELL_W, height: 1 },
            },
        )
    }
}

/// `2^k`.
pub open spec fn p2(k: nat) -> nat
    decreases k,
{
    if k == 0 {
        1
    } else {
        2 * p2((k - 1) as nat)
    }
}

/// The number of binary digits of `n`.
pub open spec fn bit_len(n: nat) -> nat
    decreases n,
{
    if n == 0 {
        0
    } else {
        1 + bit_len(n / 2)
    }
}

/// `n` rounded to a multiple of `m`, ties to the even multiple.
pub open spec fn round_to_multiple(n: nat, m: nat) -> nat {
    let q = n / m;
    let r = n % m;
    if 2 * r > m || (2 * r == m && q % 2 == 1) {
        (q + 1) * m
    } else {
        q * m
    }
}

/// The value of `n as f64`: `n` itself when it has at most 53 binary digits,
/// else `n` rounded to 53 significant bits (ties to even).
pub open spec fn as_f64(n: nat) -> nat {
    if bit_len(n) <= 53 {
        n
    } else {
        round_to_multiple(n, p2((bit_len(n) - 53) as nat))
    }
}

/// `v / unit` in tenths, rounded to nearest, ties to even, as `{:.1}` rounds.
pub open spec fn tenths(v: nat, unit: nat) -> nat {
    let q = v * 10 / unit;
    let r = (v * 10) % unit;
    if 2 * r > unit || (2 * r == unit && q % 2 == 1) {
        q + 1
    } else {
        q
    }
}

/// A count of tenths written with one decimal.
pub open spec fn one_decimal(t: nat) -> Seq<char> {
    decimal(t / 10) + "."@ + decimal(t % 10)
}

pub open spec fn kib() -> nat {
    1024
}

pub open spec fn mib() -> nat {
    1024 * 1024
}

pub open spec fn gib() -> nat {
    1024 * 1024 * 1024
}

/// A byte count for people: bytes below 1 KiB, else KiB, MiB or GiB with
/// one decimal, computed from the byte count converted to `f64`.
pub open spec fn human_size_spec(bytes: u64) -> Seq<char> {
    if bytes >= gib() {
        one_decimal(tenths(as_f64(bytes as nat), gib())) + " GB"@
    } else if bytes >= mib() {
        one_decimal(tenths(bytes as nat, mib())) + " MB"@
    } else if bytes >= kib() {
        one_decimal(tenths(bytes as nat, kib())) + " KB"@
    } else {
        decimal(bytes as nat) + " B"@
    }
}

proof fn lemma_bit_len_bound(n: nat, k: nat)
    requires
        n < p2(k),
    ensures
        bit_len(n) <= k,
    decreases k,
{
    if n > 0 && k > 0 {
        lemma_bit_len_bound(n / 2, (k - 1) as nat);
    }
}

proof fn lemma_p2_mono(a: nat, b: nat)
    requires
        a <= b,
    ensures
        p2(a) <= p2(b),
    decreases b,
{
    if a < b {
        lemma_p2_mono(a, (b - 1) as nat);
    }
}

/// `2^64`.
proof fn lemma_p2_64()
    ensures
        p2(64) == 0x1_0000_0000_0000_0000,
        p2(11) == 2048,
{
    reveal_with_fuel(p2, 4);
    assert(p2(2) == 4);
    assert(p2(3) == 8);
    lemma_p2_add(2, 2);
    assert(p2(4) == 16);
    lemma_p2_add(4, 4);
    assert(p2(8) == 256);
    lemma_p2_add(8, 8);
    assert(p2(16) == 65536);
    lemma_p2_add(16, 16);
    assert(p2(32) == 0x1_0000_0000);
    lemma_p2_add(32, 32);
    lemma_p2_add(8, 3);
}

/// The value of `n as f64` (see [`as_f64`]).
fn nearest_f64(n: u64) -> (r: u128)
    ensures
        r == as_f64(n as nat),
{
    let mut len: u32 = 0;
    let mut x: u64 = n;
    proof {
        lemma_p2_64();
        lemma_bit_len_bound(n as nat, 64);
    }
    while x > 0
        invariant
            bit_len(n as nat) == len + bit_len(x as nat),
            bit_len(n as nat) <= 64,
        decreases x,
    {
        x = x / 2;
        len = len + 1;
    }
    if len <= 53 {
        return n as u128;
    }
    let s = len - 53;
    let mut m: u128 = 1;
    let mut i: u32 = 0;
    while i < s
        invariant
            i <= s <= 11,
            m == p2(i as nat),
            p2(11) == 2048,
        decreases s - i,
    {
        proof {
            lemma_p2_mono((i + 1) as nat, 11);
        }
        m = m * 2;
        i = i + 1;
    }
    proof {
        lemma_p2_mono(0, s as nat);
        lemma_p2_mono(s as nat, 11);
        lemma_as_f64_bound(n as nat);
    }
    let q = (n as u128) / m;
    let r = (n as u128) % m;
    assert(as_f64(n as nat) == round_to_multiple(n as nat, m as nat));
    if 2 * r > m || (2 * r == m && q % 2 == 1) {
        assert(as_f64(n as nat) == (q + 1) * m);
        (q + 1) * m
    } else {
        assert(as_f64(n as nat) == q * m);
        q * m
    }
}

/// `v / unit` in tenths (see [`tenths`]).
fn tenths_of(v: u128, unit: u128) -> (r: u64)
    requires
        v <= 0x1_0000_0000_0000_0000,
        1024 <= unit <= 0x1_0000_0000_0000,
    ensures
        r == tenths(v as nat, unit as nat),
{
    let q = v * 10 / unit;
    let r = (v * 10) % unit;
    assert(q as int <= (v as int * 10) / 1024) by (nonlinear_arith)
        requires
            unit >= 1024,
            q as int == (v as int * 10) / unit as int,
            v >= 0,
    ;
    if 2 * r > unit || (2 * r == unit && q % 2 == 1) {
        (q + 1) as u64
    } else {
        q as u64
    }
}

fn push_one_decimal(out: &mut Vec<char>, t: u64)
    ensures
        final(out)@ == old(out)@ + one_decimal(t as nat),
{
    proof {
        reveal_strlit(".");
    }
    push_all(out, decimal_chars(t / 10).as_slice());
    out.push('.');
    push_all(out, decimal_chars(t % 10).as_slice());
    assert(final(out)@ =~= old(out)@ + one_decimal(t as nat));
}

/// A byte count for people, such as `1.5 KB` (see [`human_size_spec`]).
pub fn human_size(bytes: u64) -> (r: String)
    ensures
        r@ == human_size_spec(bytes),
{
    let mut out: Vec<char> = Vec::new();
    if bytes >= 1024 * 1024 * 1024 {
        let v = nearest_f64(bytes);
        proof {
            assert(as_f64(bytes as nat) <= 0x1_0000_0000_0000_0000) by {
                lemma_as_f64_bound(bytes as nat);
            }
        }
        push_one_decimal(&mut out, tenths_of(v, 1024 * 1024 * 1024));
        push_all(&mut out, chars_of(" GB").as_slice());
    } else if bytes >= 1024 * 1024 {
        push_one_decimal(&mut out, tenths_of(bytes as u128, 1024 * 1024));
        push_all(&mut out, chars_of(" MB").as_slice());
    } else if bytes >= 1024 {
        push_one_decimal(&mut out, tenths_of(bytes as u128, 1024));
        push_all(&mut out, chars_of(" KB").as_slice());
    } else {
        push_all(&mut out, decimal_chars(bytes).as_slice());
        push_all(&mut out, chars_of(" B").as_slice());
    }
    string_of(out.as_slice())
}

proof fn lemma_as_f64_bound(n: nat)
    requires
        n < 0x1_0000_0000_0000_0000,
    ensures
        as_f64(n) <= 0x1_0000_0000_0000_0000,
{
    lemma_p2_64();
    lemma_bit_len_bound(n, 64);
    if bit_len(n) > 53 {
        let s = (bit_len(n) - 53) as nat;
        let m = p2(s);
        let k = p2((64 - s) as nat);
        lemma_p2_mono(0, s);
        lemma_p2_add(s, (64 - s) as nat);
        assert(m * k == 0x1_0000_0000_0000_0000);
        let q = n / m;
        assert((q + 1) * m <= 0x1_0000_0000_0000_0000) by (nonlinear_arith)
            requires
                m >= 1,
                q == n / m,
                n < m * k,
                m * k == 0x1_0000_0000_0000_0000,
        {
            assert(q * m <= n);
            assert(q < k);
        }
        assert(q * m <= (q + 1) * m) by (nonlinear_arith)
            requires
                m >= 1,
                q >= 0,
        ;
        assert(as_f64(n) == round_to_multiple(n, m));
    }
}

proof fn lemma_p2_add(a: nat, b: nat)
    ensures
        p2(a + b) == p2(a) * p2(b),
    decreases a,
{
    if a == 0 {
        assert(p2(0) == 1);
    } else {
        let a1 = (a - 1) as nat;
        lemma_p2_add(a1, b);
        let x = p2(a1);
        let y = p2(b);
        assert(p2(a) == 2 * x);
        assert(p2(a1 + b + 1) == 2 * p2(a1 + b));
        assert(a1 + b + 1 == a + b);
        assert(2 * (x * y) == (2 * x) * y) by (nonlinear_arith);
    }
}

/// The mode shown in the header.
pub open spec fn mode_label(m: AppModel) -> Seq<char> {
    if m.fullscreen_idx is Some {
        "FULL"@
    } else {
        match m.view {
            ViewMode::Grid => "GRID"@,
            ViewMode::List => "LIST"@,
        }
    }
}

/// How many of `es` are images.
pub open spec fn image_count(es: Seq<Entry>) -> nat
    decreases es.len(),
{
    if es.len() == 0 {
        0
    } else {
        image_count(es.drop_last()) + if es.last() is Image {
            1nat
        } else {
            0nat
        }
    }
}

/// The 1-based position of the selection (saturating at the largest index).
pub open spec fn position(selected: usize) -> nat {
    if selected < usize::MAX {
        (selected + 1) as nat
    } else {
        selected as nat
    }
}

/// The header line: mode, directory, image count and selection position.
pub open spec fn header_spec(m: AppModel) -> Seq<char> {
    " glry  ["@ + mode_label(m) + "]  "@ + m.cwd + "   "@ + decimal(image_count(m.entries)) + " images   "@
        + decimal(position(m.selected)) + "/"@ + decimal(m.entries.len()) + " "@
}

/// The header line (see [`header_spec`]).
pub fn header_text(app: &App) -> (r: String)
    ensures
        r@ == header_spec(app@),
{
    let mut n: usize = 0;
    let mut i: usize = 0;
    while i < app.entries.len()
        invariant
            i <= app.entries@.len(),
            n == image_count(app.entries@.take(i as int)),
            n <= i,
        decreases app.entries@.len() - i,
    {
        assert(app.entries@.take(i + 1).drop_last() =~= app.entries@.take(i as int));
        if app.entries[i].is_image() {
            n = n + 1;
        }
        i = i + 1;
    }
    assert(app.entries@.take(app.entries@.len() as int) =~= app.entries@);
    let mode = if app.fullscreen_idx.is_some() {
        "FULL"
    } else {
        match app.view {
            ViewMode::Grid => "GRID",
            ViewMode::List => "LIST",
        }
    };
    let mut out = chars_of(" glry  [");
    push_all(&mut out, chars_of(mode).as_slice());
    push_all(&mut out, chars_of("]  ").as_slice());
    push_all(&mut out, chars_of(app.cwd.as_str()).as_slice());
    push_all(&mut out, chars_of("   ").as_slice());
    push_all(&mut out, decimal_chars(n as u64).as_slice());
    push_all(&mut out, chars_of(" images   ").as_slice());
    let pos: usize = if app.selected < usize::MAX {
        app.selected + 1
    } else {
        app.selected
    };
    push_all(&mut out, decimal_chars(pos as u64).as_slice());
    push_all(&mut out, chars_of("/").as_slice());
    push_all(&mut out, decimal_chars(app.entries.len() as u64).as_slice());
    push_all(&mut out, chars_of(" ").as_slice());
    string_of(out.as_slice())
}

/// What the status line shows.
#[derive(Debug)]
pub enum InfoLine {
    /// This text.
    Text(String),
    /// The metadata of the image at this entry index.
    Image(usize),
}

/// The text of the status line, when it is not an image's metadata.
pub open spec fn info_spec(m: AppModel) -> Option<Seq<char>> {
    match m.status {
        Some(s) => Some(s),
        None => if m.selected < m.entries.len() {
            match m.entries[m.selected as int] {
                Entry::Parent(_) => Some(" ..  (parent directory)"@),
                Entry::SubDir { name, .. } => Some(" 📁 "@ + name@ + "  (directory)"@),
                Entry::Image(_) => None,
            }
        } else {
            Some(" (empty directory) "@)
        },
    }
}

/// The status line: the transient status if any, else a line about the
/// selected entry.
pub fn info_line(app: &App) -> (r: InfoLine)
    ensures
        match r {
            InfoLine::Text(t) => info_spec(app@) == Some(t@),
            InfoLine::Image(i) => info_spec(app@) is None && i == app.selected,
        },
{
    match &app.status {
        Some(s) => InfoLine::Text(s.clone()),
        None => {
            if app.selected < app.entries.len() {
                match &app.entries[app.selected] {
                    Entry::Parent(_) => InfoLine::Text(
                        string_of(chars_of(" ..  (parent directory)").as_slice()),
                    ),
                    Entry::SubDir { name, .. } => {
                        let mut out = chars_of(" 📁 ");
                        push_all(&mut out, chars_of(name.as_str()).as_slice());
                        push_all(&mut out, chars_of("  (directory)").as_slice());
                        InfoLine::Text(string_of(out.as_slice()))
                    },
                    Entry::Image(_) => InfoLine::Image(app.selected),
                }
            } else {
                InfoLine::Text(string_of(chars_of(" (empty directory) ").as_slice()))
            }
        },
    }
}

/// The status line of a selected image: name, size, the original pixel
/// dimensions once the full image is loaded, and the modification time
/// `when` as the caller formats it in its time zone.
pub open spec fn image_info_spec(img: ImageEntry, dims: Option<(u32, u32)>, when: Seq<char>) -> Seq<char> {
    let d = match dims {
        Some((w, h)) => "  "@ + decimal(w as nat) + "×"@ + decimal(h as nat),
        None => Seq::empty(),
    };
    " "@ + img.name@ + "  "@ + human_size_spec(img.size) + d + "  "@ + when
}

/// The status line of a selected image (see [`image_info_spec`]).
pub fn image_info(img: &ImageEntry, dims: Option<(u32, u32)>, when: &str) -> (r: String)
    ensures
        r@ == image_info_spec(*img, dims, when@),
{
    let mut out = chars_of(" ");
    push_all(&mut out, chars_of(img.name.as_str()).as_slice());
    push_all(&mut out, chars_of("  ").as_slice());
    let size = human_size(img.size);
    push_all(&mut out, chars_of(size.as_str()).as_slice());
    match dims {
        Some((w, h)) => {
            push_all(&mut out, chars_of("  ").as_slice());
            push_all(&mut out, decimal_chars(w as u64).as_slice());
            push_all(&mut out, chars_of("×").as_slice());
            push_all(&mut out, decimal_chars(h as u64).as_slice());
        },
        None => {},
    }
    push_all(&mut out, chars_of("  ").as_slice());
    push_all(&mut out, chars_of(when).as_slice());
    proof {
        let d = match dims {
            Some((w, h)) => "  "@ + decimal(w as nat) + "×"@ + decimal(h as nat),
            None => Seq::<char>::empty(),
        };
        assert(out@ =~= " "@ + img.name@ + "  "@ + human_size_spec(img.size) + d + "  "@ + when@);
    }
    string_of(out.as_slice())
}

/// A row of the list view: a kind marker and the entry's label.
pub open spec fn list_row_spec(e: Entry) -> Seq<char> {
    let prefix = match e {
        Entry::Parent(_) => ".."@,
        Entry::SubDir { .. } => "📁"@,
        Entry::Image(_) => "🖼 "@,
    };
    " "@ + prefix + "  "@ + entry_label(e)
}

/// A row of the list view (see [`list_row_spec`]).
pub fn list_row(e: &Entry) -> (r: String)
    ensures
        r@ == list_row_spec(*e),
{
    let prefix = match e {
        Entry::Parent(_) => "..",
        Entry::SubDir { .. } => "📁",
        Entry::Image(_) => "🖼 ",
    };
    let mut out = chars_of(" ");
    push_all(&mut out, chars_of(prefix).as_slice());
    push_all(&mut out, chars_of("  ").as_slice());
    push_all(&mut out, chars_of(e.display_name()).as_slice());
    string_of(out.as_slice())
}

/// How the AI overlay is styled.
#[derive(Debug, Clone, Copy, PartialEq, Eq, Structural)]
pub enum OverlayTone {
    Pending,
    Ready,
    Failed,
}

/// The contents of the AI overlay: title, text and style.
#[derive(Debug)]
pub struct Overlay {
    pub title: String,
    pub text: String,
    pub tone: OverlayTone,
}

/// Closing hint appended to the overlay text.
pub open spec fn overlay_hint() -> Seq<char> {
    "\n\n  press a or Esc to close"@
}

/// The overlay shown for the open overlay's path: title, text and tone.
pub open spec fn overlay_spec(m: AppModel) -> Option<(Seq<char>, Seq<char>, OverlayTone)> {
    match m.ai_overlay {
        None => None,
        Some(p) => if !m.ai_results.contains_key(p) {
            None
        } else {
            Some(overlay_of(m.ai_results[p]))
        },
    }
}

/// The overlay for a describe state.
pub open spec fn overlay_of(st: AiStatus) -> (Seq<char>, Seq<char>, OverlayTone) {
    match st {
        AiStatus::AwaitingDecode => (" AI describe "@, "Describing…"@ + overlay_hint(), OverlayTone::Pending),
        AiStatus::Requesting => (" AI describe "@, "Describing…"@ + overlay_hint(), OverlayTone::Pending),
        AiStatus::Ready(s) => (" AI describe "@, s + overlay_hint(), OverlayTone::Ready),
        AiStatus::Error(e) => (" AI error "@, e + overlay_hint(), OverlayTone::Failed),
    }
}

/// The open overlay shows its image's describe state: a reply or an error
/// starts its text, a request still running shows "Describing…".
pub proof fn lemma_overlay_shows_state(m: AppModel)
    requires
        m.ai_overlay matches Some(p) && m.ai_results.contains_key(p),
    ensures
        overlay_spec(m) is Some,
        ({
            let st = m.ai_results[m.ai_overlay.unwrap()];
            let text = overlay_spec(m).unwrap().1;
            let tone = overlay_spec(m).unwrap().2;
            &&& st matches AiStatus::Ready(s) ==> text.take(s.len() as int) == s && tone
                == OverlayTone::Ready
            &&& st matches AiStatus::Error(e) ==> text.take(e.len() as int) == e && tone
                == OverlayTone::Failed
            &&& (st is AwaitingDecode || st is Requesting) ==> text.take("Describing…"@.len() as int)
                == "Describing…"@ && tone == OverlayTone::Pending
        }),
{
    let st = m.ai_results[m.ai_overlay.unwrap()];
    let text = overlay_spec(m).unwrap().1;
    match st {
        AiStatus::Ready(s) => {
            assert(text.take(s.len() as int) =~= s);
        },
        AiStatus::Error(e) => {
            assert(text.take(e.len() as int) =~= e);
        },
        _ => {
            assert(text.take("Describing…"@.len() as int) =~= "Describing…"@);
        },
    }
}

/// When a describe job for the image whose overlay is open comes back, the
/// overlay shows it: the reply (or the error) starts the overlay's text.
pub proof fn lemma_overlay_shows_finished_describe(m: AppModel, d: DescribeDone)
    requires
        m.ai_overlay == Some(d.path@),
    ensures
        overlay_spec(m.apply_describe(d)) is Some,
        d.result matches Ok(s) ==> overlay_spec(m.apply_describe(d)).unwrap().1.take(
            s@.len() as int,
        ) == s@ && overlay_spec(m.apply_describe(d)).unwrap().2 == OverlayTone::Ready,
        d.result matches Err(e) ==> overlay_spec(m.apply_describe(d)).unwrap().1.take(
            e@.len() as int,
        ) == e@ && overlay_spec(m.apply_describe(d)).unwrap().2 == OverlayTone::Failed,
{
    lemma_overlay_shows_state(m.apply_describe(d));
}

fn overlay_for(st: &AiState) -> (r: Overlay)
    ensures
        (r.title@, r.text@, r.tone) == overlay_of(st@),
{
    let (title, body, tone) = match st {
        AiState::AwaitingDecode => (" AI describe ", chars_of("Describing…"), OverlayTone::Pending),
        AiState::Requesting => (" AI describe ", chars_of("Describing…"), OverlayTone::Pending),
        AiState::Ready(s) => (" AI describe ", chars_of(s.as_str()), OverlayTone::Ready),
        AiState::Error(e) => (" AI error ", chars_of(e.as_str()), OverlayTone::Failed),
    };
    let mut text = body;
    push_all(&mut text, chars_of("\n\n  press a or Esc to close").as_slice());
    Overlay { title: string_of(chars_of(title).as_slice()), text: string_of(text.as_slice()), tone }
}

/// What the AI overlay shows, if it is open and has a state.
pub fn overlay(app: &App) -> (r: Option<Overlay>)
    ensures
        match r {
            Some(o) => overlay_spec(app@) == Some((o.title@, o.text@, o.tone)),
            None => overlay_spec(app@) is None,
        },
{
    let p = match &app.ai_overlay {
        Some(p) => p,
        None => return None,
    };
    let mut j = app.ai_results.len();
    while j > 0
        invariant
            j <= app.ai_results@.len(),
            app.ai_overlay == Some(*p),
            forall|t: int| j <= t < app.ai_results@.len() ==> (#[trigger] app.ai_results@[t]).0@ != p@,
        decreases j,
    {
        if app.ai_results[j - 1].0 == *p {
            proof {
                crate::app::lemma_ai_map_lookup(app.ai_results@, p@, j - 1);
            }
            let o = overlay_for(&app.ai_results[j - 1].1);
            return Some(o);
        }
        j = j - 1;
    }
    proof {
        crate::app::lemma_ai_map_absent(app.ai_results@, p@);
    }
    None
}

} // verus!
