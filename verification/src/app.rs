//! Application state and key dispatch.
//!
//! [`App`] holds everything the gallery decides on: the listing, the
//! selection, the view mode, the fullscreen viewer, which loads are in
//! flight or finished, and the state of the AI describe overlay. Work that
//! touches the outside world (scanning directories, decoding images, talking
//! to the terminal, the clipboard or the network) is handed back to the caller
//! as [`Request`]s, and its results come back through [`App::drain_loads`],
//! [`App::enter_dir`] and [`App::finish_copy`].

use vstd::prelude::*;
use crate::ai::{AiConfig, DescribeDone};
use crate::config::Theme;
use crate::scan::{entry_label, entry_path, Entry, animated_spec, is_animated_path, path_parent, path_parent_of};
use crate::text::{chars_of, push_all, string_of};
use crate::thumbnail::{LoadDone, LoadKind, LoadPayload};

verus! {

/// Fixed grid cell size in terminal cells. Each thumbnail occupies this area.
pub const GRID_CELL_W: u16 = 16;
pub const GRID_CELL_H: u16 = 8;
pub const GRID_GAP: u16 = 1;

/// Wait reported by [`Animation::next_tick_in`] when nothing animates (one hour, in nanoseconds).
pub const IDLE_TICK_NS: u64 = 3_600_000_000_000;

/// Status hint shown when `a` is pressed while the AI feature is off.
pub const AI_DISABLED_HINT: &'static str =
    "AI disabled — set ai_enabled = true in config and export SWIFTROUTER_API_KEY";

/// Error recorded when a describe is wanted but no API token is known.
pub const AI_NO_TOKEN: &'static str = "SWIFTROUTER_API_KEY not set";

#[derive(Debug, Clone, Copy, PartialEq, Eq, Structural)]
pub enum ViewMode {
    Grid,
    List,
}

/// Per-path state of the AI describe feature.
#[derive(Debug)]
pub enum AiState {
    /// Overlay opened before the full-res image was decoded.
    AwaitingDecode,
    /// The describe request is in flight.
    Requesting,
    /// Final assistant content.
    Ready(String),
    /// Request failed.
    Error(String),
}

/// The value of an [`AiState`].
pub enum AiStatus {
    AwaitingDecode,
    Requesting,
    Ready(Seq<char>),
    Error(Seq<char>),
}

impl View for AiState {
    type V = AiStatus;

    open spec fn view(&self) -> AiStatus {
        match self {
            AiState::AwaitingDecode => AiStatus::AwaitingDecode,
            AiState::Requesting => AiStatus::Requesting,
            AiState::Ready(s) => AiStatus::Ready(s@),
            AiState::Error(s) => AiStatus::Error(s@),
        }
    }
}

/// Playback state of an animated image: one delay per frame (nanoseconds), the
/// frame shown, and when it was last advanced (nanoseconds on the caller's
/// monotonic clock).
#[derive(Debug)]
pub struct Animation {
    pub delays: Vec<u64>,
    pub current: usize,
    pub last_advance: u64,
    pub original_dims: (u32, u32),
}

/// `a - b`, or 0 when `b > a` (`Instant::duration_since` saturates the same way).
pub open spec fn sat_sub(a: int, b: int) -> int {
    if a > b {
        a - b
    } else {
        0
    }
}

/// Delay of the frame `j` steps after `cur`.
pub open spec fn frame_delay(delays: Seq<u64>, cur: int, j: int) -> int {
    delays[(cur + j) % (delays.len() as int)] as int
}

/// Total delay of the `k` frames starting at `cur`.
pub open spec fn cum_delay(delays: Seq<u64>, cur: int, k: nat) -> int
    decreases k,
{
    if k == 0 {
        0
    } else {
        cum_delay(delays, cur, (k - 1) as nat) + frame_delay(delays, cur, k - 1)
    }
}

/// How many frames a tick at `now` advances over, counting from step `j`: a
/// frame is passed once the time since the previous advance reaches its
/// delay, and at most one full cycle is passed.
pub open spec fn due_steps(delays: Seq<u64>, cur: int, last: int, now: int, j: nat) -> nat
    decreases delays.len() - j,
{
    if j >= delays.len() {
        delays.len()
    } else if sat_sub(now, last + cum_delay(delays, cur, j)) < frame_delay(delays, cur, j as int) {
        j
    } else {
        due_steps(delays, cur, last, now, j + 1)
    }
}

/// The animation after a tick at `now` (see [`Animation::tick`]).
pub open spec fn ticked(a: Animation, now: u64) -> Animation {
    let n = a.delays.len() as int;
    let k = a.steps_at(now);
    if n <= 1 {
        a
    } else if k < n {
        Animation {
            current: ((a.current + k) % n) as usize,
            last_advance: (a.last_advance + cum_delay(a.delays@, a.current as int, k)) as u64,
            ..a
        }
    } else {
        Animation { last_advance: now, ..a }
    }
}

impl Animation {
    /// Playback position is a valid frame whenever there is more than one.
    pub open spec fn wf(&self) -> bool {
        self.delays.len() <= 1 || self.current < self.delays.len()
    }

    /// Frames a tick at `now` passes over.
    pub open spec fn steps_at(&self, now: u64) -> nat {
        due_steps(self.delays@, self.current as int, self.last_advance as int, now as int, 0)
    }

    /// Whether a frame's delay has run out at `now`, so a tick there passes
    /// over at least one frame.
    pub open spec fn due_at(&self, now: u64) -> bool {
        self.delays.len() > 1 && self.steps_at(now) > 0
    }

    /// Whether a tick at `now` changes the frame shown: it passes over some
    /// frames, but not a whole cycle (which lands on the same frame).
    pub open spec fn advances_at(&self, now: u64) -> bool {
        self.delays.len() > 1 && 0 < self.steps_at(now) < self.delays.len()
    }

    /// What [`Animation::next_tick_in`] returns at `now`.
    pub open spec fn wait_at(&self, now: u64) -> int {
        if self.delays.len() <= 1 {
            IDLE_TICK_NS as int
        } else {
            sat_sub(
                self.delays@[self.current as int] as int,
                sat_sub(now as int, self.last_advance as int),
            )
        }
    }

    /// Advance `current` by as many frames as the elapsed time covers, at most
    /// one full cycle; after a full cycle the clock snaps to `now`. Returns
    /// `true` if the frame index changed.
    pub fn tick(&mut self, now: u64) -> (r: bool)
        requires
            old(self).wf(),
        ensures
            final(self).wf(),
            r == (final(self).current != old(self).current),
            r == old(self).advances_at(now),
            *final(self) == ticked(*old(self), now),
            final(self).delays@ == old(self).delays@,
            final(self).original_dims == old(self).original_dims,
            ({
                let n = old(self).delays.len() as int;
                let k = old(self).steps_at(now);
                if n <= 1 {
                    final(self).current == old(self).current
                        && final(self).last_advance == old(self).last_advance
                } else if k < n {
                    &&& final(self).current == (old(self).current + k) % n
                    &&& final(self).last_advance == old(self).last_advance + cum_delay(
                        old(self).delays@,
                        old(self).current as int,
                        k,
                    )
                } else {
                    &&& final(self).current == old(self).current
                    &&& final(self).last_advance == now
                }
            }),
    {
        let n = self.delays.len();
        if n <= 1 {
            return false;
        }
        let ghost d = self.delays@;
        let ghost dv = self.delays;
        let ghost cur0 = self.current as int;
        let ghost last0 = self.last_advance as int;
        let mut advanced = false;
        let mut j: usize = 0;
        proof {
            vstd::arithmetic::div_mod::lemma_small_mod(cur0 as nat, n as nat);
        }
        while j < n
            invariant
                n == self.delays@.len() == d.len(),
                n > 1,
                self.delays@ == d,
                self.delays == dv,
                dv == old(self).delays,
                self.original_dims == old(self).original_dims,
                0 <= cur0 < n,
                j <= n,
                self.current == (cur0 + j) % (n as int),
                self.last_advance == last0 + cum_delay(d, cur0, j as nat),
                advanced == (j > 0),
                due_steps(d, cur0, last0, now as int, 0) == due_steps(d, cur0, last0, now as int, j as nat),
                d == old(self).delays@,
                cur0 == old(self).current,
                last0 == old(self).last_advance,
            decreases n - j,
        {
            let delay = self.delays[self.current];
            let elapsed = if now > self.last_advance {
                now - self.last_advance
            } else {
                0
            };
            assert(frame_delay(d, cur0, j as int) == delay);
            if elapsed < delay {
                assert(due_steps(d, cur0, last0, now as int, j as nat) == j);
                proof {
                    lemma_step_moves(cur0, j as int, n as int);
                }
                return advanced;
            }
            assert(due_steps(d, cur0, last0, now as int, j as nat) == due_steps(
                d,
                cur0,
                last0,
                now as int,
                (j + 1) as nat,
            ));
            assert(self.last_advance + delay <= now || delay == 0);
            self.current = if self.current + 1 == n {
                0
            } else {
                self.current + 1
            };
            proof {
                let a = cur0 + j;
                assert((a + 1) % (n as int) == if a % (n as int) + 1 == n {
                    0
                } else {
                    a % (n as int) + 1
                }) by {
                    vstd::arithmetic::div_mod::lemma_add_mod_noop(a, 1, n as int);
                    vstd::arithmetic::div_mod::lemma_mod_bound(a, n as int);
                    vstd::arithmetic::div_mod::lemma_small_mod(1, n as nat);
                    if a % (n as int) + 1 < n {
                        vstd::arithmetic::div_mod::lemma_small_mod((a % (n as int) + 1) as nat, n as nat);
                    } else {
                        vstd::arithmetic::div_mod::lemma_mod_self_0(n as int);
                    }
                }
            }
            self.last_advance = self.last_advance + delay;
            advanced = true;
            j = j + 1;
        }
        proof {
            assert(due_steps(d, cur0, last0, now as int, n as nat) == n);
            vstd::arithmetic::div_mod::lemma_mod_add_multiples_vanish(cur0, n as int);
            vstd::arithmetic::div_mod::lemma_small_mod(cur0 as nat, n as nat);
        }
        self.last_advance = now;
        false
    }

    /// How long (nanoseconds) until the current frame's delay elapses; 0 means
    /// a tick is already due.
    pub fn next_tick_in(&self, now: u64) -> (r: u64)
        requires
            self.wf(),
        ensures
            r == self.wait_at(now),
    {
        if self.delays.len() <= 1 {
            return IDLE_TICK_NS;
        }
        let delay = self.delays[self.current];
        let elapsed = if now > self.last_advance {
            now - self.last_advance
        } else {
            0
        };
        if delay > elapsed {
            delay - elapsed
        } else {
            0
        }
    }
}

/// `k` steps around a ring of `n` from `cur` end elsewhere exactly when
/// `k` is not a whole number of laps (for `0 <= k < n`).
proof fn lemma_step_moves(cur: int, k: int, n: int)
    requires
        0 <= cur < n,
        0 <= k < n,
    ensures
        ((cur + k) % n != cur) == (k > 0),
{
    if cur + k < n {
        vstd::arithmetic::div_mod::lemma_small_mod((cur + k) as nat, n as nat);
    } else {
        vstd::arithmetic::div_mod::lemma_fundamental_div_mod_converse(cur + k, n, 1, cur + k - n);
    }
}

proof fn lemma_due_steps_at_least(delays: Seq<u64>, cur: int, last: int, now: int, j: nat)
    requires
        j <= delays.len(),
    ensures
        due_steps(delays, cur, last, now, j) >= j,
    decreases delays.len() - j,
{
    if j < delays.len() {
        lemma_due_steps_at_least(delays, cur, last, now, j + 1);
    }
}

/// A frame is due exactly when [`Animation::next_tick_in`] reports that no
/// wait is left.
pub proof fn lemma_tick_due_iff_no_wait(a: Animation, now: u64)
    requires
        a.wf(),
    ensures
        a.due_at(now) <==> a.wait_at(now) == 0,
{
    if a.delays.len() > 1 {
        let d = a.delays@;
        let n = d.len() as int;
        assert(cum_delay(d, a.current as int, 0) == 0);
        vstd::arithmetic::div_mod::lemma_small_mod(a.current as nat, n as nat);
        assert(frame_delay(d, a.current as int, 0) == d[a.current as int]);
        lemma_due_steps_at_least(d, a.current as int, a.last_advance as int, now as int, 1);
    }
}


/// Load progress of one listing entry.
#[derive(Debug)]
pub struct LoadState {
    /// A grid thumbnail is ready.
    pub thumb: bool,
    /// A resizable full-size protocol is ready.
    pub full: bool,
    /// The decoded (display-sized) full image is kept.
    pub image: bool,
    /// Playback state, once an animation is loaded.
    pub anim: Option<Animation>,
    /// Original pixel dimensions of a fully loaded image.
    pub dims: Option<(u32, u32)>,
    /// Error message, if a load failed.
    pub error: Option<String>,
    pub thumb_requested: bool,
    pub full_requested: bool,
    pub anim_requested: bool,
}

/// Load state of an entry nothing was requested for yet.
pub open spec fn fresh_load() -> LoadState {
    LoadState {
        thumb: false,
        full: false,
        image: false,
        anim: None,
        dims: None,
        error: None,
        thumb_requested: false,
        full_requested: false,
        anim_requested: false,
    }
}

impl LoadState {
    pub fn new() -> (r: LoadState)
        ensures
            r == fresh_load(),
    {
        LoadState {
            thumb: false,
            full: false,
            image: false,
            anim: None,
            dims: None,
            error: None,
            thumb_requested: false,
            full_requested: false,
            anim_requested: false,
        }
    }
}

/// What the fullscreen viewer and the list preview draw for an image: its
/// animation frames, the decoded image, its load error, or a loading note.
#[derive(Debug, Clone, Copy, PartialEq, Eq, Structural)]
pub enum Shown {
    Frames,
    Still,
    Failed,
    Loading,
}

/// What a grid cell draws for an image: its thumbnail, its load error, or
/// a placeholder.
#[derive(Debug, Clone, Copy, PartialEq, Eq, Structural)]
pub enum CellShown {
    Thumb,
    Failed,
    Pending,
}

impl LoadState {
    /// An animation first, then the decoded image, then an error.
    pub open spec fn shown_spec(self) -> Shown {
        if self.anim is Some {
            Shown::Frames
        } else if self.full {
            Shown::Still
        } else if self.error is Some {
            Shown::Failed
        } else {
            Shown::Loading
        }
    }

    /// What the viewer draws for this entry (see [`LoadState::shown_spec`]).
    pub fn shown(&self) -> (r: Shown)
        ensures
            r == self.shown_spec(),
    {
        if self.anim.is_some() {
            Shown::Frames
        } else if self.full {
            Shown::Still
        } else if self.error.is_some() {
            Shown::Failed
        } else {
            Shown::Loading
        }
    }

    /// The thumbnail first, then an error.
    pub open spec fn cell_spec(self) -> CellShown {
        if self.thumb {
            CellShown::Thumb
        } else if self.error is Some {
            CellShown::Failed
        } else {
            CellShown::Pending
        }
    }

    /// What a grid cell draws for this entry (see [`LoadState::cell_spec`]).
    pub fn cell(&self) -> (r: CellShown)
        ensures
            r == self.cell_spec(),
    {
        if self.thumb {
            CellShown::Thumb
        } else if self.error.is_some() {
            CellShown::Failed
        } else {
            CellShown::Pending
        }
    }
}

/// Work the caller performs on the gallery's behalf.
#[derive(Debug)]
pub enum Request {
    /// Load the grid thumbnail of the entry at this index.
    Thumb(usize),
    /// Load the full image of the entry at this index.
    Full(usize),
    /// Load the entry at this index as an animation.
    Animation(usize),
    /// Ask the AI gateway to describe the (already decoded) image at this path.
    Describe(String),
    /// Copy the image at this index to the clipboard, then call [`App::finish_copy`].
    Copy(usize),
    /// Scan this directory, then call [`App::enter_dir`].
    EnterDir(String),
}

/// The value of a [`Request`].
pub enum Req {
    Thumb(usize),
    Full(usize),
    Animation(usize),
    Describe(Seq<char>),
    Copy(usize),
    EnterDir(Seq<char>),
}

impl View for Request {
    type V = Req;

    open spec fn view(&self) -> Req {
        match self {
            Request::Thumb(i) => Req::Thumb(*i),
            Request::Full(i) => Req::Full(*i),
            Request::Animation(i) => Req::Animation(*i),
            Request::Describe(p) => Req::Describe(p@),
            Request::Copy(i) => Req::Copy(*i),
            Request::EnterDir(p) => Req::EnterDir(p@),
        }
    }
}

pub open spec fn reqs(v: Seq<Request>) -> Seq<Req> {
    v.map_values(|r: Request| r@)
}

pub open spec fn opt_req(o: Option<Request>) -> Seq<Req> {
    match o {
        Some(r) => seq![r@],
        None => Seq::empty(),
    }
}

fn push_req(v: &mut Vec<Request>, r: Request)
    ensures
        reqs(final(v)@) == reqs(old(v)@).push(r@),
{
    v.push(r);
    assert(reqs(v@) =~= reqs(old(v)@).push(r@));
}

fn push_opt_req(v: &mut Vec<Request>, r: Option<Request>)
    ensures
        reqs(final(v)@) == reqs(old(v)@) + opt_req(r),
{
    match r {
        Some(x) => {
            push_req(v, x);
            assert(reqs(v@) =~= reqs(old(v)@) + opt_req(r));
        },
        None => {
            assert(reqs(v@) =~= reqs(old(v)@) + opt_req(r));
        },
    }
}

/// A key press, as far as the gallery reads it.
#[derive(Debug, Clone, Copy, PartialEq, Eq, Structural)]
pub enum KeyCode {
    Char(char),
    Left,
    Right,
    Up,
    Down,
    PageUp,
    PageDown,
    Home,
    End,
    Enter,
    Backspace,
    Tab,
    Esc,
    Other,
}

/// A key press: the key and whether Control was the only modifier held.
#[derive(Debug, Clone, Copy, PartialEq, Eq, Structural)]
pub struct KeyEvent {
    pub code: KeyCode,
    pub ctrl_only: bool,
}

/// How a clipboard copy went.
#[derive(Debug)]
pub enum CopyOutcome {
    Copied,
    ClipboardError(String),
    LoadError(String),
}

/// Describe results, latest last; a later entry for a path overrides earlier ones.
pub open spec fn ai_map(s: Seq<(String, AiState)>) -> Map<Seq<char>, AiStatus>
    decreases s.len(),
{
    if s.len() == 0 {
        Map::empty()
    } else {
        ai_map(s.drop_last()).insert(s.last().0@, s.last().1@)
    }
}

pub open spec fn opt_str(o: Option<String>) -> Option<Seq<char>> {
    match o {
        Some(s) => Some(s@),
        None => None,
    }
}

/// The index of the first entry whose path is `p`, searching from `i`.
pub open spec fn find_path(es: Seq<Entry>, p: Seq<char>, i: nat) -> Option<int>
    decreases es.len() - i,
{
    if i >= es.len() {
        None
    } else if entry_path(es[i as int]) == p {
        Some(i as int)
    } else {
        find_path(es, p, i + 1)
    }
}

/// One step around the listing, wrapping at both ends.
pub open spec fn ring_next(i: int, forward: bool, n: int) -> int {
    if forward {
        if i + 1 >= n {
            0
        } else {
            i + 1
        }
    } else {
        if i <= 0 {
            n - 1
        } else {
            i - 1
        }
    }
}

/// `k` steps around the listing from `start`.
pub open spec fn ring_walk(start: int, k: nat, forward: bool, n: int) -> int
    decreases k,
{
    if k == 0 {
        start
    } else {
        ring_next(ring_walk(start, (k - 1) as nat, forward, n), forward, n)
    }
}

/// The first image met walking from `start` (not counting `start` itself
/// until a full lap), trying step counts `k..=n`.
pub open spec fn image_after(es: Seq<Entry>, start: int, forward: bool, k: nat) -> Option<int>
    decreases es.len() + 1 - k,
{
    if k > es.len() || k == 0 {
        None
    } else if es[ring_walk(start, k, forward, es.len() as int)] is Image {
        Some(ring_walk(start, k, forward, es.len() as int))
    } else {
        image_after(es, start, forward, k + 1)
    }
}

/// Index of the first entry of the wanted kind (image, or else directory).
pub open spec fn first_kind(es: Seq<Entry>, image: bool, i: nat) -> Option<int>
    decreases es.len() - i,
{
    if i >= es.len() {
        None
    } else if (image && es[i as int] is Image) || (!image && es[i as int] is SubDir) {
        Some(i as int)
    } else {
        first_kind(es, image, i + 1)
    }
}

/// Selection on entering a directory: the first image, else the first
/// subdirectory, else 0.
pub open spec fn first_selectable_spec(es: Seq<Entry>) -> int {
    match first_kind(es, true, 0) {
        Some(i) => i,
        None => match first_kind(es, false, 0) {
            Some(i) => i,
            None => 0,
        },
    }
}

/// The load state after a finished load of `kind` reporting `payload`.
pub open spec fn after_load(
    l: LoadState,
    kind: LoadKind,
    payload: Result<LoadPayload, String>,
    now: u64,
) -> LoadState {
    let l1 = match kind {
        LoadKind::Thumb => LoadState { thumb_requested: false, ..l },
        LoadKind::Full => LoadState { full_requested: false, ..l },
        LoadKind::Animation => LoadState { anim_requested: false, ..l },
    };
    match payload {
        Err(msg) => LoadState { error: Some(msg), ..l1 },
        Ok(LoadPayload::Thumb) => LoadState { thumb: true, ..l1 },
        Ok(LoadPayload::Full { original_dims }) => LoadState {
            dims: Some(original_dims),
            image: true,
            full: true,
            ..l1
        },
        Ok(LoadPayload::Animation { original_dims, delays }) => LoadState {
            dims: Some(original_dims),
            anim: Some(Animation { delays, current: 0, last_advance: now, original_dims }),
            ..l1
        },
    }
}

fn update_load(l: &mut LoadState, kind: LoadKind, payload: Result<LoadPayload, String>, now: u64)
    requires
        old(l).anim matches Some(a) ==> a.wf(),
    ensures
        *final(l) == after_load(*old(l), kind, payload, now),
        final(l).anim matches Some(a) ==> a.wf(),
{
    match kind {
        LoadKind::Thumb => l.thumb_requested = false,
        LoadKind::Full => l.full_requested = false,
        LoadKind::Animation => l.anim_requested = false,
    }
    match payload {
        Err(msg) => l.error = Some(msg),
        Ok(LoadPayload::Thumb) => l.thumb = true,
        Ok(LoadPayload::Full { original_dims }) => {
            l.dims = Some(original_dims);
            l.image = true;
            l.full = true;
        },
        Ok(LoadPayload::Animation { original_dims, delays }) => {
            l.dims = Some(original_dims);
            l.anim = Some(Animation { delays, current: 0, last_advance: now, original_dims });
        },
    }
}

/// Status line after a clipboard copy of the image named `name`.
pub open spec fn copy_status(name: Seq<char>, outcome: CopyOutcome) -> Seq<char> {
    match outcome {
        CopyOutcome::Copied => "Copied "@ + name,
        CopyOutcome::ClipboardError(e) => "Clipboard error: "@ + e@,
        CopyOutcome::LoadError(e) => "Could not load image: "@ + e@,
    }
}

/// Columns a grid cell (thumbnail plus gap) takes.
pub const CELL_TOTAL_W: u16 = 17;
/// Rows a grid cell (thumbnail, caption and gap) takes.
pub const CELL_TOTAL_H: u16 = 10;

/// The part of the grid on screen: its shape and the entry range `first_visible..last_visible`.
#[derive(Debug, Clone, Copy, PartialEq, Eq, Structural)]
pub struct GridFrame {
    pub cols: u16,
    pub rows_visible: usize,
    pub first_visible: usize,
    pub last_visible: usize,
}

/// Grid columns that fit in `w` cells (at least one).
pub open spec fn grid_cols(w: u16) -> int {
    let c = (w + GRID_GAP) / (CELL_TOTAL_W as int);
    if c < 1 {
        1
    } else {
        c
    }
}

/// Grid rows that fit in `h` cells (at least one).
pub open spec fn grid_rows(h: u16) -> int {
    let r = (h + GRID_GAP) / (CELL_TOTAL_H as int);
    if r < 1 {
        1
    } else {
        r
    }
}

/// Scroll offset after following the selection row `sel_row`, with `rows` rows on screen.
pub open spec fn follow_scroll(scroll: int, sel_row: int, rows: int) -> int {
    if sel_row < scroll {
        sel_row
    } else if sel_row >= scroll + rows {
        sel_row + 1 - rows
    } else {
        scroll
    }
}

/// Grid scroll offset: follow the selection, then keep no blank rows past the last one.
pub open spec fn grid_scroll(n: int, sel: int, scroll: int, cols: int, rows: int) -> int {
    let followed = follow_scroll(scroll, sel / cols, rows);
    let total = (n + cols - 1) / cols;
    let max_scroll = sat_sub(total, rows);
    if followed < max_scroll {
        followed
    } else {
        max_scroll
    }
}

/// The abstract state of an [`App`].
#[verifier::ext_equal]
pub struct AppModel {
    pub cwd: Seq<char>,
    pub entries: Seq<Entry>,
    pub loads: Seq<LoadState>,
    pub selected: usize,
    pub view: ViewMode,
    pub fullscreen_idx: Option<usize>,
    pub hide_bars_default: bool,
    pub fullscreen_bars_hidden: bool,
    pub fullscreen_crop: bool,
    pub pending_g: bool,
    pub should_quit: bool,
    pub status: Option<Seq<char>>,
    pub dirty: bool,
    pub last_grid_cols: u16,
    pub grid_scroll_row: usize,
    pub theme: Theme,
    pub ai_cfg: AiConfig,
    pub ai_token: Option<Seq<char>>,
    pub ai_active: bool,
    pub ai_overlay: Option<Seq<char>>,
    pub ai_results: Map<Seq<char>, AiStatus>,
}

impl AppModel {
    pub open spec fn n(self) -> int {
        self.entries.len() as int
    }

    /// Well-formedness: one load state per entry, selection and fullscreen
    /// index inside the listing, animations at a valid frame.
    pub open spec fn wf(self) -> bool {
        &&& self.loads.len() == self.entries.len()
        &&& self.entries.len() <= usize::MAX
        &&& if self.entries.len() == 0 {
            self.selected == 0
        } else {
            self.selected < self.entries.len()
        }
        &&& (self.fullscreen_idx matches Some(i) ==> i < self.entries.len())
        &&& forall|i: int|
            0 <= i < self.loads.len() ==> ((#[trigger] self.loads[i]).anim matches Some(a) ==> a.wf())
    }

    pub open spec fn move_linear(self, delta: int) -> AppModel {
        if self.entries.len() == 0 {
            self
        } else {
            let v = self.selected + delta;
            let c = if v < 0 {
                0
            } else if v > self.n() - 1 {
                self.n() - 1
            } else {
                v
            };
            AppModel { selected: c as usize, ..self }
        }
    }

    pub open spec fn select_first(self) -> AppModel {
        if self.entries.len() == 0 {
            self
        } else {
            AppModel { selected: 0, ..self }
        }
    }

    pub open spec fn select_last(self) -> AppModel {
        if self.entries.len() == 0 {
            self
        } else {
            AppModel { selected: (self.n() - 1) as usize, ..self }
        }
    }

    /// Entries per vertical step: a grid row, or one list line.
    pub open spec fn vert_step(self) -> int {
        match self.view {
            ViewMode::Grid => if self.last_grid_cols == 0 {
                1
            } else {
                self.last_grid_cols as int
            },
            ViewMode::List => 1,
        }
    }

    pub open spec fn move_vert(self, delta: int) -> AppModel {
        self.move_linear(delta * self.vert_step())
    }

    pub open spec fn move_horiz(self, delta: int) -> AppModel {
        if self.view == ViewMode::Grid {
            self.move_linear(delta)
        } else {
            self
        }
    }

    pub open spec fn page(self, dir: int) -> AppModel {
        match self.view {
            ViewMode::Grid => self.move_vert(3 * dir),
            ViewMode::List => self.move_linear(10 * dir),
        }
    }

    pub open spec fn with_load(self, i: int, l: LoadState) -> AppModel {
        AppModel { loads: self.loads.update(i, l), ..self }
    }

    /// Requesting a grid thumbnail unless it is ready, failed or in flight.
    pub open spec fn ensure_thumb(self, i: int) -> (AppModel, Seq<Req>) {
        let l = self.loads[i];
        if l.thumb || l.error is Some || l.thumb_requested {
            (self, Seq::empty())
        } else {
            (
                self.with_load(i, LoadState { thumb_requested: true, ..l }),
                seq![Req::Thumb(i as usize)],
            )
        }
    }

    /// Requesting a full load (an animation load for animated formats) unless
    /// it is ready, failed or in flight.
    pub open spec fn ensure_full(self, i: int) -> (AppModel, Seq<Req>) {
        let l = self.loads[i];
        if l.error is Some {
            (self, Seq::empty())
        } else if animated_spec(entry_path(self.entries[i])) {
            if l.anim is Some || l.anim_requested {
                (self, Seq::empty())
            } else {
                (
                    self.with_load(i, LoadState { anim_requested: true, ..l }),
                    seq![Req::Animation(i as usize)],
                )
            }
        } else {
            if l.full || l.full_requested {
                (self, Seq::empty())
            } else {
                (
                    self.with_load(i, LoadState { full_requested: true, ..l }),
                    seq![Req::Full(i as usize)],
                )
            }
        }
    }

    pub open spec fn preload_adjacent(self, cur: int, forward: bool) -> (AppModel, Seq<Req>) {
        match image_after(self.entries, cur, forward, 1) {
            Some(i) => self.ensure_full(i),
            None => (self, Seq::empty()),
        }
    }

    /// Moving the fullscreen viewer to the next image in a direction
    /// (wrapping around), loading it and preloading the one after.
    pub open spec fn fullscreen_step(self, forward: bool) -> (AppModel, Seq<Req>) {
        match self.fullscreen_idx {
            None => (self, Seq::empty()),
            Some(start) => if self.entries.len() == 0 {
                (self, Seq::empty())
            } else {
                match image_after(self.entries, start as int, forward, 1) {
                    None => (self, Seq::empty()),
                    Some(i) => {
                        let s1 = AppModel {
                            fullscreen_idx: Some(i as usize),
                            selected: i as usize,
                            ai_overlay: None,
                            ..self
                        };
                        let (s2, r1) = s1.ensure_full(i);
                        let (s3, r2) = s2.preload_adjacent(i, forward);
                        (s3, r1 + r2)
                    },
                }
            },
        }
    }

    pub open spec fn dispatch_describe(self, path: Seq<char>) -> (AppModel, Seq<Req>) {
        match self.ai_token {
            None => (
                AppModel {
                    ai_results: self.ai_results.insert(path, AiStatus::Error(AI_NO_TOKEN@)),
                    ..self
                },
                Seq::empty(),
            ),
            Some(_) => (
                AppModel { ai_results: self.ai_results.insert(path, AiStatus::Requesting), ..self },
                seq![Req::Describe(path)],
            ),
        }
    }

    /// Opening or closing the AI overlay of the fullscreen image.
    pub open spec fn toggle_ai_overlay(self) -> (AppModel, Seq<Req>) {
        if self.ai_overlay is Some {
            (AppModel { ai_overlay: None, ..self }, Seq::empty())
        } else if !self.ai_active {
            (AppModel { status: Some(AI_DISABLED_HINT@), ..self }, Seq::empty())
        } else {
            match self.fullscreen_idx {
                None => (self, Seq::empty()),
                Some(idx) => if idx < self.entries.len() && self.entries[idx as int] is Image {
                    let p = entry_path(self.entries[idx as int]);
                    let s1 = AppModel { ai_overlay: Some(p), ..self };
                    if s1.ai_results.contains_key(p) {
                        (s1, Seq::empty())
                    } else if s1.loads[idx as int].image {
                        s1.dispatch_describe(p)
                    } else {
                        AppModel {
                            ai_results: s1.ai_results.insert(p, AiStatus::AwaitingDecode),
                            ..s1
                        }.ensure_full(idx as int)
                    }
                } else {
                    (self, Seq::empty())
                },
            }
        }
    }

    /// A copy of the selected entry, if it is an image.
    pub open spec fn copy_request(self) -> Seq<Req> {
        if self.selected < self.entries.len() && self.entries[self.selected as int] is Image {
            seq![Req::Copy(self.selected)]
        } else {
            Seq::empty()
        }
    }

    /// Enter on the selection: open an image fullscreen, or enter a directory.
    pub open spec fn activate_selection(self) -> (AppModel, Seq<Req>) {
        if self.selected >= self.entries.len() {
            (self, Seq::empty())
        } else if self.entries[self.selected as int] is Image {
            AppModel {
                fullscreen_idx: Some(self.selected),
                fullscreen_bars_hidden: self.hide_bars_default,
                ..self
            }.ensure_full(self.selected as int)
        } else {
            (self, seq![Req::EnterDir(entry_path(self.entries[self.selected as int]))])
        }
    }

    pub open spec fn go_up(self) -> (AppModel, Seq<Req>) {
        match path_parent_of(self.cwd) {
            Some(p) => (self, seq![Req::EnterDir(p)]),
            None => (self, Seq::empty()),
        }
    }

    /// Key map of the fullscreen viewer.
    pub open spec fn on_key_fullscreen(self, key: KeyEvent) -> (AppModel, Seq<Req>) {
        let s = AppModel { status: None, ..self };
        let c = key.code;
        if c == KeyCode::Char('c') && key.ctrl_only {
            (AppModel { should_quit: true, ..s }, Seq::empty())
        } else if c == KeyCode::Esc || c == KeyCode::Char('q') {
            if s.ai_overlay is Some {
                (AppModel { ai_overlay: None, ..s }, Seq::empty())
            } else {
                (AppModel { fullscreen_idx: None, ..s }, Seq::empty())
            }
        } else if c == KeyCode::Left || c == KeyCode::Char('h') {
            s.fullscreen_step(false)
        } else if c == KeyCode::Right || c == KeyCode::Char('l') {
            s.fullscreen_step(true)
        } else if c == KeyCode::Char('y') {
            (s, s.copy_request())
        } else if c == KeyCode::Char('b') {
            (AppModel { fullscreen_bars_hidden: !s.fullscreen_bars_hidden, ..s }, Seq::empty())
        } else if c == KeyCode::Char('c') {
            (
                AppModel {
                    fullscreen_crop: !s.fullscreen_crop,
                    status: Some(
                        if !s.fullscreen_crop {
                            "Fill"@
                        } else {
                            "Fit"@
                        },
                    ),
                    ..s
                },
                Seq::empty(),
            )
        } else if c == KeyCode::Char('a') {
            s.toggle_ai_overlay()
        } else {
            (s, Seq::empty())
        }
    }

    /// Key map of the grid and list views.
    pub open spec fn on_key_normal(self, key: KeyEvent) -> (AppModel, Seq<Req>) {
        let was_g = self.pending_g;
        let s = AppModel { pending_g: false, status: None, ..self };
        let c = key.code;
        if c == KeyCode::Char('q') || c == KeyCode::Esc || (c == KeyCode::Char('c') && key.ctrl_only) {
            (AppModel { should_quit: true, ..s }, Seq::empty())
        } else if c == KeyCode::Tab {
            (
                AppModel {
                    view: if s.view == ViewMode::Grid {
                        ViewMode::List
                    } else {
                        ViewMode::Grid
                    },
                    ..s
                },
                Seq::empty(),
            )
        } else if c == KeyCode::Char('g') {
            if was_g {
                (s.select_first(), Seq::empty())
            } else {
                (AppModel { pending_g: true, ..s }, Seq::empty())
            }
        } else if c == KeyCode::Char('G') {
            (s.select_last(), Seq::empty())
        } else if c == KeyCode::Char('h') || c == KeyCode::Left {
            (s.move_horiz(-1), Seq::empty())
        } else if c == KeyCode::Char('l') || c == KeyCode::Right {
            (s.move_horiz(1), Seq::empty())
        } else if c == KeyCode::Char('j') || c == KeyCode::Down {
            (s.move_vert(1), Seq::empty())
        } else if c == KeyCode::Char('k') || c == KeyCode::Up {
            (s.move_vert(-1), Seq::empty())
        } else if c == KeyCode::PageDown {
            (s.page(1), Seq::empty())
        } else if c == KeyCode::PageUp {
            (s.page(-1), Seq::empty())
        } else if c == KeyCode::Home {
            (s.select_first(), Seq::empty())
        } else if c == KeyCode::End {
            (s.select_last(), Seq::empty())
        } else if c == KeyCode::Enter {
            s.activate_selection()
        } else if c == KeyCode::Backspace {
            s.go_up()
        } else if c == KeyCode::Char('y') {
            (s, s.copy_request())
        } else {
            (s, Seq::empty())
        }
    }

    /// The entry index of the first entry with path `p` has its decoded image kept.
    pub open spec fn image_ready_for(self, p: Seq<char>) -> bool {
        match find_path(self.entries, p, 0) {
            Some(i) => self.loads[i].image,
            None => false,
        }
    }

    /// Recording one finished load on the entry with its path (loads for
    /// paths no longer listed are dropped).
    pub open spec fn apply_load(self, d: LoadDone, now: u64) -> AppModel {
        match find_path(self.entries, d.source_path@, 0) {
            None => self,
            Some(i) => self.with_load(i, after_load(self.loads[i], d.kind, d.payload, now)),
        }
    }

    pub open spec fn apply_loads(self, ds: Seq<LoadDone>, now: u64) -> AppModel
        decreases ds.len(),
    {
        if ds.len() == 0 {
            self
        } else {
            self.apply_loads(ds.drop_last(), now).apply_load(ds.last(), now)
        }
    }

    pub open spec fn apply_describe(self, d: DescribeDone) -> AppModel {
        AppModel {
            ai_results: self.ai_results.insert(
                d.path@,
                match d.result {
                    Ok(s) => AiStatus::Ready(s@),
                    Err(e) => AiStatus::Error(e@),
                },
            ),
            ..self
        }
    }

    pub open spec fn apply_describes(self, ds: Seq<DescribeDone>) -> AppModel
        decreases ds.len(),
    {
        if ds.len() == 0 {
            self
        } else {
            self.apply_describes(ds.drop_last()).apply_describe(ds.last())
        }
    }

    /// Recording finished describes, then dispatching the describe an open
    /// overlay was waiting on once its image is decoded.
    pub open spec fn drain_ai(self, ds: Seq<DescribeDone>) -> (AppModel, Seq<Req>, bool) {
        let s = self.apply_describes(ds);
        match s.ai_overlay {
            Some(p) => if s.ai_results.contains_key(p) && s.ai_results[p] is AwaitingDecode
                && s.image_ready_for(p) {
                let (s2, r) = s.dispatch_describe(p);
                (s2, r, true)
            } else {
                (s, Seq::empty(), ds.len() > 0)
            },
            None => (s, Seq::empty(), ds.len() > 0),
        }
    }

    /// Draining: describes first, then finished loads; reports whether
    /// anything changed.
    pub open spec fn drain(self, loads: Seq<LoadDone>, described: Seq<DescribeDone>, now: u64) -> (
        AppModel,
        Seq<Req>,
        bool,
    ) {
        let (s1, r, changed) = self.drain_ai(described);
        (s1.apply_loads(loads, now), r, if loads.len() == 0 {
            changed
        } else {
            true
        })
    }

    /// Whether any load is in flight.
    pub open spec fn pending(self) -> bool {
        exists|i: int|
            0 <= i < self.loads.len() && ((#[trigger] self.loads[i]).thumb_requested
                || self.loads[i].full_requested || self.loads[i].anim_requested)
    }

    /// The entry whose animation is on screen: the fullscreen image, once loaded as an animation.
    pub open spec fn visible_anim(self) -> Option<int> {
        match self.fullscreen_idx {
            Some(i) => if i < self.entries.len() && self.entries[i as int] is Image
                && self.loads[i as int].anim is Some {
                Some(i as int)
            } else {
                None
            },
            None => None,
        }
    }

    /// Requesting the grid thumbnails of the images among entries `lo..hi`, in order.
    pub open spec fn thumbs_in(self, lo: int, hi: int) -> (AppModel, Seq<Req>)
        decreases hi - lo,
    {
        if lo >= hi {
            (self, Seq::empty())
        } else {
            let (s1, r1) = if self.entries[lo] is Image {
                self.ensure_thumb(lo)
            } else {
                (self, Seq::empty())
            };
            let (s2, r2) = s1.thumbs_in(lo + 1, hi);
            (s2, r1 + r2)
        }
    }

    /// Laying the grid out in an area of `w` x `h` cells: remembering the
    /// column count and scrolling so the selection stays visible.
    pub open spec fn fit_grid(self, w: u16, h: u16) -> (AppModel, Option<GridFrame>) {
        if w < GRID_CELL_W || h < GRID_CELL_H {
            (self, None)
        } else {
            let cols = grid_cols(w);
            let rows = grid_rows(h);
            let scroll = grid_scroll(self.n(), self.selected as int, self.grid_scroll_row as int, cols, rows);
            let first = scroll * cols;
            let last = if (scroll + rows) * cols < self.n() {
                (scroll + rows) * cols
            } else {
                self.n()
            };
            (
                AppModel { last_grid_cols: cols as u16, grid_scroll_row: scroll as usize, ..self },
                Some(
                    GridFrame {
                        cols: cols as u16,
                        rows_visible: rows as usize,
                        first_visible: first as usize,
                        last_visible: last as usize,
                    },
                ),
            )
        }
    }

    /// An open viewer is on an entry that is an image.
    pub open spec fn viewer_on_image(self) -> bool {
        self.fullscreen_idx matches Some(i) ==> i < self.entries.len() && self.entries[i as int] is Image
    }

    /// What a key press does: the fullscreen key map while the viewer is open,
    /// else the grid/list key map.
    pub open spec fn on_key(self, key: KeyEvent) -> (AppModel, Seq<Req>) {
        if self.fullscreen_idx is Some {
            self.on_key_fullscreen(key)
        } else {
            self.on_key_normal(key)
        }
    }
}


/// A key press without modifiers.
pub open spec fn plain(code: KeyCode) -> KeyEvent {
    KeyEvent { code, ctrl_only: false }
}

/// `g g` in the grid or list selects the first entry and leaves nothing pending.
pub proof fn lemma_gg_selects_first(m: AppModel)
    requires
        m.wf(),
        m.fullscreen_idx is None,
        !m.pending_g,
        m.entries.len() > 0,
    ensures
        m.on_key(plain(KeyCode::Char('g'))).0.on_key(plain(KeyCode::Char('g'))).0.selected == 0,
        !m.on_key(plain(KeyCode::Char('g'))).0.on_key(plain(KeyCode::Char('g'))).0.pending_g,
{
}

/// Tab twice returns to the view it started from.
pub proof fn lemma_tab_twice_restores_view(m: AppModel)
    requires
        m.fullscreen_idx is None,
    ensures
        m.on_key(plain(KeyCode::Tab)).0.on_key(plain(KeyCode::Tab)).0.view == m.view,
{
}

/// `q`, Esc or Ctrl-C outside the viewer quits.
pub proof fn lemma_q_quits(m: AppModel, key: KeyEvent)
    requires
        m.fullscreen_idx is None,
        key.code == KeyCode::Char('q') || key.code == KeyCode::Esc || (key.code == KeyCode::Char(
            'c',
        ) && key.ctrl_only),
    ensures
        m.on_key(key).0.should_quit,
        m.on_key(key).1 == Seq::<Req>::empty(),
{
}

/// Ctrl-C quits from the viewer too, leaving fill mode as it was.
pub proof fn lemma_ctrl_c_quits_viewer(m: AppModel)
    requires
        m.fullscreen_idx is Some,
    ensures
        m.on_key(KeyEvent { code: KeyCode::Char('c'), ctrl_only: true }).0.should_quit,
        m.on_key(KeyEvent { code: KeyCode::Char('c'), ctrl_only: true }).0.fullscreen_crop
            == m.fullscreen_crop,
        m.on_key(KeyEvent { code: KeyCode::Char('c'), ctrl_only: true }).1 == Seq::<Req>::empty(),
{
}

/// In the viewer, Esc first closes an open overlay, and a second Esc leaves
/// the viewer.
pub proof fn lemma_esc_closes_overlay_then_viewer(m: AppModel)
    requires
        m.fullscreen_idx is Some,
        m.ai_overlay is Some,
    ensures
        m.on_key(plain(KeyCode::Esc)).0.ai_overlay is None,
        m.on_key(plain(KeyCode::Esc)).0.fullscreen_idx == m.fullscreen_idx,
        m.on_key(plain(KeyCode::Esc)).0.on_key(plain(KeyCode::Esc)).0.fullscreen_idx is None,
{
}

/// Toggling bars, or fill mode, twice restores the setting.
pub proof fn lemma_viewer_toggles_are_involutions(m: AppModel)
    requires
        m.fullscreen_idx is Some,
    ensures
        m.on_key(plain(KeyCode::Char('b'))).0.on_key(plain(KeyCode::Char('b'))).0.fullscreen_bars_hidden
            == m.fullscreen_bars_hidden,
        m.on_key(plain(KeyCode::Char('c'))).0.on_key(plain(KeyCode::Char('c'))).0.fullscreen_crop
            == m.fullscreen_crop,
{
}

/// A thumbnail is requested at most once: asking again right after issues nothing.
pub proof fn lemma_ensure_thumb_once(m: AppModel, i: int)
    requires
        m.wf(),
        0 <= i < m.entries.len(),
    ensures
        m.ensure_thumb(i).0.ensure_thumb(i).0 == m.ensure_thumb(i).0,
        m.ensure_thumb(i).0.ensure_thumb(i).1 == Seq::<Req>::empty(),
{
}

/// A full (or animation) load is requested at most once: asking again right
/// after issues nothing.
pub proof fn lemma_ensure_full_once(m: AppModel, i: int)
    requires
        m.wf(),
        0 <= i < m.entries.len(),
    ensures
        m.ensure_full(i).0.ensure_full(i).0 == m.ensure_full(i).0,
        m.ensure_full(i).0.ensure_full(i).1 == Seq::<Req>::empty(),
{
}

proof fn lemma_image_after_is_image(es: Seq<Entry>, start: int, forward: bool, k: nat)
    requires
        image_after(es, start, forward, k) is Some,
        0 <= start < es.len(),
    ensures
        ({
            let i = image_after(es, start, forward, k).unwrap();
            0 <= i < es.len() && es[i] is Image
        }),
    decreases es.len() + 1 - k,
{
    lemma_ring_walk_in_range(start, k, forward, es.len() as int);
    if !(k > es.len() || k == 0) && !(es[ring_walk(start, k, forward, es.len() as int)] is Image) {
        lemma_image_after_is_image(es, start, forward, k + 1);
    }
}

proof fn lemma_ring_walk_in_range(start: int, k: nat, forward: bool, n: int)
    requires
        0 <= start < n,
    ensures
        0 <= ring_walk(start, k, forward, n) < n,
    decreases k,
{
    if k > 0 {
        lemma_ring_walk_in_range(start, (k - 1) as nat, forward, n);
    }
}

proof fn lemma_ensure_full_frame(m: AppModel, i: int)
    requires
        0 <= i < m.loads.len(),
    ensures
        m.ensure_full(i).0 == (AppModel { loads: m.ensure_full(i).0.loads, ..m }),
        m.ensure_full(i).0.loads.len() == m.loads.len(),
{
}

/// Stepping in the viewer always lands on an image, which becomes the selection.
pub proof fn lemma_step_lands_on_image(m: AppModel, forward: bool)
    requires
        m.wf(),
        m.fullscreen_idx is Some,
    ensures
        ({
            let m2 = m.fullscreen_step(forward).0;
            &&& m2.entries == m.entries
            &&& m2.fullscreen_idx != m.fullscreen_idx ==> (m2.fullscreen_idx matches Some(i) && i
                < m2.entries.len() && m2.entries[i as int] is Image && m2.selected == i)
        }),
{
    let start = m.fullscreen_idx.unwrap() as int;
    if m.entries.len() > 0 {
        if image_after(m.entries, start, forward, 1) is Some {
            lemma_image_after_is_image(m.entries, start, forward, 1);
            let i = image_after(m.entries, start, forward, 1).unwrap();
            let s1 = AppModel {
                fullscreen_idx: Some(i as usize),
                selected: i as usize,
                ai_overlay: None,
                ..m
            };
            lemma_ensure_full_frame(s1, i);
            let s2 = s1.ensure_full(i).0;
            match image_after(s2.entries, i, forward, 1) {
                Some(j) => {
                    lemma_image_after_is_image(s2.entries, i, forward, 1);
                    lemma_ensure_full_frame(s2, j);
                },
                None => {},
            }
        }
    }
}

/// Whatever key is pressed, an open viewer shows an image: the viewer index
/// stays on an entry that is an image (or the viewer closes).
pub proof fn lemma_key_keeps_viewer_on_image(m: AppModel, key: KeyEvent)
    requires
        m.wf(),
        m.viewer_on_image(),
    ensures
        m.on_key(key).0.viewer_on_image(),
        m.on_key(key).0.entries == m.entries,
{
    if m.fullscreen_idx is Some {
        lemma_viewer_key_keeps_image(m, key);
    } else {
        lemma_normal_key_keeps_image(m, key);
    }
}

proof fn lemma_viewer_key_keeps_image(m: AppModel, key: KeyEvent)
    requires
        m.wf(),
        m.viewer_on_image(),
        m.fullscreen_idx is Some,
    ensures
        m.on_key_fullscreen(key).0.viewer_on_image(),
        m.on_key_fullscreen(key).0.entries == m.entries,
{
    let s = AppModel { status: None, ..m };
    let c = key.code;
    if c == KeyCode::Char('c') && key.ctrl_only {
    } else if c == KeyCode::Esc || c == KeyCode::Char('q') {
    } else if c == KeyCode::Left || c == KeyCode::Char('h') {
        lemma_step_lands_on_image(s, false);
    } else if c == KeyCode::Right || c == KeyCode::Char('l') {
        lemma_step_lands_on_image(s, true);
    } else if c == KeyCode::Char('a') {
        lemma_overlay_keeps_image(s);
    }
}

proof fn lemma_overlay_keeps_image(s: AppModel)
    requires
        s.wf(),
        s.viewer_on_image(),
        s.fullscreen_idx is Some,
    ensures
        s.toggle_ai_overlay().0.viewer_on_image(),
        s.toggle_ai_overlay().0.entries == s.entries,
{
    let idx = s.fullscreen_idx.unwrap() as int;
    if s.ai_overlay is None && s.ai_active {
        let p = entry_path(s.entries[idx]);
        let s1 = AppModel { ai_overlay: Some(p), ..s };
        let s2 = AppModel { ai_results: s1.ai_results.insert(p, AiStatus::AwaitingDecode), ..s1 };
        lemma_ensure_full_frame(s2, idx);
    }
}

proof fn lemma_normal_key_keeps_image(m: AppModel, key: KeyEvent)
    requires
        m.wf(),
        m.fullscreen_idx is None,
    ensures
        m.on_key_normal(key).0.viewer_on_image(),
        m.on_key_normal(key).0.entries == m.entries,
{
    let s = AppModel { pending_g: false, status: None, ..m };
    if key.code == KeyCode::Enter && s.selected < s.entries.len()
        && s.entries[s.selected as int] is Image {
        let s1 = AppModel {
            fullscreen_idx: Some(s.selected),
            fullscreen_bars_hidden: s.hide_bars_default,
            ..s
        };
        lemma_ensure_full_frame(s1, s.selected as int);
    }
}

/// Pressing `a` on an image that already has a describe state re-opens the
/// overlay without a new request, and pressing it again closes the overlay.
pub proof fn lemma_reopen_overlay_without_request(m: AppModel)
    requires
        m.fullscreen_idx matches Some(i) && i < m.entries.len() && m.entries[i as int] is Image
            && m.ai_results.contains_key(entry_path(m.entries[i as int])),
        m.ai_overlay is None,
        m.ai_active,
    ensures
        m.on_key(plain(KeyCode::Char('a'))).0.ai_overlay == Some(
            entry_path(m.entries[m.fullscreen_idx.unwrap() as int]),
        ),
        m.on_key(plain(KeyCode::Char('a'))).1 == Seq::<Req>::empty(),
        m.on_key(plain(KeyCode::Char('a'))).0.ai_results == m.ai_results,
        m.on_key(plain(KeyCode::Char('a'))).0.on_key(plain(KeyCode::Char('a'))).0.ai_overlay is None,
{
}

/// A finished load of a listed entry is no longer in flight, and a failed one
/// is remembered with its message.
pub proof fn lemma_finished_load_not_in_flight(m: AppModel, d: LoadDone, now: u64)
    requires
        m.wf(),
        find_path(m.entries, d.source_path@, 0) is Some,
    ensures
        ({
            let i = find_path(m.entries, d.source_path@, 0).unwrap();
            let l = m.apply_load(d, now).loads[i];
            &&& d.kind == LoadKind::Thumb ==> !l.thumb_requested
            &&& d.kind == LoadKind::Full ==> !l.full_requested
            &&& d.kind == LoadKind::Animation ==> !l.anim_requested
            &&& d.payload matches Err(msg) ==> l.error == Some(msg)
        }),
{
    lemma_find_path_in_range(m.entries, d.source_path@, 0);
}

proof fn lemma_find_path_in_range(es: Seq<Entry>, p: Seq<char>, i: nat)
    ensures
        find_path(es, p, i) matches Some(k) ==> 0 <= k < es.len() && entry_path(es[k]) == p,
    decreases es.len() - i,
{
    if i < es.len() && entry_path(es[i as int]) != p {
        lemma_find_path_in_range(es, p, i + 1);
    }
}

/// A finished describe is what the overlay shows for its path.
pub proof fn lemma_describe_result_recorded(m: AppModel, d: DescribeDone)
    ensures
        m.apply_describe(d).ai_results.contains_key(d.path@),
        d.result matches Ok(s) ==> m.apply_describe(d).ai_results[d.path@] == AiStatus::Ready(s@),
        d.result matches Err(e) ==> m.apply_describe(d).ai_results[d.path@] == AiStatus::Error(e@),
{
}

/// In the grid, `j` moves down one row of `last_grid_cols` entries when there is one.
pub proof fn lemma_j_moves_one_row(m: AppModel)
    requires
        m.wf(),
        m.fullscreen_idx is None,
        m.view == ViewMode::Grid,
        m.last_grid_cols >= 1,
        m.selected + m.last_grid_cols < m.entries.len(),
    ensures
        m.on_key(plain(KeyCode::Char('j'))).0.selected == m.selected + m.last_grid_cols,
{
    let s = AppModel { pending_g: false, status: None, ..m };
    assert(s.vert_step() == m.last_grid_cols as int);
    assert(1 * s.vert_step() == m.last_grid_cols as int);
    assert(s.move_vert(1).selected == m.selected + m.last_grid_cols);
}

/// In the list view, PageUp moves the selection ten lines up and PageDown
/// ten lines down, stopping at the first and the last entry.
pub proof fn lemma_list_paging(m: AppModel)
    requires
        m.wf(),
        m.fullscreen_idx is None,
        m.view == ViewMode::List,
        m.entries.len() > 0,
    ensures
        m.on_key(plain(KeyCode::PageUp)).0.selected == (if m.selected >= 10 {
            m.selected - 10
        } else {
            0
        }),
        m.on_key(plain(KeyCode::PageDown)).0.selected == (if m.selected + 10 < m.entries.len() {
            m.selected + 10
        } else {
            m.entries.len() - 1
        }),
        m.on_key(plain(KeyCode::PageUp)).0.selected <= m.selected,
        m.on_key(plain(KeyCode::PageDown)).0.selected >= m.selected,
{
}

/// In the grid, PageUp moves the selection three rows up and PageDown three
/// rows down, stopping at the first and the last entry.
pub proof fn lemma_grid_paging(m: AppModel)
    requires
        m.wf(),
        m.fullscreen_idx is None,
        m.view == ViewMode::Grid,
        m.last_grid_cols >= 1,
        m.entries.len() > 0,
    ensures
        m.on_key(plain(KeyCode::PageUp)).0.selected == (if m.selected >= 3 * m.last_grid_cols {
            m.selected - 3 * m.last_grid_cols
        } else {
            0
        }),
        m.on_key(plain(KeyCode::PageDown)).0.selected == (if m.selected + 3 * m.last_grid_cols
            < m.entries.len() {
            m.selected + 3 * m.last_grid_cols
        } else {
            m.entries.len() - 1
        }),
{
    let s = AppModel { pending_g: false, status: None, ..m };
    assert(s.vert_step() == m.last_grid_cols as int);
    assert(3 * 1 * s.vert_step() == 3 * m.last_grid_cols);
    assert(3 * -1 * s.vert_step() == -3 * m.last_grid_cols);
}

proof fn lemma_find_path_first(es: Seq<Entry>, p: Seq<char>, i: int, k: nat)
    requires
        k <= i < es.len(),
        entry_path(es[i]) == p,
        forall|j: int| k <= j < i ==> entry_path(#[trigger] es[j]) != p,
    ensures
        find_path(es, p, k) == Some(i),
    decreases i - k,
{
    if k < i {
        lemma_find_path_first(es, p, i, k + 1);
    }
}

/// A finished full (or animation) load records the original size it reports
/// on the first entry with the load's path, marks what became ready, and
/// leaves every other entry's load state as it was.
pub proof fn lemma_full_load_records_dims(m: AppModel, d: LoadDone, now: u64, i: int)
    requires
        m.wf(),
        0 <= i < m.entries.len(),
        entry_path(m.entries[i]) == d.source_path@,
        forall|j: int| 0 <= j < i ==> entry_path(#[trigger] m.entries[j]) != d.source_path@,
    ensures
        d.payload matches Ok(LoadPayload::Full { original_dims }) ==> {
            &&& m.apply_load(d, now).loads[i].dims == Some(original_dims)
            &&& m.apply_load(d, now).loads[i].full
            &&& m.apply_load(d, now).loads[i].image
        },
        d.payload matches Ok(LoadPayload::Animation { original_dims, .. }) ==> {
            &&& m.apply_load(d, now).loads[i].dims == Some(original_dims)
            &&& m.apply_load(d, now).loads[i].anim matches Some(a) && a.original_dims
                == original_dims && a.current == 0
        },
        d.payload is Err ==> m.apply_load(d, now).loads[i].dims == m.loads[i].dims,
        forall|j: int| 0 <= j < m.loads.len() && j != i ==> m.apply_load(d, now).loads[j] == m.loads[j],
        m.apply_load(d, now).entries == m.entries,
        m.apply_load(d, now).loads.len() == m.loads.len(),
{
    lemma_find_path_first(m.entries, d.source_path@, i, 0);
}

/// The gallery's state.
pub struct App {
    /// Current working directory.
    pub cwd: String,
    /// Entries in the current directory: parent + subdirs + images.
    pub entries: Vec<Entry>,
    /// Load progress, one per entry.
    pub loads: Vec<LoadState>,
    /// Currently selected entry index.
    pub selected: usize,
    /// Active view mode (toggled with Tab).
    pub view: ViewMode,
    /// When `Some`, the fullscreen viewer shows this entry index.
    pub fullscreen_idx: Option<usize>,
    /// Config default for whether bars start hidden on fullscreen entry.
    pub hide_bars_default: bool,
    /// Hide header/status bars while in fullscreen.
    pub fullscreen_bars_hidden: bool,
    /// Crop the fullscreen image to fill the area instead of letterboxing it.
    pub fullscreen_crop: bool,
    /// Vim "gg": true after a first `g`; cleared on the next key.
    pub pending_g: bool,
    pub should_quit: bool,
    /// Status-bar message (transient feedback).
    pub status: Option<String>,
    /// Whether the UI needs to be redrawn.
    pub dirty: bool,
    /// Number of grid columns last laid out; `j`/`k` move by a row of them.
    pub last_grid_cols: u16,
    /// Top row offset of the grid view's vertical scroll.
    pub grid_scroll_row: usize,
    /// Color palette.
    pub theme: Theme,
    pub ai_cfg: AiConfig,
    pub ai_token: Option<String>,
    /// The AI feature is enabled and a token is known.
    pub ai_active: bool,
    /// When `Some`, the describe overlay is shown for this path.
    pub ai_overlay: Option<String>,
    /// Describe states by image path, latest last.
    pub ai_results: Vec<(String, AiState)>,
}

impl View for App {
    type V = AppModel;

    open spec fn view(&self) -> AppModel {
        AppModel {
            cwd: self.cwd@,
            entries: self.entries@,
            loads: self.loads@,
            selected: self.selected,
            view: self.view,
            fullscreen_idx: self.fullscreen_idx,
            hide_bars_default: self.hide_bars_default,
            fullscreen_bars_hidden: self.fullscreen_bars_hidden,
            fullscreen_crop: self.fullscreen_crop,
            pending_g: self.pending_g,
            should_quit: self.should_quit,
            status: opt_str(self.status),
            dirty: self.dirty,
            last_grid_cols: self.last_grid_cols,
            grid_scroll_row: self.grid_scroll_row,
            theme: self.theme,
            ai_cfg: self.ai_cfg,
            ai_token: opt_str(self.ai_token),
            ai_active: self.ai_active,
            ai_overlay: opt_str(self.ai_overlay),
            ai_results: ai_map(self.ai_results@),
        }
    }
}

/// Returns the index of the first entry that is selectable on entry into a
/// directory: prefer the first image, then the first subdir, else 0.
pub fn first_selectable(entries: &[Entry]) -> (r: usize)
    ensures
        r == first_selectable_spec(entries@),
        entries@.len() > 0 ==> r < entries@.len(),
{
    let n = entries.len();
    let mut i: usize = 0;
    while i < n
        invariant
            i <= n == entries@.len(),
            first_kind(entries@, true, 0) == first_kind(entries@, true, i as nat),
        decreases n - i,
    {
        if entries[i].is_image() {
            return i;
        }
        i = i + 1;
    }
    let mut j: usize = 0;
    while j < n
        invariant
            j <= n == entries@.len(),
            first_kind(entries@, true, 0) is None,
            first_kind(entries@, false, 0) == first_kind(entries@, false, j as nat),
        decreases n - j,
    {
        match &entries[j] {
            Entry::SubDir { .. } => {
                return j;
            },
            _ => {},
        }
        j = j + 1;
    }
    0
}

fn fresh_loads(n: usize) -> (r: Vec<LoadState>)
    ensures
        r@.len() == n,
        forall|i: int| 0 <= i < n ==> #[trigger] r@[i] == fresh_load(),
{
    let mut v: Vec<LoadState> = Vec::new();
    let mut i: usize = 0;
    while i < n
        invariant
            i <= n,
            v@.len() == i,
            forall|k: int| 0 <= k < i ==> #[trigger] v@[k] == fresh_load(),
        decreases n - i,
    {
        v.push(LoadState::new());
        i = i + 1;
    }
    v
}


proof fn lemma_with_load_wf(m: AppModel, i: int, l: LoadState)
    requires
        m.wf(),
        0 <= i < m.loads.len(),
        l.anim matches Some(a) ==> a.wf(),
    ensures
        m.with_load(i, l).wf(),
{
    let m2 = m.with_load(i, l);
    assert forall|k: int| 0 <= k < m2.loads.len() implies ((#[trigger] m2.loads[k]).anim matches Some(
        a,
    ) ==> a.wf()) by {
        if k != i {
            assert(m2.loads[k] == m.loads[k]);
        }
    }
}

impl App {
    /// A gallery showing `entries`, the listing of `start_dir`, in grid view.
    pub fn new(
        start_dir: String,
        entries: Vec<Entry>,
        theme: Theme,
        hide_bars_default: bool,
        ai_cfg: AiConfig,
        ai_token: Option<String>,
        ai_active: bool,
    ) -> (app: App)
        ensures
            app@.wf(),
            app@.cwd == start_dir@,
            app@.entries == entries@,
            forall|i: int| 0 <= i < entries@.len() ==> #[trigger] app@.loads[i] == fresh_load(),
            app@.selected == first_selectable_spec(entries@),
            app@.view == ViewMode::Grid,
            app@.fullscreen_idx is None,
            app@.hide_bars_default == hide_bars_default,
            app@.fullscreen_bars_hidden == hide_bars_default,
            !app@.fullscreen_crop,
            !app@.pending_g,
            !app@.should_quit,
            app@.status is None,
            app@.dirty,
            app@.last_grid_cols == 1,
            app@.grid_scroll_row == 0,
            app@.theme == theme,
            app@.ai_cfg == ai_cfg,
            app@.ai_token == opt_str(ai_token),
            app@.ai_active == ai_active,
            app@.ai_overlay is None,
            app@.ai_results == Map::<Seq<char>, AiStatus>::empty(),
    {
        let selected = first_selectable(entries.as_slice());
        let loads = fresh_loads(entries.len());
        let app = App {
            cwd: start_dir,
            entries,
            loads,
            selected,
            view: ViewMode::Grid,
            fullscreen_idx: None,
            hide_bars_default,
            fullscreen_bars_hidden: hide_bars_default,
            fullscreen_crop: false,
            pending_g: false,
            should_quit: false,
            status: None,
            dirty: true,
            last_grid_cols: 1,
            grid_scroll_row: 0,
            theme,
            ai_cfg,
            ai_token,
            ai_active,
            ai_overlay: None,
            ai_results: Vec::new(),
        };
        assert(app@.loads.len() == app@.entries.len());
        assert(ai_map(app.ai_results@) =~= Map::<Seq<char>, AiStatus>::empty());
        app
    }

    /// Switch to the listing `entries` of directory `path`. Forgets every
    /// per-directory load and closes the viewer and overlay; describe
    /// results are kept.
    pub fn enter_dir(&mut self, path: String, entries: Vec<Entry>)
        requires
            old(self)@.wf(),
        ensures
            final(self)@.wf(),
            final(self)@ == (AppModel {
                cwd: path@,
                entries: entries@,
                loads: final(self)@.loads,
                selected: first_selectable_spec(entries@) as usize,
                fullscreen_idx: None,
                ai_overlay: None,
                status: None,
                grid_scroll_row: 0,
                ..old(self)@
            }),
            final(self)@.loads.len() == entries@.len(),
            forall|i: int| 0 <= i < entries@.len() ==> #[trigger] final(self)@.loads[i] == fresh_load(),
            !final(self)@.pending(),
    {
        let selected = first_selectable(entries.as_slice());
        let loads = fresh_loads(entries.len());
        self.cwd = path;
        self.selected = selected;
        self.entries = entries;
        self.loads = loads;
        self.fullscreen_idx = None;
        self.ai_overlay = None;
        self.status = None;
        self.grid_scroll_row = 0;
        assert(!self@.pending()) by {
            assert forall|i: int| 0 <= i < self@.loads.len() implies !((#[trigger] self@.loads[i]).thumb_requested
                || self@.loads[i].full_requested || self@.loads[i].anim_requested) by {
                assert(self@.loads[i] == fresh_load());
            }
        }
    }

    /// The selected entry, if the listing is not empty.
    pub fn selected_entry(&self) -> (r: Option<&Entry>)
        ensures
            self.selected < self.entries@.len() ==> r == Some(&self.entries@[self.selected as int]),
            self.selected >= self.entries@.len() ==> r is None,
    {
        if self.selected < self.entries.len() {
            Some(&self.entries[self.selected])
        } else {
            None
        }
    }

    /// Linear move of the selection by `delta`, clamped to the entry range.
    pub fn move_linear(&mut self, delta: isize)
        requires
            old(self)@.wf(),
        ensures
            final(self)@ == old(self)@.move_linear(delta as int),
            final(self)@.wf(),
    {
        if self.entries.len() == 0 {
            return;
        }
        let n = self.entries.len();
        let sel = self.selected;
        let new = if delta < 0 {
            let d: usize = ((-(delta + 1)) as usize) + 1;
            if d >= sel {
                0
            } else {
                sel - d
            }
        } else {
            let d: usize = delta as usize;
            if d >= n - 1 - sel {
                n - 1
            } else {
                sel + d
            }
        };
        self.selected = new;
    }

    pub fn select_first(&mut self)
        requires
            old(self)@.wf(),
        ensures
            final(self)@ == old(self)@.select_first(),
            final(self)@.wf(),
    {
        if self.entries.len() > 0 {
            self.selected = 0;
        }
    }

    pub fn select_last(&mut self)
        requires
            old(self)@.wf(),
        ensures
            final(self)@ == old(self)@.select_last(),
            final(self)@.wf(),
    {
        if self.entries.len() > 0 {
            self.selected = self.entries.len() - 1;
        }
    }

    /// Grid: jump a row's worth of entries. List: single step.
    fn move_vert(&mut self, delta: isize)
        requires
            old(self)@.wf(),
            -3 <= delta <= 3,
        ensures
            final(self)@ == old(self)@.move_vert(delta as int),
            final(self)@.wf(),
    {
        let step: isize = match self.view {
            ViewMode::Grid => if self.last_grid_cols == 0 {
                1
            } else {
                self.last_grid_cols as isize
            },
            ViewMode::List => 1,
        };
        assert(-3 * 65535 <= delta * step <= 3 * 65535) by (nonlinear_arith)
            requires
                -3 <= delta <= 3,
                1 <= step <= 65535,
        ;
        self.move_linear(delta * step);
    }

    /// List mode has no horizontal navigation.
    fn move_horiz(&mut self, delta: isize)
        requires
            old(self)@.wf(),
        ensures
            final(self)@ == old(self)@.move_horiz(delta as int),
            final(self)@.wf(),
    {
        if self.view == ViewMode::Grid {
            self.move_linear(delta);
        }
    }

    fn page(&mut self, dir: isize)
        requires
            old(self)@.wf(),
            -1 <= dir <= 1,
        ensures
            final(self)@ == old(self)@.page(dir as int),
            final(self)@.wf(),
    {
        match self.view {
            ViewMode::Grid => self.move_vert(3 * dir),
            ViewMode::List => self.move_linear(10 * dir),
        }
    }

    /// Request a grid thumbnail load if it isn't already in progress or done.
    pub fn ensure_thumb(&mut self, i: usize) -> (r: Option<Request>)
        requires
            old(self)@.wf(),
            i < old(self)@.entries.len(),
        ensures
            final(self)@ == old(self)@.ensure_thumb(i as int).0,
            opt_req(r) == old(self)@.ensure_thumb(i as int).1,
            final(self)@.wf(),
    {
        if self.loads[i].thumb || self.loads[i].error.is_some() || self.loads[i].thumb_requested {
            return None;
        }
        proof {
            lemma_with_load_wf(self@, i as int, LoadState { thumb_requested: true, ..self.loads@[i as int] });
        }
        self.loads[i].thumb_requested = true;
        Some(Request::Thumb(i))
    }

    /// Request a full-resolution load if it isn't already in progress or
    /// done. Animated formats go to the animation loader instead.
    pub fn ensure_full(&mut self, i: usize) -> (r: Option<Request>)
        requires
            old(self)@.wf(),
            i < old(self)@.entries.len(),
        ensures
            final(self)@ == old(self)@.ensure_full(i as int).0,
            opt_req(r) == old(self)@.ensure_full(i as int).1,
            final(self)@.wf(),
    {
        if self.loads[i].error.is_some() {
            return None;
        }
        let animated = is_animated_path(self.entries[i].path().as_str());
        assert(animated == animated_spec(entry_path(self.entries@[i as int])));
        if animated {
            if self.loads[i].anim.is_some() || self.loads[i].anim_requested {
                return None;
            }
            proof {
                lemma_with_load_wf(self@, i as int, LoadState { anim_requested: true, ..self.loads@[i as int] });
            }
            self.loads[i].anim_requested = true;
            Some(Request::Animation(i))
        } else {
            if self.loads[i].full || self.loads[i].full_requested {
                return None;
            }
            proof {
                lemma_with_load_wf(self@, i as int, LoadState { full_requested: true, ..self.loads@[i as int] });
            }
            self.loads[i].full_requested = true;
            Some(Request::Full(i))
        }
    }

    /// Preload the next image in the given direction from `cur`, so it is
    /// ready if the user keeps going that way.
    fn preload_adjacent(&mut self, cur: usize, forward: bool) -> (r: Option<Request>)
        requires
            old(self)@.wf(),
            cur < old(self)@.entries.len(),
        ensures
            final(self)@ == old(self)@.preload_adjacent(cur as int, forward).0,
            opt_req(r) == old(self)@.preload_adjacent(cur as int, forward).1,
            final(self)@.wf(),
    {
        match find_image_after(self.entries.as_slice(), cur, forward) {
            Some(i) => self.ensure_full(i),
            None => None,
        }
    }

    /// Move the fullscreen viewer to the next image in a direction, wrapping
    /// around; load it, preload the one after it and dismiss the overlay.
    fn fullscreen_step(&mut self, forward: bool) -> (r: Vec<Request>)
        requires
            old(self)@.wf(),
        ensures
            final(self)@ == old(self)@.fullscreen_step(forward).0,
            reqs(r@) == old(self)@.fullscreen_step(forward).1,
            final(self)@.wf(),
    {
        let start = match self.fullscreen_idx {
            Some(s) => s,
            None => {
                let v: Vec<Request> = Vec::new();
                assert(reqs(v@) =~= Seq::<Req>::empty());
                return v;
            },
        };
        if self.entries.len() == 0 {
            let v: Vec<Request> = Vec::new();
            assert(reqs(v@) =~= Seq::<Req>::empty());
            return v;
        }
        match find_image_after(self.entries.as_slice(), start, forward) {
            Some(i) => {
                self.fullscreen_idx = Some(i);
                self.selected = i;
                self.ai_overlay = None;
                let mut out: Vec<Request> = Vec::new();
                let r1 = self.ensure_full(i);
                push_opt_req(&mut out, r1);
                let r2 = self.preload_adjacent(i, forward);
                push_opt_req(&mut out, r2);
                assert(reqs(out@) =~= opt_req(r1) + opt_req(r2));
                out
            },
            None => {
                let v: Vec<Request> = Vec::new();
                assert(reqs(v@) =~= Seq::<Req>::empty());
                v
            },
        }
    }
}

impl App {
    fn ai_find(&self, p: &String) -> (r: Option<usize>)
        ensures
            r matches Some(k) ==> k < self.ai_results@.len() && self@.ai_results.contains_key(p@)
                && self@.ai_results[p@] == self.ai_results@[k as int].1@,
            r is None ==> !self@.ai_results.contains_key(p@),
    {
        let mut j = self.ai_results.len();
        while j > 0
            invariant
                j <= self.ai_results@.len(),
                forall|t: int| j <= t < self.ai_results@.len() ==> (#[trigger] self.ai_results@[t]).0@ != p@,
            decreases j,
        {
            if self.ai_results[j - 1].0 == *p {
                proof {
                    lemma_ai_map_lookup(self.ai_results@, p@, j - 1);
                }
                return Some(j - 1);
            }
            j = j - 1;
        }
        proof {
            lemma_ai_map_absent(self.ai_results@, p@);
        }
        None
    }

    fn ai_insert(&mut self, path: String, st: AiState)
        requires
            old(self)@.wf(),
        ensures
            final(self)@ == (AppModel {
                ai_results: old(self)@.ai_results.insert(path@, st@),
                ..old(self)@
            }),
            final(self)@.wf(),
    {
        let ghost old_items = self.ai_results@;
        self.ai_results.push((path, st));
        assert(self.ai_results@.drop_last() =~= old_items);
    }

    /// Whether the describe state of `p` is "awaiting decode".
    fn ai_awaiting(&self, p: &String) -> (r: bool)
        ensures
            r == (self@.ai_results.contains_key(p@) && self@.ai_results[p@] is AwaitingDecode),
    {
        match self.ai_find(p) {
            Some(k) => match &self.ai_results[k].1 {
                AiState::AwaitingDecode => true,
                _ => false,
            },
            None => false,
        }
    }

    fn dispatch_describe(&mut self, path: String) -> (r: Option<Request>)
        requires
            old(self)@.wf(),
        ensures
            final(self)@ == old(self)@.dispatch_describe(path@).0,
            opt_req(r) == old(self)@.dispatch_describe(path@).1,
            final(self)@.wf(),
    {
        match &self.ai_token {
            None => {
                let msg = owned(AI_NO_TOKEN);
                self.ai_insert(path, AiState::Error(msg));
                None
            },
            Some(_) => {
                let p2 = path.clone();
                self.ai_insert(path, AiState::Requesting);
                Some(Request::Describe(p2))
            },
        }
    }

    /// Toggle the AI describe overlay for the current fullscreen image.
    /// Dispatches a describe request on first open when no prior result is
    /// cached; without a decoded image yet, asks for the full load first.
    fn toggle_ai_overlay(&mut self) -> (r: Option<Request>)
        requires
            old(self)@.wf(),
        ensures
            final(self)@ == old(self)@.toggle_ai_overlay().0,
            opt_req(r) == old(self)@.toggle_ai_overlay().1,
            final(self)@.wf(),
    {
        if self.ai_overlay.is_some() {
            self.ai_overlay = None;
            return None;
        }
        if !self.ai_active {
            self.status = Some(owned(AI_DISABLED_HINT));
            return None;
        }
        let idx = match self.fullscreen_idx {
            Some(i) => i,
            None => return None,
        };
        if idx >= self.entries.len() || !self.entries[idx].is_image() {
            return None;
        }
        let p = self.entries[idx].path().clone();
        self.ai_overlay = Some(p.clone());
        if self.ai_find(&p).is_some() {
            return None;
        }
        if self.loads[idx].image {
            return self.dispatch_describe(p);
        }
        self.ai_insert(p, AiState::AwaitingDecode);
        self.ensure_full(idx)
    }

    fn copy_request(&self) -> (r: Option<Request>)
        ensures
            opt_req(r) == self@.copy_request(),
    {
        if self.selected < self.entries.len() && self.entries[self.selected].is_image() {
            Some(Request::Copy(self.selected))
        } else {
            None
        }
    }

    fn activate_selection(&mut self) -> (r: Option<Request>)
        requires
            old(self)@.wf(),
        ensures
            final(self)@ == old(self)@.activate_selection().0,
            opt_req(r) == old(self)@.activate_selection().1,
            final(self)@.wf(),
    {
        let sel = self.selected;
        if sel >= self.entries.len() {
            return None;
        }
        if self.entries[sel].is_image() {
            self.fullscreen_idx = Some(sel);
            self.fullscreen_bars_hidden = self.hide_bars_default;
            self.ensure_full(sel)
        } else {
            Some(Request::EnterDir(self.entries[sel].path().clone()))
        }
    }

    fn go_up(&self) -> (r: Option<Request>)
        ensures
            opt_req(r) == self@.go_up().1,
            self@.go_up().0 == self@,
    {
        match path_parent(self.cwd.as_str()) {
            Some(p) => Some(Request::EnterDir(p)),
            None => None,
        }
    }

    fn handle_key_fullscreen(&mut self, key: KeyEvent) -> (r: Vec<Request>)
        requires
            old(self)@.wf(),
        ensures
            final(self)@ == old(self)@.on_key_fullscreen(key).0,
            reqs(r@) == old(self)@.on_key_fullscreen(key).1,
            final(self)@.wf(),
    {
        self.status = None;
        let c = key.code;
        if c == KeyCode::Char('c') && key.ctrl_only {
            self.should_quit = true;
            one(None)
        } else if c == KeyCode::Esc || c == KeyCode::Char('q') {
            if self.ai_overlay.is_some() {
                self.ai_overlay = None;
            } else {
                self.fullscreen_idx = None;
            }
            one(None)
        } else if c == KeyCode::Left || c == KeyCode::Char('h') {
            self.fullscreen_step(false)
        } else if c == KeyCode::Right || c == KeyCode::Char('l') {
            self.fullscreen_step(true)
        } else if c == KeyCode::Char('y') {
            one(self.copy_request())
        } else if c == KeyCode::Char('b') {
            self.fullscreen_bars_hidden = !self.fullscreen_bars_hidden;
            one(None)
        } else if c == KeyCode::Char('c') {
            self.fullscreen_crop = !self.fullscreen_crop;
            self.status = Some(
                if self.fullscreen_crop {
                    owned("Fill")
                } else {
                    owned("Fit")
                },
            );
            one(None)
        } else if c == KeyCode::Char('a') {
            let r = self.toggle_ai_overlay();
            one(r)
        } else {
            one(None)
        }
    }

    /// Apply a key press: the fullscreen key map while the viewer is open,
    /// else the grid/list key map. Returns the work to perform, in order.
    pub fn handle_key(&mut self, key: KeyEvent) -> (r: Vec<Request>)
        requires
            old(self)@.wf(),
        ensures
            final(self)@ == old(self)@.on_key(key).0,
            reqs(r@) == old(self)@.on_key(key).1,
            final(self)@.wf(),
    {
        if self.fullscreen_idx.is_some() {
            return self.handle_key_fullscreen(key);
        }
        let was_pending_g = self.pending_g;
        self.pending_g = false;
        self.status = None;
        let c = key.code;
        if c == KeyCode::Char('q') || c == KeyCode::Esc || (c == KeyCode::Char('c') && key.ctrl_only) {
            self.should_quit = true;
            one(None)
        } else if c == KeyCode::Tab {
            self.view = match self.view {
                ViewMode::Grid => ViewMode::List,
                ViewMode::List => ViewMode::Grid,
            };
            one(None)
        } else if c == KeyCode::Char('g') {
            if was_pending_g {
                self.select_first();
            } else {
                self.pending_g = true;
            }
            one(None)
        } else if c == KeyCode::Char('G') {
            self.select_last();
            one(None)
        } else if c == KeyCode::Char('h') || c == KeyCode::Left {
            self.move_horiz(-1);
            one(None)
        } else if c == KeyCode::Char('l') || c == KeyCode::Right {
            self.move_horiz(1);
            one(None)
        } else if c == KeyCode::Char('j') || c == KeyCode::Down {
            self.move_vert(1);
            one(None)
        } else if c == KeyCode::Char('k') || c == KeyCode::Up {
            self.move_vert(-1);
            one(None)
        } else if c == KeyCode::PageDown {
            self.page(1);
            one(None)
        } else if c == KeyCode::PageUp {
            self.page(-1);
            one(None)
        } else if c == KeyCode::Home {
            self.select_first();
            one(None)
        } else if c == KeyCode::End {
            self.select_last();
            one(None)
        } else if c == KeyCode::Enter {
            let r = self.activate_selection();
            one(r)
        } else if c == KeyCode::Backspace {
            let r = self.go_up();
            one(r)
        } else if c == KeyCode::Char('y') {
            one(self.copy_request())
        } else {
            one(None)
        }
    }

    /// Record how a clipboard copy of the image at `idx` went, in the status line.
    pub fn finish_copy(&mut self, idx: usize, outcome: CopyOutcome)
        requires
            old(self)@.wf(),
            idx < old(self)@.entries.len(),
        ensures
            final(self)@ == (AppModel {
                status: Some(copy_status(entry_label(old(self)@.entries[idx as int]), outcome)),
                ..old(self)@
            }),
            final(self)@.wf(),
    {
        let mut msg: Vec<char> = Vec::new();
        match outcome {
            CopyOutcome::Copied => {
                push_all(&mut msg, chars_of("Copied ").as_slice());
                push_all(&mut msg, chars_of(self.entries[idx].display_name()).as_slice());
            },
            CopyOutcome::ClipboardError(e) => {
                push_all(&mut msg, chars_of("Clipboard error: ").as_slice());
                push_all(&mut msg, chars_of(e.as_str()).as_slice());
            },
            CopyOutcome::LoadError(e) => {
                push_all(&mut msg, chars_of("Could not load image: ").as_slice());
                push_all(&mut msg, chars_of(e.as_str()).as_slice());
            },
        }
        self.status = Some(string_of(msg.as_slice()));
    }
}

impl App {
    fn find_entry(&self, p: &String) -> (r: Option<usize>)
        ensures
            r matches Some(i) ==> find_path(self.entries@, p@, 0) == Some(i as int) && i
                < self.entries@.len(),
            r is None ==> find_path(self.entries@, p@, 0) is None,
    {
        let n = self.entries.len();
        let mut i: usize = 0;
        while i < n
            invariant
                i <= n == self.entries@.len(),
                find_path(self.entries@, p@, 0) == find_path(self.entries@, p@, i as nat),
            decreases n - i,
        {
            if *self.entries[i].path() == *p {
                return Some(i);
            }
            i = i + 1;
        }
        None
    }

    fn apply_load(&mut self, d: LoadDone, now: u64)
        requires
            old(self)@.wf(),
        ensures
            final(self)@ == old(self)@.apply_load(d, now),
            final(self)@.wf(),
    {
        let ghost s0 = self@;
        match self.find_entry(&d.source_path) {
            None => {},
            Some(i) => {
                assert(self.loads@[i as int].anim matches Some(a) ==> a.wf());
                update_load(&mut self.loads[i], d.kind, d.payload, now);
                proof {
                    lemma_with_load_wf(s0, i as int, self.loads@[i as int]);
                }
            },
        }
    }

    fn drain_ai(&mut self, described: Vec<DescribeDone>) -> (r: (bool, Option<Request>))
        requires
            old(self)@.wf(),
        ensures
            final(self)@ == old(self)@.drain_ai(described@).0,
            opt_req(r.1) == old(self)@.drain_ai(described@).1,
            r.0 == old(self)@.drain_ai(described@).2,
            final(self)@.wf(),
    {
        let ghost s0 = self@;
        let ghost ds = described@;
        let changed = described.len() > 0;
        for d in it: described
            invariant
                self@.wf(),
                it.seq() == ds,
                self@ == s0.apply_describes(ds.take(it.index() as int)),
        {
            proof {
                assert(ds.take(it.index() + 1).drop_last() =~= ds.take(it.index() as int));
            }
            let DescribeDone { path, result } = d;
            match result {
                Ok(text) => self.ai_insert(path, AiState::Ready(text)),
                Err(e) => self.ai_insert(path, AiState::Error(e)),
            }
        }
        proof {
            assert(ds.take(ds.len() as int) =~= ds);
        }
        let target = match &self.ai_overlay {
            Some(p) => {
                let ready = match self.find_entry(p) {
                    Some(i) => self.loads[i].image,
                    None => false,
                };
                if self.ai_awaiting(p) && ready {
                    Some(p.clone())
                } else {
                    None
                }
            },
            None => None,
        };
        match target {
            Some(p) => {
                let r = self.dispatch_describe(p);
                (true, r)
            },
            None => (changed, None),
        }
    }

    /// Take in finished describes and loads (in that order); `now` is the
    /// clock (nanoseconds) that starts new animations. Returns whether
    /// anything changed, and a describe to dispatch if an overlay was waiting
    /// on its image.
    pub fn drain_loads(
        &mut self,
        completed: Vec<LoadDone>,
        described: Vec<DescribeDone>,
        now: u64,
    ) -> (r: (bool, Vec<Request>))
        requires
            old(self)@.wf(),
        ensures
            final(self)@ == old(self)@.drain(completed@, described@, now).0,
            reqs(r.1@) == old(self)@.drain(completed@, described@, now).1,
            r.0 == old(self)@.drain(completed@, described@, now).2,
            final(self)@.wf(),
    {
        let (ai_changed, req) = self.drain_ai(described);
        let out = one(req);
        if completed.len() == 0 {
            return (ai_changed, out);
        }
        let ghost s1 = self@;
        let ghost ds = completed@;
        for d in it: completed
            invariant
                self@.wf(),
                it.seq() == ds,
                self@ == s1.apply_loads(ds.take(it.index() as int), now),
        {
            proof {
                assert(ds.take(it.index() + 1).drop_last() =~= ds.take(it.index() as int));
            }
            self.apply_load(d, now);
        }
        proof {
            assert(ds.take(ds.len() as int) =~= ds);
        }
        (true, out)
    }

    /// Returns `true` if any load is in flight.
    pub fn has_pending_loads(&self) -> (r: bool)
        ensures
            r == self@.pending(),
    {
        let n = self.loads.len();
        let mut i: usize = 0;
        while i < n
            invariant
                i <= n == self.loads@.len(),
                forall|k: int|
                    0 <= k < i ==> !((#[trigger] self.loads@[k]).thumb_requested
                        || self.loads@[k].full_requested || self.loads@[k].anim_requested),
            decreases n - i,
        {
            if self.loads[i].thumb_requested || self.loads[i].full_requested
                || self.loads[i].anim_requested {
                return true;
            }
            i = i + 1;
        }
        false
    }

    fn visible_anim_index(&self) -> (r: Option<usize>)
        requires
            self@.wf(),
        ensures
            r matches Some(i) ==> self@.visible_anim() == Some(i as int),
            r is None ==> self@.visible_anim() is None,
    {
        match self.fullscreen_idx {
            Some(i) => if i < self.entries.len() && self.entries[i].is_image()
                && self.loads[i].anim.is_some() {
                Some(i)
            } else {
                None
            },
            None => None,
        }
    }

    /// Advance the animation on screen if its frame delay has elapsed at
    /// `now`. Returns `true` if the frame changed.
    pub fn tick_animations(&mut self, now: u64) -> (r: bool)
        requires
            old(self)@.wf(),
        ensures
            final(self)@.wf(),
            match old(self)@.visible_anim() {
                Some(i) => {
                    let l = old(self)@.loads[i];
                    &&& final(self)@ == old(self)@.with_load(
                        i,
                        LoadState { anim: Some(ticked(l.anim.unwrap(), now)), ..l },
                    )
                    &&& r == l.anim.unwrap().advances_at(now)
                },
                None => final(self)@ == old(self)@ && !r,
            },
    {
        match self.visible_anim_index() {
            None => false,
            Some(i) => {
                let ghost s0 = self@;
                let mut a = self.loads[i].anim.take().unwrap();
                assert(a.wf());
                let r = a.tick(now);
                self.loads[i].anim = Some(a);
                proof {
                    lemma_with_load_wf(s0, i as int, self.loads@[i as int]);
                    assert(self.loads@ == s0.loads.update(i as int, self.loads@[i as int]));
                }
                r
            },
        }
    }

    /// The wait (nanoseconds) until the on-screen animation's next frame, if
    /// an animation is on screen.
    pub fn next_animation_tick(&self, now: u64) -> (r: Option<u64>)
        requires
            self@.wf(),
        ensures
            match self@.visible_anim() {
                Some(i) => r == Some(self@.loads[i].anim.unwrap().wait_at(now) as u64),
                None => r is None,
            },
    {
        match self.visible_anim_index() {
            None => None,
            Some(i) => match &self.loads[i].anim {
                Some(a) => Some(a.next_tick_in(now)),
                None => None,
            },
        }
    }
}

impl App {
    /// Lay the grid out in an area of `w` x `h` cells: record the column
    /// count (so `j`/`k` move a row) and scroll so the selection is visible.
    /// Returns `None`, changing nothing, when not even one cell fits.
    pub fn fit_grid(&mut self, w: u16, h: u16) -> (r: Option<GridFrame>)
        requires
            old(self)@.wf(),
        ensures
            final(self)@ == old(self)@.fit_grid(w, h).0,
            r == old(self)@.fit_grid(w, h).1,
            final(self)@.wf(),
            r matches Some(f) ==> f.first_visible <= f.last_visible <= old(self)@.n(),
            r matches Some(f) ==> old(self)@.n() > 0 ==> f.first_visible <= old(self)@.selected
                < f.last_visible,
    {
        if w < GRID_CELL_W || h < GRID_CELL_H {
            return None;
        }
        let (frame, scroll) = grid_layout(self.entries.len(), self.selected, self.grid_scroll_row, w, h);
        self.last_grid_cols = frame.cols;
        self.grid_scroll_row = scroll;
        Some(frame)
    }

    /// Request the grid thumbnails of the images among entries `lo..hi`.
    pub fn ensure_thumbs_in(&mut self, lo: usize, hi: usize) -> (r: Vec<Request>)
        requires
            old(self)@.wf(),
            hi <= old(self)@.entries.len(),
        ensures
            final(self)@ == old(self)@.thumbs_in(lo as int, hi as int).0,
            reqs(r@) == old(self)@.thumbs_in(lo as int, hi as int).1,
            final(self)@.wf(),
    {
        let ghost s0 = self@;
        let mut out: Vec<Request> = Vec::new();
        let mut i = lo;
        proof {
            assert(reqs(out@) =~= Seq::<Req>::empty());
        }
        while i < hi
            invariant
                self@.wf(),
                hi <= self@.entries.len(),
                self@.entries == s0.entries,
                s0.thumbs_in(lo as int, hi as int).0 == self@.thumbs_in(i as int, hi as int).0,
                s0.thumbs_in(lo as int, hi as int).1 == reqs(out@) + self@.thumbs_in(
                    i as int,
                    hi as int,
                ).1,
            decreases hi - i,
        {
            let ghost before = self@;
            let ghost before_out = reqs(out@);
            if self.entries[i].is_image() {
                let r = self.ensure_thumb(i);
                push_opt_req(&mut out, r);
            }
            proof {
                let (s1, r1) = if before.entries[i as int] is Image {
                    before.ensure_thumb(i as int)
                } else {
                    (before, Seq::<Req>::empty())
                };
                assert(self@ == s1);
                assert(reqs(out@) == before_out + r1);
                let rest = s1.thumbs_in(i + 1, hi as int).1;
                assert(before_out + (r1 + rest) =~= (before_out + r1) + rest);
            }
            i = i + 1;
        }
        proof {
            assert(reqs(out@) + Seq::<Req>::empty() =~= reqs(out@));
        }
        out
    }
}

/// The grid layout of `n` entries with `sel` selected and the previous
/// scroll offset `scroll0`, in an area of `w` x `h` cells.
#[verifier::rlimit(50)]
#[verifier::spinoff_prover]
fn grid_layout(n: usize, sel: usize, scroll0: usize, w: u16, h: u16) -> (r: (GridFrame, usize))
    requires
        w >= GRID_CELL_W,
        h >= GRID_CELL_H,
        n == 0 ==> sel == 0,
        n > 0 ==> sel < n,
    ensures
        ({
            let cols = grid_cols(w);
            let rows = grid_rows(h);
            let scroll = grid_scroll(n as int, sel as int, scroll0 as int, cols, rows);
            &&& r.1 == scroll
            &&& r.0 == GridFrame {
                cols: cols as u16,
                rows_visible: rows as usize,
                first_visible: (scroll * cols) as usize,
                last_visible: (if (scroll + rows) * cols < n {
                    (scroll + rows) * cols
                } else {
                    n as int
                }) as usize,
            }
        }),
        r.0.first_visible <= r.0.last_visible <= n,
        n > 0 ==> r.0.first_visible <= sel < r.0.last_visible,
{
        let wc: u32 = (w as u32 + GRID_GAP as u32) / CELL_TOTAL_W as u32;
        assert(wc <= 3856) by (nonlinear_arith)
            requires
                wc == (w + 1) / 17,
                w <= 65535,
        ;
        let c = wc as usize;
        let cols: usize = if c < 1 {
            1
        } else {
            c
        };
        let hr: u32 = (h as u32 + GRID_GAP as u32) / CELL_TOTAL_H as u32;
        assert(hr <= 6554) by (nonlinear_arith)
            requires
                hr == (h + 1) / 10,
                h <= 65535,
        ;
        let rw = hr as usize;
        let rows: usize = if rw < 1 {
            1
        } else {
            rw
        };
        assert(cols <= 3856 && rows <= 6554);
        let sel_row = sel / cols;
        let followed = if sel_row < scroll0 {
            sel_row
        } else if sel_row - scroll0 >= rows {
            sel_row + 1 - rows
        } else {
            scroll0
        };
        assert(n % cols != 0 ==> n / cols < n) by (nonlinear_arith)
            requires
                cols >= 1,
        ;
        let total = n / cols + if n % cols == 0 {
            0
        } else {
            1
        };
        assert(total == (n + cols - 1) / (cols as int)) by (nonlinear_arith)
            requires
                cols >= 1,
                total == n / cols + if n % cols == 0 {
                    0int
                } else {
                    1int
                },
        ;
        let max_scroll = if total > rows {
            total - rows
        } else {
            0
        };
        let scroll = if followed < max_scroll {
            followed
        } else {
            max_scroll
        };
        proof {
            assert(scroll <= total) by (nonlinear_arith)
                requires
                    scroll <= max_scroll,
                    max_scroll <= total,
            ;
            if total > 0 {
                assert((total - 1) * cols < n) by (nonlinear_arith)
                    requires
                        cols >= 1,
                        total == (n + cols - 1) / (cols as int),
                        total > 0,
                ;
            }
            assert(total * cols >= n) by (nonlinear_arith)
                requires
                    cols >= 1,
                    total == (n + cols - 1) / (cols as int),
            ;
        }
        let first = if total == 0 {
            0
        } else {
            proof {
                assert(scroll * cols <= (total - 1) * cols) by (nonlinear_arith)
                    requires
                        scroll <= total - 1,
                        cols >= 1,
                ;
            }
            scroll * cols
        };
        assert(total == 0 ==> scroll == 0);
        let last = if scroll + rows >= total {
            proof {
                assert((scroll + rows) * cols >= total * cols) by (nonlinear_arith)
                    requires
                        scroll + rows >= total,
                        cols >= 1,
                ;
            }
            n
        } else {
            proof {
                assert((scroll + rows) * cols <= (total - 1) * cols) by (nonlinear_arith)
                    requires
                        scroll + rows <= total - 1,
                        cols >= 1,
                ;
            }
            (scroll + rows) * cols
        };
        proof {
            if n > 0 {
                let sr = (sel as int) / (cols as int);
                assert(sr * cols <= sel < (sr + 1) * cols) by (nonlinear_arith)
                    requires
                        cols >= 1,
                        sr == (sel as int) / (cols as int),
                        sel >= 0,
                ;
                assert(sr < total) by (nonlinear_arith)
                    requires
                        cols >= 1,
                        sr == (sel as int) / (cols as int),
                        sel < n,
                        total * cols >= n,
                        sr * cols <= sel,
                ;
                assert(scroll <= sr && sr < scroll + rows);
                assert(first <= sel) by (nonlinear_arith)
                    requires
                        first == scroll * cols,
                        scroll <= sr,
                        sr * cols <= sel,
                        cols >= 1,
                ;
                if last != n {
                    assert(sel < last) by (nonlinear_arith)
                        requires
                            last == (scroll + rows) * cols,
                            sr + 1 <= scroll + rows,
                            sel < (sr + 1) * cols,
                            cols >= 1,
                    ;
                }
            }
        }
        (
            GridFrame {
                cols: cols as u16,
                rows_visible: rows,
                first_visible: first,
                last_visible: last,
            },
            scroll,
        )
}

/// The requests of an optional single request, as a vector.
fn one(r: Option<Request>) -> (v: Vec<Request>)
    ensures
        reqs(v@) == opt_req(r),
{
    let mut v: Vec<Request> = Vec::new();
    push_opt_req(&mut v, r);
    assert(reqs(v@) =~= opt_req(r));
    v
}

/// An owned copy of a string.
fn owned(s: &str) -> (r: String)
    ensures
        r@ == s@,
{
    string_of(chars_of(s).as_slice())
}

pub proof fn lemma_ai_map_lookup(s: Seq<(String, AiState)>, p: Seq<char>, k: int)
    requires
        0 <= k < s.len(),
        s[k].0@ == p,
        forall|t: int| k < t < s.len() ==> (#[trigger] s[t]).0@ != p,
    ensures
        ai_map(s).contains_key(p),
        ai_map(s)[p] == s[k].1@,
    decreases s.len(),
{
    if k < s.len() - 1 {
        let t = s.drop_last();
        assert forall|u: int| k < u < t.len() implies (#[trigger] t[u]).0@ != p by {
            assert(t[u] == s[u]);
        }
        assert(t[k] == s[k]);
        lemma_ai_map_lookup(t, p, k);
        assert(s.last().0@ != p);
    }
}

pub proof fn lemma_ai_map_absent(s: Seq<(String, AiState)>, p: Seq<char>)
    requires
        forall|t: int| 0 <= t < s.len() ==> (#[trigger] s[t]).0@ != p,
    ensures
        !ai_map(s).contains_key(p),
    decreases s.len(),
{
    if s.len() > 0 {
        let t = s.drop_last();
        assert forall|u: int| 0 <= u < t.len() implies (#[trigger] t[u]).0@ != p by {
            assert(t[u] == s[u]);
        }
        lemma_ai_map_absent(t, p);
        assert(s.last().0@ != p);
    }
}

/// The first image met walking around the listing from `start`.
fn find_image_after(entries: &[Entry], start: usize, forward: bool) -> (r: Option<usize>)
    requires
        start < entries@.len(),
    ensures
        r matches Some(i) ==> image_after(entries@, start as int, forward, 1) == Some(i as int)
            && i < entries@.len(),
        r is None ==> image_after(entries@, start as int, forward, 1) is None,
{
    let n = entries.len();
    let ghost es = entries@;
    let mut i = start;
    let mut k: usize = 0;
    while k < n
        invariant
            n == es.len(),
            es == entries@,
            start < n,
            i < n,
            k <= n,
            i == ring_walk(start as int, k as nat, forward, n as int),
            image_after(es, start as int, forward, 1) == image_after(
                es,
                start as int,
                forward,
                (k + 1) as nat,
            ),
        decreases n - k,
    {
        i = if forward {
            if i + 1 == n {
                0
            } else {
                i + 1
            }
        } else {
            if i == 0 {
                n - 1
            } else {
                i - 1
            }
        };
        k = k + 1;
        assert(i == ring_walk(start as int, k as nat, forward, n as int));
        if entries[i].is_image() {
            return Some(i);
        }
    }
    None
}

} // verus!
