use glry::ai::{AiConfig, DescribeDone};
use glry::app::{
    first_selectable, AiState, Animation, App, CellShown, CopyOutcome, KeyCode, KeyEvent, Request,
    Shown, ViewMode,
};
use glry::config::Theme;
use glry::scan::{Entry, ImageEntry, Timestamp};
use glry::thumbnail::{LoadDone, LoadKind, LoadPayload};

fn img(name: &str) -> Entry {
    Entry::Image(ImageEntry {
        path: format!("/p/{name}"),
        name: name.to_string(),
        size: 10,
        modified: Timestamp { secs: 0, nanos: 0 },
    })
}

fn sub(name: &str) -> Entry {
    Entry::SubDir { path: format!("/p/{name}"), name: name.to_string() }
}

fn app_with(entries: Vec<Entry>) -> App {
    App::new("/p".to_string(), entries, Theme::default(), false, AiConfig::default(), None, false)
}

fn gallery() -> App {
    app_with(vec![
        Entry::Parent("/".to_string()),
        sub("d1"),
        img("a.png"),
        img("b.png"),
        img("c.gif"),
        img("d.png"),
    ])
}

fn key(c: KeyCode) -> KeyEvent {
    KeyEvent { code: c, ctrl_only: false }
}

fn ch(c: char) -> KeyEvent {
    key(KeyCode::Char(c))
}

fn press(app: &mut App, k: KeyEvent) -> Vec<Request> {
    app.handle_key(k)
}

#[test]
fn first_selectable_prefers_images_then_dirs() {
    assert_eq!(first_selectable(&[Entry::Parent("/".into()), sub("x"), img("a.png")]), 2);
    assert_eq!(first_selectable(&[Entry::Parent("/".into()), sub("x")]), 1);
    assert_eq!(first_selectable(&[Entry::Parent("/".into())]), 0);
    assert_eq!(first_selectable(&[]), 0);
}

#[test]
fn new_app_state() {
    let app = gallery();
    assert_eq!(app.selected, 2);
    assert_eq!(app.view, ViewMode::Grid);
    assert!(app.fullscreen_idx.is_none());
    assert_eq!(app.loads.len(), 6);
    assert!(!app.has_pending_loads());
    assert!(app.dirty);
    assert_eq!(app.last_grid_cols, 1);
}

#[test]
fn quit_keys() {
    let mut app = gallery();
    press(&mut app, ch('c'));
    assert!(!app.should_quit);
    press(&mut app, KeyEvent { code: KeyCode::Char('c'), ctrl_only: true });
    assert!(app.should_quit);
    let mut app = gallery();
    press(&mut app, ch('q'));
    assert!(app.should_quit);
    let mut app = gallery();
    press(&mut app, key(KeyCode::Esc));
    assert!(app.should_quit);
    // Ctrl-C quits from the viewer too, without toggling fill mode.
    let mut app = gallery();
    press(&mut app, key(KeyCode::Enter));
    assert!(app.fullscreen_idx.is_some());
    press(&mut app, KeyEvent { code: KeyCode::Char('c'), ctrl_only: true });
    assert!(app.should_quit);
    assert!(!app.fullscreen_crop);
    assert!(app.status.is_none());
}

#[test]
fn gg_and_g_and_home_end() {
    let mut app = gallery();
    press(&mut app, ch('g'));
    assert!(app.pending_g);
    assert_eq!(app.selected, 2);
    press(&mut app, ch('g'));
    assert_eq!(app.selected, 0);
    assert!(!app.pending_g);
    press(&mut app, ch('G'));
    assert_eq!(app.selected, 5);
    press(&mut app, key(KeyCode::Home));
    assert_eq!(app.selected, 0);
    press(&mut app, key(KeyCode::End));
    assert_eq!(app.selected, 5);
    // A different key in between cancels the pending `g`.
    press(&mut app, ch('g'));
    press(&mut app, ch('x'));
    press(&mut app, ch('g'));
    assert_eq!(app.selected, 5);
}

#[test]
fn grid_and_list_movement() {
    let mut app = gallery();
    app.last_grid_cols = 2;
    press(&mut app, ch('j'));
    assert_eq!(app.selected, 4);
    press(&mut app, key(KeyCode::Up));
    assert_eq!(app.selected, 2);
    press(&mut app, ch('l'));
    assert_eq!(app.selected, 3);
    press(&mut app, key(KeyCode::Left));
    assert_eq!(app.selected, 2);
    press(&mut app, key(KeyCode::PageDown));
    assert_eq!(app.selected, 5);
    press(&mut app, key(KeyCode::PageUp));
    assert_eq!(app.selected, 0);
    press(&mut app, key(KeyCode::Tab));
    assert_eq!(app.view, ViewMode::List);
    press(&mut app, ch('l'));
    assert_eq!(app.selected, 0);
    press(&mut app, ch('j'));
    assert_eq!(app.selected, 1);
    press(&mut app, key(KeyCode::PageDown));
    assert_eq!(app.selected, 5);
    press(&mut app, key(KeyCode::Tab));
    assert_eq!(app.view, ViewMode::Grid);
}

#[test]
fn move_linear_clamps() {
    let mut app = gallery();
    app.move_linear(-100);
    assert_eq!(app.selected, 0);
    app.move_linear(isize::MAX);
    assert_eq!(app.selected, 5);
    app.move_linear(isize::MIN);
    assert_eq!(app.selected, 0);
    let mut empty = app_with(vec![]);
    empty.move_linear(3);
    empty.select_last();
    empty.select_first();
    assert_eq!(empty.selected, 0);
    assert!(empty.selected_entry().is_none());
}

#[test]
fn enter_on_dir_and_backspace_ask_for_dirs() {
    let mut app = gallery();
    app.selected = 1;
    let r = press(&mut app, key(KeyCode::Enter));
    assert!(matches!(&r[..], [Request::EnterDir(p)] if p == "/p/d1"));
    app.selected = 0;
    let r = press(&mut app, key(KeyCode::Enter));
    assert!(matches!(&r[..], [Request::EnterDir(p)] if p == "/"));
    let r = press(&mut app, key(KeyCode::Backspace));
    assert!(matches!(&r[..], [Request::EnterDir(p)] if p == "/"));
    let mut root = App::new("/".to_string(), vec![], Theme::default(), false, AiConfig::default(), None, false);
    assert!(press(&mut root, key(KeyCode::Backspace)).is_empty());
}

#[test]
fn enter_dir_resets_per_directory_state() {
    let mut app = gallery();
    press(&mut app, key(KeyCode::Enter));
    app.status = Some("x".to_string());
    app.grid_scroll_row = 3;
    app.enter_dir("/q".to_string(), vec![sub("z"), img("y.png")]);
    assert_eq!(app.cwd, "/q");
    assert_eq!(app.selected, 1);
    assert!(app.fullscreen_idx.is_none());
    assert!(app.status.is_none());
    assert_eq!(app.grid_scroll_row, 0);
    assert_eq!(app.loads.len(), 2);
    assert!(!app.has_pending_loads());
}

#[test]
fn enter_on_image_opens_viewer_and_loads_it() {
    let mut app = gallery();
    app.hide_bars_default = true;
    let r = press(&mut app, key(KeyCode::Enter));
    assert_eq!(app.fullscreen_idx, Some(2));
    assert!(app.fullscreen_bars_hidden);
    assert!(matches!(&r[..], [Request::Full(2)]));
    assert!(app.has_pending_loads());
    // Already in flight: stepping away and back asks for nothing new for it.
    app.fullscreen_idx = None;
    let r = press(&mut app, key(KeyCode::Enter));
    assert!(r.is_empty());
}

#[test]
fn viewer_steps_wrap_and_preload() {
    let mut app = gallery();
    press(&mut app, key(KeyCode::Enter));
    let r = press(&mut app, ch('l'));
    assert_eq!(app.fullscreen_idx, Some(3));
    assert_eq!(app.selected, 3);
    // Loads the new image and preloads the animated one after it.
    assert!(matches!(&r[..], [Request::Full(3), Request::Animation(4)]));
    press(&mut app, ch('l'));
    press(&mut app, ch('l'));
    assert_eq!(app.fullscreen_idx, Some(5));
    let r = press(&mut app, key(KeyCode::Right));
    // Wraps past the parent and the directory back to the first image.
    assert_eq!(app.fullscreen_idx, Some(2));
    assert!(r.is_empty());
    press(&mut app, ch('h'));
    assert_eq!(app.fullscreen_idx, Some(5));
}

#[test]
fn viewer_toggles_and_exit() {
    let mut app = gallery();
    press(&mut app, key(KeyCode::Enter));
    press(&mut app, ch('b'));
    assert!(app.fullscreen_bars_hidden);
    press(&mut app, ch('c'));
    assert!(app.fullscreen_crop);
    assert_eq!(app.status.as_deref(), Some("Fill"));
    press(&mut app, ch('c'));
    assert_eq!(app.status.as_deref(), Some("Fit"));
    press(&mut app, ch('z'));
    assert!(app.status.is_none());
    press(&mut app, key(KeyCode::Esc));
    assert!(app.fullscreen_idx.is_none());
}

#[test]
fn copy_requests_only_for_images() {
    let mut app = gallery();
    let r = press(&mut app, ch('y'));
    assert!(matches!(&r[..], [Request::Copy(2)]));
    app.selected = 1;
    assert!(press(&mut app, ch('y')).is_empty());
    app.finish_copy(2, CopyOutcome::Copied);
    assert_eq!(app.status.as_deref(), Some("Copied a.png"));
    app.finish_copy(2, CopyOutcome::ClipboardError("no display".to_string()));
    assert_eq!(app.status.as_deref(), Some("Clipboard error: no display"));
    app.finish_copy(2, CopyOutcome::LoadError("bad".to_string()));
    assert_eq!(app.status.as_deref(), Some("Could not load image: bad"));
}

#[test]
fn ai_overlay_disabled_hint() {
    let mut app = gallery();
    press(&mut app, key(KeyCode::Enter));
    let r = press(&mut app, ch('a'));
    assert!(r.is_empty());
    assert!(app.status.as_deref().unwrap().starts_with("AI disabled"));
    assert!(app.ai_overlay.is_none());
}

fn ai_app(token: Option<&str>) -> App {
    App::new(
        "/p".to_string(),
        vec![img("a.png"), img("b.png")],
        Theme::default(),
        false,
        AiConfig { enabled: true, ..AiConfig::default() },
        token.map(|t| t.to_string()),
        true,
    )
}

fn full_done(path: &str) -> LoadDone {
    LoadDone {
        source_path: path.to_string(),
        kind: LoadKind::Full,
        payload: Ok(LoadPayload::Full { original_dims: (800, 600) }),
    }
}

#[test]
fn ai_overlay_waits_for_decode_then_describes() {
    let mut app = ai_app(Some("SECRET-REDACTED"));
    press(&mut app, key(KeyCode::Enter));
    let r = press(&mut app, ch('a'));
    assert_eq!(app.ai_overlay.as_deref(), Some("/p/a.png"));
    assert!(r.is_empty(), "the full load was already requested");
    assert!(matches!(app.ai_results.last(), Some((p, AiState::AwaitingDecode)) if p == "/p/a.png"));
    // The decode lands in one drain; the describe goes out on the next.
    let (changed, r) = app.drain_loads(vec![full_done("/p/a.png")], vec![], 0);
    assert!(changed);
    assert!(r.is_empty());
    let (changed, r) = app.drain_loads(vec![], vec![], 0);
    assert!(changed);
    assert!(matches!(&r[..], [Request::Describe(p)] if p == "/p/a.png"));
    let (changed, _) = app.drain_loads(
        vec![],
        vec![DescribeDone { path: "/p/a.png".to_string(), result: Ok("A cat.".to_string()) }],
        0,
    );
    assert!(changed);
    assert!(matches!(app.ai_results.last(), Some((_, AiState::Ready(s))) if s == "A cat."));
    // Closing and reopening shows the stored result without a new request.
    press(&mut app, ch('a'));
    assert!(app.ai_overlay.is_none());
    let r = press(&mut app, ch('a'));
    assert!(r.is_empty());
    assert_eq!(app.ai_overlay.as_deref(), Some("/p/a.png"));
    // Esc closes the overlay first, then the viewer.
    press(&mut app, key(KeyCode::Esc));
    assert!(app.ai_overlay.is_none());
    assert!(app.fullscreen_idx.is_some());
    press(&mut app, key(KeyCode::Esc));
    assert!(app.fullscreen_idx.is_none());
}

#[test]
fn ai_describe_without_token_records_error() {
    let mut app = ai_app(None);
    press(&mut app, key(KeyCode::Enter));
    app.drain_loads(vec![full_done("/p/a.png")], vec![], 0);
    let r = press(&mut app, ch('a'));
    assert!(r.is_empty());
    assert!(matches!(app.ai_results.last(), Some((_, AiState::Error(e))) if e == "SWIFTROUTER_API_KEY not set"));
}

#[test]
fn ai_decoded_image_is_described_at_once() {
    let mut app = ai_app(Some("SECRET-REDACTED"));
    press(&mut app, key(KeyCode::Enter));
    app.drain_loads(vec![full_done("/p/a.png")], vec![], 0);
    let r = press(&mut app, ch('a'));
    assert!(matches!(&r[..], [Request::Describe(p)] if p == "/p/a.png"));
    assert!(matches!(app.ai_results.last(), Some((_, AiState::Requesting))));
    // Stepping to another image dismisses the overlay.
    press(&mut app, ch('l'));
    assert!(app.ai_overlay.is_none());
}

#[test]
fn drain_records_loads() {
    let mut app = gallery();
    let t = app.ensure_thumb(2);
    assert!(matches!(t, Some(Request::Thumb(2))));
    assert!(app.ensure_thumb(2).is_none());
    assert!(matches!(app.ensure_full(4), Some(Request::Animation(4))));
    assert!(app.has_pending_loads());
    let (changed, _) = app.drain_loads(vec![], vec![], 0);
    assert!(!changed);
    let done = vec![
        LoadDone { source_path: "/p/a.png".to_string(), kind: LoadKind::Thumb, payload: Ok(LoadPayload::Thumb) },
        LoadDone {
            source_path: "/p/c.gif".to_string(),
            kind: LoadKind::Animation,
            payload: Ok(LoadPayload::Animation { original_dims: (10, 20), delays: vec![5, 7] }),
        },
        LoadDone { source_path: "/p/d.png".to_string(), kind: LoadKind::Full, payload: Err("broken".to_string()) },
        LoadDone { source_path: "/elsewhere/x.png".to_string(), kind: LoadKind::Full, payload: Ok(LoadPayload::Thumb) },
    ];
    let (changed, r) = app.drain_loads(done, vec![], 42);
    assert!(changed);
    assert!(r.is_empty());
    assert!(!app.has_pending_loads());
    assert!(app.loads[2].thumb);
    assert_eq!(app.loads[4].dims, Some((10, 20)));
    let anim = app.loads[4].anim.as_ref().unwrap();
    assert_eq!((anim.current, anim.last_advance, anim.delays.clone()), (0, 42, vec![5, 7]));
    assert_eq!(app.loads[5].error.as_deref(), Some("broken"));
    // A failed entry is not requested again.
    assert!(app.ensure_thumb(5).is_none());
    assert!(app.ensure_full(5).is_none());
}

#[test]
fn animation_ticks_on_screen() {
    let mut app = gallery();
    app.drain_loads(
        vec![LoadDone {
            source_path: "/p/c.gif".to_string(),
            kind: LoadKind::Animation,
            payload: Ok(LoadPayload::Animation { original_dims: (1, 1), delays: vec![100, 50] }),
        }],
        vec![],
        1000,
    );
    assert_eq!(app.next_animation_tick(1000), None);
    assert!(!app.tick_animations(5000));
    app.fullscreen_idx = Some(4);
    app.selected = 4;
    assert_eq!(app.next_animation_tick(1030), Some(70));
    assert!(!app.tick_animations(1099));
    assert!(app.tick_animations(1100));
    assert_eq!(app.loads[4].anim.as_ref().unwrap().current, 1);
    assert_eq!(app.next_animation_tick(1100), Some(50));
}

#[test]
fn animation_tick_law_and_catch_up() {
    let mut a = Animation { delays: vec![10, 20, 30], current: 0, last_advance: 100, original_dims: (1, 1) };
    assert_eq!(a.next_tick_in(105), 5);
    assert!(!a.tick(105));
    assert_eq!(a.next_tick_in(110), 0);
    assert!(a.tick(135));
    // 10 + 20 elapsed by 130: two frames.
    assert_eq!((a.current, a.last_advance), (2, 130));
    // A long pause passes at most one full cycle and snaps the clock; the
    // frame ends where it was, so nothing changed.
    assert!(!a.tick(10_000));
    assert_eq!((a.current, a.last_advance), (2, 10_000));
    // Two 10 ms frames, 25 ms later: a whole cycle, back on the same frame.
    let mut two = Animation { delays: vec![10, 10], current: 0, last_advance: 0, original_dims: (1, 1) };
    assert!(!two.tick(25));
    assert_eq!(two.current, 0);
    // Time running backwards only advances over zero delays.
    let mut z = Animation { delays: vec![0, 0, 5], current: 0, last_advance: 50, original_dims: (1, 1) };
    assert!(z.tick(10));
    assert_eq!((z.current, z.last_advance), (2, 50));
    // One frame never animates.
    let mut one = Animation { delays: vec![1], current: 0, last_advance: 0, original_dims: (1, 1) };
    assert!(!one.tick(100));
    assert_eq!(one.next_tick_in(100), glry::app::IDLE_TICK_NS);
}

#[test]
fn grid_layout_keeps_selection_visible() {
    let entries: Vec<Entry> = (0..30).map(|i| img(&format!("{i:02}.png"))).collect();
    let mut app = app_with(entries);
    // Too small for a cell.
    assert!(app.fit_grid(15, 40).is_none());
    let f = app.fit_grid(52, 21).unwrap();
    assert_eq!((f.cols, f.rows_visible), (3, 2));
    assert_eq!((f.first_visible, f.last_visible), (0, 6));
    assert_eq!(app.last_grid_cols, 3);
    app.selected = 20;
    let f = app.fit_grid(52, 21).unwrap();
    assert_eq!(app.grid_scroll_row, 5);
    assert_eq!((f.first_visible, f.last_visible), (15, 21));
    app.selected = 29;
    let f = app.fit_grid(52, 21).unwrap();
    assert_eq!(app.grid_scroll_row, 8);
    assert_eq!((f.first_visible, f.last_visible), (24, 30));
    app.selected = 0;
    let f = app.fit_grid(52, 21).unwrap();
    assert_eq!((f.first_visible, f.last_visible), (0, 6));
    let r = app.ensure_thumbs_in(f.first_visible, f.last_visible);
    assert_eq!(r.len(), 6);
    assert!(matches!(r[0], Request::Thumb(0)));
    assert!(app.ensure_thumbs_in(0, 6).is_empty());
}

#[test]
fn grid_scroll_clamps_to_last_rows() {
    let entries: Vec<Entry> = (0..7).map(|i| img(&format!("{i}.png"))).collect();
    let mut app = app_with(entries);
    app.grid_scroll_row = 50;
    app.selected = 6;
    let f = app.fit_grid(52, 21).unwrap();
    // Three rows in all, two visible: scroll stops at row 1.
    assert_eq!(app.grid_scroll_row, 1);
    assert_eq!((f.first_visible, f.last_visible), (3, 7));
}

#[test]
fn what_cells_and_viewer_draw() {
    let mut app = gallery();
    assert_eq!(app.loads[2].cell(), CellShown::Pending);
    assert_eq!(app.loads[2].shown(), Shown::Loading);
    let done = vec![
        LoadDone { source_path: "/p/a.png".to_string(), kind: LoadKind::Thumb, payload: Ok(LoadPayload::Thumb) },
        full_done("/p/a.png"),
        LoadDone { source_path: "/p/b.png".to_string(), kind: LoadKind::Full, payload: Err("bad".to_string()) },
        LoadDone {
            source_path: "/p/c.gif".to_string(),
            kind: LoadKind::Animation,
            payload: Ok(LoadPayload::Animation { original_dims: (4, 4), delays: vec![10, 20] }),
        },
    ];
    app.drain_loads(done, vec![], 5);
    assert_eq!(app.loads[2].cell(), CellShown::Thumb);
    assert_eq!(app.loads[2].shown(), Shown::Still);
    assert_eq!(app.loads[3].cell(), CellShown::Failed);
    assert_eq!(app.loads[3].shown(), Shown::Failed);
    assert_eq!(app.loads[4].shown(), Shown::Frames);
    assert_eq!(app.loads[5].shown(), Shown::Loading);
}

#[test]
fn viewer_stays_on_images_whatever_the_keys() {
    let mut app = gallery();
    app.selected = 2;
    press(&mut app, key(KeyCode::Enter));
    assert_eq!(app.fullscreen_idx, Some(2));
    let keys = [
        key(KeyCode::Left),
        ch('l'),
        ch('l'),
        key(KeyCode::Right),
        ch('a'),
        ch('b'),
        ch('c'),
        ch('y'),
        key(KeyCode::Tab),
        ch('h'),
        ch('h'),
        ch('x'),
    ];
    for k in keys {
        press(&mut app, k);
        let i = app.fullscreen_idx.expect("viewer stays open");
        assert!(app.entries[i].is_image(), "viewer index {i} is not an image");
    }
}
