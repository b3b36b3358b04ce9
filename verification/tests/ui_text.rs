use glry::ai::AiConfig;
use glry::app::{App, KeyCode, KeyEvent};
use glry::config::Theme;
use glry::scan::{Entry, ImageEntry, Timestamp};
use glry::ui::{
    centered_modal_rect, grid_cell, header_text, human_size, image_info, info_line, list_row,
    overlay, truncate_middle, GridCell, InfoLine, OverlayTone, Rect,
};

fn img(name: &str) -> Entry {
    Entry::Image(ImageEntry {
        path: format!("/p/{name}"),
        name: name.to_string(),
        size: 1,
        modified: Timestamp { secs: 0, nanos: 0 },
    })
}

#[test]
fn truncation_keeps_both_ends() {
    assert_eq!(truncate_middle("abcdef", 0), "");
    assert_eq!(truncate_middle("abc", 5), "abc");
    assert_eq!(truncate_middle("abcdef", 3), "abc");
    assert_eq!(truncate_middle("abcdefgh", 5), "ab…gh");
    assert_eq!(truncate_middle("abcdefgh", 6), "abc…gh");
    assert_eq!(truncate_middle("ääääääää", 4), "ää…ä");
    assert_eq!(truncate_middle("long_file_name.png", 16).chars().count(), 16);
    // Columns, not characters: each of these takes two.
    assert_eq!(truncate_middle("日本語", 6), "日本語");
    assert_eq!(truncate_middle("日本語", 4), "日…");
    assert_eq!(truncate_middle("日本語", 3), "日");
    assert_eq!(truncate_middle("日本語", 1), "");
    assert_eq!(truncate_middle("a日本語b", 5), "a日…b");
}

#[test]
fn modal_is_centered_and_clamped() {
    let area = Rect { x: 0, y: 1, width: 100, height: 40 };
    assert_eq!(centered_modal_rect(area, 70, 50), Rect { x: 15, y: 11, width: 70, height: 20 });
    let small = Rect { x: 5, y: 5, width: 10, height: 4 };
    assert_eq!(centered_modal_rect(small, 70, 50), Rect { x: 5, y: 5, width: 10, height: 4 });
    let mid = Rect { x: 0, y: 0, width: 24, height: 8 };
    assert_eq!(centered_modal_rect(mid, 70, 50), Rect { x: 2, y: 1, width: 20, height: 6 });
}

fn app() -> App {
    App::new(
        "/p".to_string(),
        vec![Entry::Parent("/".to_string()), Entry::SubDir { path: "/p/d".to_string(), name: "d".to_string() }, img("a.png")],
        Theme::default(),
        false,
        AiConfig::default(),
        None,
        false,
    )
}

#[test]
fn header_line() {
    let mut a = app();
    assert_eq!(header_text(&a), " glry  [GRID]  /p   1 images   3/3 ");
    a.handle_key(KeyEvent { code: KeyCode::Tab, ctrl_only: false });
    a.selected = 0;
    assert_eq!(header_text(&a), " glry  [LIST]  /p   1 images   1/3 ");
    a.fullscreen_idx = Some(2);
    assert!(header_text(&a).contains("[FULL]"));
    a.selected = usize::MAX;
    assert!(header_text(&a).ends_with(&format!("   {}/3 ", usize::MAX)));
}

#[test]
fn status_line() {
    let mut a = app();
    assert!(matches!(info_line(&a), InfoLine::Image(2)));
    a.selected = 0;
    assert!(matches!(info_line(&a), InfoLine::Text(t) if t == " ..  (parent directory)"));
    a.selected = 1;
    assert!(matches!(info_line(&a), InfoLine::Text(t) if t == " 📁 d  (directory)"));
    a.status = Some("Fit".to_string());
    assert!(matches!(info_line(&a), InfoLine::Text(t) if t == "Fit"));
    let empty = App::new("/e".to_string(), vec![], Theme::default(), false, AiConfig::default(), None, false);
    assert!(matches!(info_line(&empty), InfoLine::Text(t) if t == " (empty directory) "));
}

#[test]
fn list_rows() {
    assert_eq!(list_row(&Entry::Parent("/".to_string())), " ..  ..");
    assert_eq!(list_row(&Entry::SubDir { path: "/d".to_string(), name: "d".to_string() }), " 📁  d");
    assert_eq!(list_row(&img("a.png")), " 🖼   a.png");
}

#[test]
fn overlay_contents() {
    let mut a = app();
    assert!(overlay(&a).is_none());
    a.ai_overlay = Some("/p/a.png".to_string());
    assert!(overlay(&a).is_none());
    a.ai_results.push(("/p/a.png".to_string(), glry::app::AiState::Requesting));
    let o = overlay(&a).unwrap();
    assert_eq!(o.title, " AI describe ");
    assert_eq!(o.text, "Describing…\n\n  press a or Esc to close");
    assert_eq!(o.tone, OverlayTone::Pending);
    a.ai_results.push(("/p/a.png".to_string(), glry::app::AiState::Error("boom".to_string())));
    let o = overlay(&a).unwrap();
    assert_eq!(o.title, " AI error ");
    assert_eq!(o.text, "boom\n\n  press a or Esc to close");
    assert_eq!(o.tone, OverlayTone::Failed);
    a.ai_results.push(("/p/a.png".to_string(), glry::app::AiState::Ready("A dog.".to_string())));
    assert_eq!(overlay(&a).unwrap().tone, OverlayTone::Ready);
}

/// The same size formatting computed with floating point.
fn float_size(bytes: u64) -> String {
    const KB: u64 = 1024;
    const MB: u64 = KB * 1024;
    const GB: u64 = MB * 1024;
    if bytes >= GB {
        format!("{:.1} GB", bytes as f64 / GB as f64)
    } else if bytes >= MB {
        format!("{:.1} MB", bytes as f64 / MB as f64)
    } else if bytes >= KB {
        format!("{:.1} KB", bytes as f64 / KB as f64)
    } else {
        format!("{} B", bytes)
    }
}

#[test]
fn human_sizes() {
    assert_eq!(human_size(0), "0 B");
    assert_eq!(human_size(1023), "1023 B");
    assert_eq!(human_size(1024), "1.0 KB");
    assert_eq!(human_size(1536), "1.5 KB");
    assert_eq!(human_size(1_048_575), "1024.0 KB");
    assert_eq!(human_size(5 * 1024 * 1024), "5.0 MB");
    assert_eq!(human_size(3 * 1024 * 1024 * 1024 / 2), "1.5 GB");
    assert_eq!(human_size(u64::MAX), "17179869184.0 GB");
}

#[test]
fn human_size_agrees_with_float_formatting() {
    let mut samples: Vec<u64> = vec![
        1075, 1126, 1127, 1280, 1331, 1_153_433, 1_073_741_823, 1_181_116_006,
        1 << 53, (1 << 53) + 1, (1 << 54) + 3, (1 << 60) + (1 << 7), u64::MAX - 1,
    ];
    let mut x: u64 = 0x9e37_79b9_7f4a_7c15;
    for i in 0..200_000u64 {
        x = x.wrapping_mul(6364136223846793005).wrapping_add(1442695040888963407);
        samples.push(x >> (i % 64));
    }
    for k in 0..4096u64 {
        samples.push(k * 1024 / 20);
        samples.push(k * 1024 * 1024 / 20);
        samples.push((k << 30) / 20);
    }
    for b in samples {
        assert_eq!(human_size(b), float_size(b), "{b}");
    }
}

#[test]
fn image_status_line() {
    let e = ImageEntry {
        path: "/p/cat.png".to_string(),
        name: "cat.png".to_string(),
        size: 2048,
        modified: Timestamp { secs: 0, nanos: 0 },
    };
    assert_eq!(image_info(&e, None, "2024-01-02 03:04"), " cat.png  2.0 KB  2024-01-02 03:04");
    assert_eq!(
        image_info(&e, Some((640, 480)), "2024-01-02 03:04"),
        " cat.png  2.0 KB  640×480  2024-01-02 03:04"
    );
}

#[test]
fn grid_cells_on_screen() {
    let area = Rect { x: 2, y: 1, width: 40, height: 20 };
    // Two columns, scrolled one row down: row 0 shows entries 2 and 3.
    assert_eq!(
        grid_cell(area, 2, 1, 5, 0, 1),
        Some(GridCell {
            index: 3,
            image: Rect { x: 19, y: 1, width: 16, height: 8 },
            caption: Rect { x: 19, y: 9, width: 16, height: 1 },
        })
    );
    assert_eq!(grid_cell(area, 2, 1, 5, 1, 0).map(|c| (c.index, c.image.y)), Some((4, 11)));
    // Past the last entry, or a row that does not fit.
    assert_eq!(grid_cell(area, 2, 1, 5, 1, 1), None);
    assert_eq!(grid_cell(area, 2, 0, 50, 2, 0), None);
}
