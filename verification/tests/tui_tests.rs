use downloader::config::Config;
use downloader::model::Model;
use downloader::table::StrTable;
use downloader::tui::{
    sorted_categories, App, AppState, Area, CacheAction, ClickLayout, DownloadEvent, InputMode,
    Key, UiAction, LOG_CAPACITY,
};

fn model(category: &str, filename: &str, group: &str, size: u64) -> Model {
    Model {
        category: category.to_string(),
        filename: filename.to_string(),
        url: format!("https://example.com/{filename}"),
        size_bytes: size,
        sha256: None,
        group: group.to_string(),
        notes: String::new(),
    }
}

fn config() -> Config {
    Config { models_dir: "/tmp/models".to_string(), hf_token: Some("tok".to_string()), paths: StrTable::new() }
}

fn catalogue() -> Vec<Model> {
    vec![
        model("vae", "ae.safetensors", "flux", 100),
        model("checkpoints", "flux1-dev.safetensors", "flux", 1000),
        model("loras", "detail.safetensors", "sdxl", 10),
        model("checkpoints", "sdxl.safetensors", "sdxl", 500),
    ]
}

fn app() -> App {
    App::new(catalogue(), config(), "10:00:00")
}

#[test]
fn new_app_starts_in_menu_with_one_log_line() {
    let a = app();
    assert_eq!(a.logs, vec!["[10:00:00] Downloader initialized successfully.".to_string()]);
    assert_eq!(a.selected, Some(0));
    assert!(a.selected_indices.is_empty());
    assert!(matches!(a.state, AppState::Menu));
    assert!(!a.busy);
    assert!(a.input_mode == InputMode::Normal);
    assert_eq!(a.categories, vec!["checkpoints".to_string(), "loras".to_string(), "vae".to_string()]);
    assert_eq!(a.active_downloads.len(), 2);
    assert_eq!(a.active_tab, 0);
    assert_eq!(a.tab_offset, 0);
}

#[test]
fn new_app_without_models_has_no_highlighted_row() {
    let a = App::new(Vec::new(), config(), "10:00:00");
    assert_eq!(a.selected, None);
    assert!(a.categories.is_empty());
}

#[test]
fn sorted_categories_are_sorted_and_unique() {
    let models = vec![
        model("b", "1", "g", 1),
        model("a", "2", "g", 1),
        model("b", "3", "g", 1),
        model("B", "4", "g", 1),
    ];
    assert_eq!(sorted_categories(&models), vec!["B".to_string(), "a".to_string(), "b".to_string()]);
}

#[test]
fn add_log_keeps_the_last_hundred_lines() {
    let mut a = app();
    for i in 0..LOG_CAPACITY + 5 {
        a.add_log("11:00:00", &format!("line {i}"));
    }
    assert_eq!(a.logs.len(), LOG_CAPACITY);
    assert_eq!(a.logs[LOG_CAPACITY - 1], format!("[11:00:00] line {}", LOG_CAPACITY + 4));
    assert_eq!(a.logs[0], "[11:00:00] line 5");
    let pending = a.take_pending_log();
    assert_eq!(pending.len(), LOG_CAPACITY + 6);
    assert!(a.take_pending_log().is_empty());
}

#[test]
fn filtered_models_by_page_and_query() {
    let mut a = app();
    let installed = vec![true, false, false, true];
    let all: Vec<usize> = a.filtered_models(&installed).iter().map(|e| e.0).collect();
    assert_eq!(all, vec![0, 1, 2, 3]);
    a.active_tab = 1;
    a.mark_filtered_dirty();
    let inst: Vec<usize> = a.filtered_models(&installed).iter().map(|e| e.0).collect();
    assert_eq!(inst, vec![0, 3]);
    a.active_tab = 2;
    a.mark_filtered_dirty();
    let missing: Vec<usize> = a.filtered_models(&installed).iter().map(|e| e.0).collect();
    assert_eq!(missing, vec![1, 2]);
    a.active_tab = 3;
    a.mark_filtered_dirty();
    let ckpt: Vec<usize> = a.filtered_models(&installed).iter().map(|e| e.0).collect();
    assert_eq!(ckpt, vec![1, 3]);
    a.active_tab = 0;
    a.search_query = "SDXL".to_string();
    a.mark_filtered_dirty();
    let q: Vec<usize> = a.filtered_models(&installed).iter().map(|e| e.0).collect();
    assert_eq!(q, vec![2, 3]);
}

#[test]
fn filtered_models_is_kept_until_marked_dirty() {
    let mut a = app();
    let installed = vec![false; 4];
    assert_eq!(a.filtered_models(&installed).len(), 4);
    a.search_query = "vae".to_string();
    assert_eq!(a.filtered_models(&installed).len(), 4);
    a.mark_filtered_dirty();
    assert_eq!(a.filtered_models(&installed).len(), 1);
}

#[test]
fn toggle_selection_twice_restores_the_selection() {
    let mut a = app();
    let installed = vec![false; 4];
    a.selected = Some(1);
    a.toggle_selection(&installed, "12:00:00");
    assert_eq!(a.selected_indices, vec![1]);
    assert_eq!(a.logs.last().unwrap(), "[12:00:00] Selected: flux1-dev.safetensors");
    a.toggle_selection(&installed, "12:00:01");
    assert!(a.selected_indices.is_empty());
    assert_eq!(a.logs.last().unwrap(), "[12:00:01] Deselected: flux1-dev.safetensors");
}

#[test]
fn select_group_picks_missing_models_of_the_group() {
    let mut a = app();
    let installed = vec![true, false, false, false];
    a.select_group(Some("flux"), &installed, "12:00:00");
    assert_eq!(a.selected_indices, vec![1]);
    assert_eq!(a.logs.last().unwrap(), "[12:00:00] Bulk selected group 'flux' (1 items).");
    a.select_group(None, &installed, "12:00:01");
    assert_eq!(a.selected_indices, vec![1, 2, 3]);
    assert_eq!(a.logs.last().unwrap(), "[12:00:01] Bulk selected group 'All Missing' (3 items).");
}

#[test]
fn select_all_missing_in_view_adds_only_new_missing_models() {
    let mut a = app();
    let installed = vec![true, false, false, false];
    a.selected_indices = vec![2];
    a.select_all_missing_in_view(&installed, "12:00:00");
    assert_eq!(a.selected_indices, vec![2, 1, 3]);
    assert_eq!(a.logs.last().unwrap(), "[12:00:00] Selected 2 missing models in current view.");
}

#[test]
fn check_space_and_start_cases() {
    let installed = vec![false, false, true, false];
    let mut a = app();
    assert!(!a.check_space_and_start(&installed, 10_000, "t"));
    assert_eq!(a.logs.last().unwrap(), "[t] No models selected.");

    a.selected_indices = vec![1, 2, 3];
    assert_eq!(a.required_space(&installed), Some(1500));
    assert!(!a.check_space_and_start(&installed, 1499, "t"));
    assert_eq!(a.logs.last().unwrap(), "[t] Disk space warning.");
    assert!(matches!(a.state, AppState::DiskSpaceWarning { required: 1500, available: 1499 }));

    let mut b = app();
    b.selected_indices = vec![1, 2, 3];
    let before = b.logs.len();
    assert!(b.check_space_and_start(&installed, 1500, "t"));
    assert_eq!(b.logs.len(), before);

    b.busy = true;
    assert!(!b.check_space_and_start(&installed, 1500, "t"));
    assert_eq!(b.logs.last().unwrap(), "[t] A task is already running.");
}

#[test]
fn begin_download_hands_out_the_selection() {
    let mut a = app();
    a.selected_indices = vec![3, 0];
    let list = a.begin_download("t");
    assert_eq!(list.iter().map(|e| e.0).collect::<Vec<_>>(), vec![3, 0]);
    assert_eq!(list[0].1.filename, "sdxl.safetensors");
    assert!(a.busy);
    assert_eq!(a.total_to_download, 2);
    assert_eq!(a.active_downloads.len(), 1);
    assert_eq!(a.logs.last().unwrap(), "[t] Starting download of 2 items.");
}

#[test]
fn refresh_targets_cover_selection_or_all() {
    let mut a = app();
    let all = a.refresh_targets("t").expect("targets");
    assert_eq!(all.len(), 4);
    assert!(a.busy);
    assert_eq!(a.logs.last().unwrap(), "[t] Refreshing 4 model sizes...");
    assert!(a.refresh_targets("t").is_none());
    assert_eq!(a.logs.last().unwrap(), "[t] A task is already running.");

    let mut b = app();
    b.selected_indices = vec![2];
    let some = b.refresh_targets("t").expect("targets");
    assert_eq!(some.iter().map(|e| e.0).collect::<Vec<_>>(), vec![2]);
}

#[test]
fn download_events_update_state() {
    let mut a = app();
    a.selected_indices = vec![1];
    let _ = a.begin_download("t");
    let eff = a.apply_event(DownloadEvent::Start { worker_id: 0, filename: "x.bin".to_string() }, "t");
    assert!(!eff.clear_task);
    assert_eq!(a.logs.last().unwrap(), "[t] W#1: Starting x.bin");
    assert_eq!(a.active_downloads[0].as_ref().unwrap().filename, "x.bin");

    a.apply_event(
        DownloadEvent::Progress {
            worker_id: 0,
            filename: "x.bin".to_string(),
            downloaded: 5,
            total: 10,
            eta_secs: 3,
        },
        "t",
    );
    let d = a.active_downloads[0].as_ref().unwrap();
    assert_eq!((d.bytes_downloaded, d.total_bytes, d.eta_secs), (5, 10, 3));

    a.apply_event(
        DownloadEvent::ModelFinished {
            worker_id: 0,
            filename: "x.bin".to_string(),
            success: false,
            error_msg: None,
        },
        "t",
    );
    assert_eq!(a.failed_count, 1);
    assert!(a.active_downloads[0].is_none());
    assert_eq!(a.logs.last().unwrap(), "[t] W#1: \u{2717} x.bin \u{2014} unknown error");

    let eff = a.apply_event(DownloadEvent::AllComplete { completed: 0, failed: 1 }, "t");
    assert!(eff.clear_task);
    assert!(a.selected_indices.is_empty());
    assert_eq!(a.logs.last().unwrap(), "[t] Queue done. OK: 0, Fail: 1 (of 1)");
    match &a.state {
        AppState::Finished { completed, failed, message } => {
            assert_eq!((*completed, *failed), (0, 1));
            assert_eq!(message, "Done! OK: 0, Fail: 1");
        }
        _ => panic!("expected the summary"),
    }
}

#[test]
fn refresh_events_update_sizes_and_cache() {
    let mut a = app();
    let eff = a.apply_event(DownloadEvent::RefreshUpdate { idx: 2, size: 4242 }, "t");
    assert_eq!(a.models[2].size_bytes, 4242);
    match eff.cache {
        Some(CacheAction::Record { url, size }) => {
            assert_eq!(url, "https://example.com/detail.safetensors");
            assert_eq!(size, 4242);
        }
        _ => panic!("expected a cache record"),
    }
    let eff = a.apply_event(DownloadEvent::RefreshUpdate { idx: 99, size: 1 }, "t");
    assert!(eff.cache.is_none());
    let eff = a.apply_event(DownloadEvent::RefreshFinished { valid: 1, invalid: 0, unknown: 0 }, "t");
    assert!(eff.clear_task);
    assert!(matches!(eff.cache, Some(CacheAction::Save)));
}

#[test]
fn quit_keys_respect_running_task() {
    let installed = vec![false; 4];
    let mut a = app();
    assert!(a.handle_key(Key::Char('q'), false, &installed, "t") == UiAction::Quit);
    assert!(a.handle_key(Key::Esc, false, &installed, "t") == UiAction::Quit);
    assert!(a.handle_key(Key::Char('c'), true, &installed, "t") == UiAction::Quit);
    a.busy = true;
    assert!(a.handle_key(Key::Char('q'), false, &installed, "t") == UiAction::Continue);
    assert_eq!(
        a.logs.last().unwrap(),
        "[t] Cannot exit: download is in progress. Cancel first [x] or wait."
    );
    assert!(a.handle_key(Key::Char('x'), false, &installed, "t") == UiAction::CancelDownloads);
    assert_eq!(a.logs.last().unwrap(), "[t] User cancelled downloading queue.");
}

#[test]
fn search_mode_edits_the_query() {
    let installed = vec![false; 4];
    let mut a = app();
    a.handle_key(Key::Char('/'), false, &installed, "t");
    assert!(a.input_mode == InputMode::Search);
    a.handle_key(Key::Char('s'), false, &installed, "t");
    a.handle_key(Key::Char('d'), false, &installed, "t");
    a.handle_key(Key::Char('x'), false, &installed, "t");
    assert_eq!(a.search_query, "sdx");
    a.handle_key(Key::Backspace, false, &installed, "t");
    assert_eq!(a.search_query, "sd");
    assert_eq!(a.selected, Some(0));
    a.handle_key(Key::Enter, false, &installed, "t");
    assert!(a.input_mode == InputMode::Normal);
    let shown: Vec<usize> = a.filtered_models(&installed).iter().map(|e| e.0).collect();
    assert_eq!(shown, vec![2, 3]);
}

#[test]
fn page_keys_cycle_through_pages() {
    let installed = vec![false; 4];
    let mut a = app();
    // 3 fixed pages and 3 categories.
    a.handle_key(Key::BackTab, false, &installed, "t");
    assert_eq!(a.active_tab, 5);
    a.handle_key(Key::Tab, false, &installed, "t");
    assert_eq!(a.active_tab, 0);
    a.handle_key(Key::Char('4'), false, &installed, "t");
    assert_eq!(a.active_tab, 4);
    a.handle_key(Key::Char('9'), false, &installed, "t");
    assert_eq!(a.active_tab, 4);
    assert_eq!(a.tab_offset, 0);
}

#[test]
fn ensure_active_tab_visible_moves_the_offset() {
    let mut a = app();
    a.active_tab = 12;
    a.tab_offset = 0;
    a.ensure_active_tab_visible(20);
    assert_eq!(a.tab_offset, 3);
    a.active_tab = 1;
    a.ensure_active_tab_visible(20);
    assert_eq!(a.tab_offset, 1);
    a.tab_offset = 15;
    a.active_tab = 16;
    a.ensure_active_tab_visible(20);
    assert_eq!(a.tab_offset, 10);
    a.ensure_active_tab_visible(6);
    assert_eq!(a.tab_offset, 0);
}

#[test]
fn arrow_keys_wrap_around_the_list() {
    let installed = vec![false; 4];
    let mut a = app();
    a.handle_key(Key::Up, false, &installed, "t");
    assert_eq!(a.selected, Some(3));
    a.handle_key(Key::Down, false, &installed, "t");
    assert_eq!(a.selected, Some(0));
    a.handle_key(Key::Down, false, &installed, "t");
    assert_eq!(a.selected, Some(1));
}

#[test]
fn keys_that_ask_for_outside_work() {
    let installed = vec![false; 4];
    let mut a = app();
    assert!(a.handle_key(Key::Char('d'), false, &installed, "t") == UiAction::StartDownload);
    assert!(a.handle_key(Key::Enter, false, &installed, "t") == UiAction::StartDownload);
    assert!(a.handle_key(Key::Char('r'), false, &installed, "t") == UiAction::RefreshSizes);
}

#[test]
fn settings_form_opens_and_closes() {
    let installed = vec![false; 4];
    let mut a = app();
    a.handle_key(Key::Char('c'), false, &installed, "t");
    match &a.state {
        AppState::Settings { active_field, models_dir_input, hf_token_input } => {
            assert_eq!(*active_field, 0);
            assert_eq!(models_dir_input, "/tmp/models");
            assert_eq!(hf_token_input, "tok");
        }
        _ => panic!("expected the settings form"),
    }
    assert_eq!(a.logs.last().unwrap(), "[t] Settings menu opened.");
    a.handle_key(Key::Esc, false, &installed, "t");
    assert!(matches!(a.state, AppState::Menu));
    assert_eq!(a.logs.last().unwrap(), "[t] Settings menu closed without saving.");
}

#[test]
fn log_viewer_scrolls_and_closes() {
    let installed = vec![false; 4];
    let mut a = app();
    a.add_log("t", "second");
    a.handle_key(Key::Char('l'), false, &installed, "t");
    assert!(a.log_viewer_visible);
    assert_eq!(a.log_scroll, 1);
    a.handle_key(Key::Up, false, &installed, "t");
    a.handle_key(Key::Up, false, &installed, "t");
    assert_eq!(a.log_scroll, 0);
    a.handle_key(Key::Down, false, &installed, "t");
    assert_eq!(a.log_scroll, 1);
    assert!(a.handle_key(Key::Char('c'), false, &installed, "t") == UiAction::CopyLogs);
    assert!(!a.log_viewer_visible);
}

fn area(x: u16, y: u16, width: u16, height: u16) -> Area {
    Area { x, y, width, height }
}

fn layout() -> ClickLayout {
    ClickLayout {
        tab_bar: area(0, 0, 80, 3),
        list: area(0, 3, 80, 10),
        status_bar: area(0, 13, 80, 3),
        progress: area(0, 16, 80, 6),
        warning_popup: area(10, 5, 60, 12),
        finished_popup: area(20, 8, 40, 8),
    }
}

#[test]
fn clicking_a_list_row_highlights_it() {
    let installed = vec![false; 4];
    let mut a = app();
    let (act, cancel) = a.handle_click(&layout(), 6, 5, 0, &installed, "t");
    assert!(act == UiAction::Continue);
    assert!(!cancel);
    assert_eq!(a.selected, Some(2));
}

#[test]
fn clicking_cancel_while_busy_cancels() {
    let installed = vec![false; 4];
    let mut a = app();
    a.busy = true;
    let l = layout();
    let (_, cancel) = a.handle_click(&l, l.progress.y + l.progress.height - 2, 5, 0, &installed, "t");
    assert!(cancel);
    assert_eq!(a.logs.last().unwrap(), "[t] User cancelled downloading queue.");
}

#[test]
fn clicking_the_warning_buttons() {
    let installed = vec![false; 4];
    let l = layout();
    let mut a = app();
    a.state = AppState::DiskSpaceWarning { required: 10, available: 5 };
    let (act, _) = a.handle_click(&l, l.warning_popup.y + 9, l.warning_popup.x + 5, 0, &installed, "t");
    assert!(act == UiAction::StartDownload);
    assert_eq!(a.logs.last().unwrap(), "[t] Proceeding with download despite disk space warning.");
    let (act, _) = a.handle_click(&l, l.warning_popup.y + 9, l.warning_popup.x + 30, 0, &installed, "t");
    assert!(act == UiAction::Continue);
    assert!(matches!(a.state, AppState::Menu));
}

#[test]
fn toggling_a_selected_model_twice_keeps_the_same_set() {
    let mut a = app();
    let installed = vec![false; 4];
    a.selected_indices = vec![1, 2];
    a.selected = Some(1);
    a.toggle_selection(&installed, "t");
    assert_eq!(a.selected_indices, vec![2]);
    a.toggle_selection(&installed, "t");
    assert_eq!(a.selected_indices, vec![2, 1]);
    let mut sorted = a.selected_indices.clone();
    sorted.sort();
    assert_eq!(sorted, vec![1, 2]);
}

#[test]
fn busy_app_refuses_a_new_download_without_summing_sizes() {
    let installed = vec![false; 2];
    let mut a = App::new(
        vec![model("a", "x", "g", u64::MAX), model("a", "y", "g", u64::MAX)],
        config(),
        "t",
    );
    a.selected_indices = vec![0, 1];
    assert_eq!(a.required_space(&installed), None);
    a.busy = true;
    assert!(!a.check_space_and_start(&installed, 0, "t"));
    assert_eq!(a.logs.last().unwrap(), "[t] A task is already running.");
}

#[test]
fn a_batch_of_events_is_applied_in_order() {
    let mut a = app();
    a.selected_indices = vec![1, 2];
    let _ = a.begin_download("t");
    let events = vec![
        DownloadEvent::Start { worker_id: 0, filename: "x.bin".to_string() },
        DownloadEvent::ModelFinished { worker_id: 0, filename: "x.bin".to_string(), success: true, error_msg: None },
        DownloadEvent::Start { worker_id: 7, filename: "y.bin".to_string() },
        DownloadEvent::ModelFinished {
            worker_id: 7,
            filename: "y.bin".to_string(),
            success: false,
            error_msg: Some("HTTP 500".to_string()),
        },
        DownloadEvent::RefreshUpdate { idx: 0, size: 9 },
    ];
    let effects = a.apply_events(events, "t");
    assert_eq!(effects.len(), 5);
    assert_eq!((a.completed_count, a.failed_count), (1, 1));
    assert_eq!(a.selected_indices, vec![1, 2]);
    assert_eq!(a.models[0].size_bytes, 9);
    assert!(matches!(effects[4].cache, Some(CacheAction::Record { size: 9, .. })));
    assert!(effects.iter().all(|e| !e.clear_task));
    assert_eq!(a.logs.last().unwrap(), "[t] W#8: \u{2717} y.bin \u{2014} HTTP 500");
    assert!(a.busy);
    a.end_task();
    assert!(!a.busy);
}
