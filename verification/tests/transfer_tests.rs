use downloader::catalog::{find_models, pick_match, MatchPick};
use std::cell::{Cell, RefCell};
use downloader::clock::format_clock;
use downloader::model::Model;
use downloader::transfer::{
    after_attempt, bearer_value, chunk_count, classify_head, closed_range, diffusers_args,
    diffusers_present, download_total, effective_token, engine_status_error, is_diffusers,
    is_permanent_failure, is_resumed, is_success_status, may_attempt, parse_u64,
    plain_status_error, plan_chunks, range_resume_start, refresh_size_update, resume_offsets,
    resume_range, run_model, AttemptOutcome, ChunkProgress, HeadOutcome, RefreshTally, SizeCheck,
    MAX_ATTEMPTS,
};

fn model(category: &str, filename: &str) -> Model {
    Model {
        category: category.to_string(),
        filename: filename.to_string(),
        url: format!("https://example.com/{filename}"),
        size_bytes: 10,
        sha256: None,
        group: "g".to_string(),
        notes: String::new(),
    }
}

#[test]
fn success_statuses_are_200_and_206() {
    assert!(is_success_status(200));
    assert!(is_success_status(206));
    assert!(!is_success_status(204));
    assert!(!is_success_status(404));
}

#[test]
fn engine_status_messages() {
    assert_eq!(engine_status_error(401), "Unauthorized (check HF_TOKEN)");
    assert_eq!(engine_status_error(403), "Forbidden");
    assert_eq!(engine_status_error(404), "Not Found \u{2014} model URL may be invalid or expired");
    assert_eq!(engine_status_error(500), "HTTP 500");
    assert_eq!(engine_status_error(0), "HTTP 0");
}

#[test]
fn plain_status_messages() {
    assert_eq!(plain_status_error(401), "Unauthorized");
    assert_eq!(plain_status_error(403), "Forbidden");
    assert_eq!(plain_status_error(404), "Not Found");
    assert_eq!(plain_status_error(503), "HTTP 503");
}

#[test]
fn parse_u64_agrees_with_std() {
    let cases = [
        "0",
        "42",
        "+7",
        "",
        "+",
        "-1",
        "12a",
        " 12",
        "18446744073709551615",
        "18446744073709551616",
        "000123",
        "99999999999999999999999",
    ];
    for c in cases {
        assert_eq!(parse_u64(c), c.parse::<u64>().ok(), "input {c:?}");
    }
}

#[test]
fn resumed_only_on_partial_content_with_bytes_on_disk() {
    assert!(is_resumed(10, 206));
    assert!(!is_resumed(0, 206));
    assert!(!is_resumed(10, 200));
}

#[test]
fn download_total_cases() {
    assert_eq!(download_total(true, 100, 50, 7), 150);
    assert_eq!(download_total(false, 100, 50, 7), 50);
    assert_eq!(download_total(false, 100, 0, 7), 7);
}

#[test]
fn chunk_count_thresholds() {
    assert_eq!(chunk_count(1), 1);
    assert_eq!(chunk_count(52428799), 1);
    assert_eq!(chunk_count(52428800), 2);
    assert_eq!(chunk_count(209715199), 2);
    assert_eq!(chunk_count(209715200), 4);
    assert_eq!(chunk_count(1073741823), 4);
    assert_eq!(chunk_count(1073741824), 8);
}

#[test]
fn plan_chunks_tiles_the_file() {
    let total: u64 = 209715203;
    let r = plan_chunks(total);
    assert_eq!(r.len(), 4);
    let size = total / 4;
    assert_eq!(r[0], (0, size - 1));
    assert_eq!(r[1], (size, 2 * size - 1));
    assert_eq!(r[2], (2 * size, 3 * size - 1));
    assert_eq!(r[3], (3 * size, total - 1));
    for w in r.windows(2) {
        assert_eq!(w[0].1 + 1, w[1].0);
    }
    assert_eq!(plan_chunks(5), vec![(0, 4)]);
}

#[test]
fn resume_offsets_reuse_matching_progress() {
    let saved = ChunkProgress { total_size: 100, n_chunks: 2, chunk_offsets: vec![10, 20] };
    assert_eq!(resume_offsets(Some(saved), 100, 2), vec![10, 20]);
    let other_size = ChunkProgress { total_size: 99, n_chunks: 2, chunk_offsets: vec![10, 20] };
    assert_eq!(resume_offsets(Some(other_size), 100, 2), vec![0, 0]);
    let other_count = ChunkProgress { total_size: 100, n_chunks: 3, chunk_offsets: vec![1, 2, 3] };
    assert_eq!(resume_offsets(Some(other_count), 100, 2), vec![0, 0]);
    assert_eq!(resume_offsets(None, 100, 4), vec![0, 0, 0, 0]);
}

#[test]
fn range_resume_start_cases() {
    assert_eq!(range_resume_start(100, 199, 0), Some(100));
    assert_eq!(range_resume_start(100, 199, 99), Some(199));
    assert_eq!(range_resume_start(100, 199, 100), None);
}

#[test]
fn permanent_failures() {
    assert!(is_permanent_failure("HTTP 404"));
    assert!(is_permanent_failure("Unauthorized 401"));
    assert!(is_permanent_failure("403 Forbidden"));
    assert!(is_permanent_failure("Not Found \u{2014} model URL may be invalid or expired"));
    assert!(!is_permanent_failure("HTTP 500"));
    assert!(!is_permanent_failure("connection reset"));
}

#[test]
fn after_attempt_succeeds() {
    assert!(matches!(after_attempt(1, Ok(()), false), AttemptOutcome::Succeeded));
}

#[test]
fn after_attempt_skips_retry_on_permanent_error() {
    match after_attempt(1, Err("HTTP 404".to_string()), false) {
        AttemptOutcome::GiveUp { error } => assert_eq!(error, "HTTP 404 (skipped retry)"),
        _ => panic!("expected give up"),
    }
}

#[test]
fn after_attempt_waits_longer_after_each_failure() {
    match after_attempt(1, Err("timeout".to_string()), false) {
        AttemptOutcome::Wait { secs, error } => {
            assert_eq!(secs, 2);
            assert_eq!(error, "timeout");
        }
        _ => panic!("expected a wait"),
    }
    match after_attempt(2, Err("timeout".to_string()), false) {
        AttemptOutcome::Wait { secs, .. } => assert_eq!(secs, 4),
        _ => panic!("expected a wait"),
    }
    match after_attempt(MAX_ATTEMPTS, Err("timeout".to_string()), false) {
        AttemptOutcome::Wait { secs, .. } => assert_eq!(secs, 6),
        _ => panic!("expected a wait"),
    }
}

#[test]
fn after_attempt_gives_up_when_cancelled() {
    match after_attempt(1, Err("timeout".to_string()), true) {
        AttemptOutcome::GiveUp { error } => assert_eq!(error, "timeout"),
        _ => panic!("expected give up"),
    }
}

#[test]
fn at_most_three_attempts_and_none_after_cancel() {
    assert!(may_attempt(1, false));
    assert!(may_attempt(MAX_ATTEMPTS, false));
    assert!(!may_attempt(MAX_ATTEMPTS + 1, false));
    assert!(!may_attempt(1, true));
}

#[test]
fn request_headers() {
    assert_eq!(bearer_value("abc"), "Bearer abc");
    assert_eq!(resume_range(0), None);
    assert_eq!(resume_range(1234), Some("bytes=1234-".to_string()));
    assert_eq!(closed_range(0, 99), "bytes=0-99");
    assert_eq!(closed_range(100, 18446744073709551615), "bytes=100-18446744073709551615");
}

#[test]
fn environment_token_wins() {
    assert_eq!(effective_token(Some("env".to_string()), Some("cfg".to_string())), Some("env".to_string()));
    assert_eq!(effective_token(None, Some("cfg".to_string())), Some("cfg".to_string()));
    assert_eq!(effective_token(None, None), None);
}

#[test]
fn diffusers_repository() {
    assert!(is_diffusers("diffusers"));
    assert!(!is_diffusers("Diffusers"));
    assert!(!is_diffusers("checkpoints"));
    assert!(!diffusers_present(None));
    assert!(!diffusers_present(Some(10)));
    assert!(diffusers_present(Some(11)));
    assert_eq!(
        diffusers_args("/m/diffusers", None),
        vec!["download", "stabilityai/stable-diffusion-xl-base-1.0", "--local-dir", "/m/diffusers"]
    );
    assert_eq!(
        diffusers_args("/m/d", Some("tok")),
        vec!["download", "stabilityai/stable-diffusion-xl-base-1.0", "--local-dir", "/m/d", "--token", "tok"]
    );
}

#[test]
fn classify_head_cases() {
    let ok = HeadOutcome::Response { status: 200, content_length: 123 };
    assert!(matches!(classify_head(&ok), SizeCheck::Valid { size: 123 }));
    let no_len = HeadOutcome::Response { status: 206, content_length: 0 };
    assert!(matches!(classify_head(&no_len), SizeCheck::Unknown));
    let redirect = HeadOutcome::Response { status: 302, content_length: 5 };
    assert!(matches!(classify_head(&redirect), SizeCheck::Invalid));
    assert!(matches!(classify_head(&HeadOutcome::StatusError { status: 404 }), SizeCheck::Invalid));
    assert!(matches!(classify_head(&HeadOutcome::Failed), SizeCheck::Invalid));
}

#[test]
fn refresh_size_update_cases() {
    let ok = HeadOutcome::Response { status: 200, content_length: 77 };
    assert_eq!(refresh_size_update(&ok), Some(77));
    let no_len = HeadOutcome::Response { status: 200, content_length: 0 };
    assert_eq!(refresh_size_update(&no_len), None);
    assert_eq!(refresh_size_update(&HeadOutcome::StatusError { status: 404 }), Some(0));
    assert_eq!(refresh_size_update(&HeadOutcome::StatusError { status: 500 }), None);
    assert_eq!(refresh_size_update(&HeadOutcome::Failed), None);
}

#[test]
fn refresh_tally_counts_each_kind() {
    let mut t = RefreshTally::new();
    t.record(&SizeCheck::Valid { size: 1 });
    t.record(&SizeCheck::Valid { size: 2 });
    t.record(&SizeCheck::Invalid);
    t.record(&SizeCheck::Unknown);
    assert_eq!((t.valid, t.invalid, t.unknown), (2, 1, 1));
}

#[test]
fn format_clock_cases() {
    assert_eq!(format_clock(0), "00:00:00");
    assert_eq!(format_clock(3661), "01:01:01");
    assert_eq!(format_clock(86399), "23:59:59");
    assert_eq!(format_clock(86400 + 45296), "12:34:56");
}

#[test]
fn find_models_matches_name_or_category_ignoring_case() {
    let models = vec![
        model("checkpoints", "Flux1-Dev.safetensors"),
        model("loras", "detail.safetensors"),
        model("vae", "ae.safetensors"),
    ];
    let r = find_models(&models, "FLUX");
    assert_eq!(r.len(), 1);
    assert_eq!(r[0].0, 0);
    let r = find_models(&models, "Lora");
    assert_eq!(r.iter().map(|e| e.0).collect::<Vec<_>>(), vec![1]);
    let r = find_models(&models, "safetensors");
    assert_eq!(r.iter().map(|e| e.0).collect::<Vec<_>>(), vec![0, 1, 2]);
    assert!(find_models(&models, "missing").is_empty());
}

fn scripted(results: Vec<Result<(), String>>) -> impl Fn(u64) -> Result<(), String> {
    let left = RefCell::new(results);
    move |_attempt| left.borrow_mut().remove(0)
}

#[test]
fn run_model_stops_at_first_success() {
    let waits = RefCell::new(Vec::new());
    let r = run_model(
        &scripted(vec![Err("timeout".to_string()), Ok(()), Ok(())]),
        &|| false,
        &|s: u64| waits.borrow_mut().push(s),
    );
    assert!(r.success);
    assert!(!r.cancelled);
    assert_eq!(r.results.len(), 2);
    assert_eq!(r.error, Some("timeout".to_string()));
    assert_eq!(*waits.borrow(), vec![2]);
}

#[test]
fn run_model_makes_three_attempts_at_most() {
    let waits = RefCell::new(Vec::new());
    let calls = Cell::new(0u32);
    let r = run_model(
        &|_a: u64| {
            calls.set(calls.get() + 1);
            Err("connection reset".to_string())
        },
        &|| false,
        &|s: u64| waits.borrow_mut().push(s),
    );
    assert!(!r.success);
    assert_eq!(calls.get(), 3);
    assert_eq!(r.error, Some("connection reset".to_string()));
    assert_eq!(*waits.borrow(), vec![2, 4, 6]);
}

#[test]
fn run_model_skips_retry_on_permanent_error() {
    let r = run_model(&scripted(vec![Err("HTTP 404".to_string())]), &|| false, &|_s: u64| {});
    assert!(!r.success);
    assert_eq!(r.results.len(), 1);
    assert_eq!(r.error, Some("HTTP 404 (skipped retry)".to_string()));
}

#[test]
fn run_model_respects_cancellation() {
    let r = run_model(&scripted(vec![Ok(())]), &|| true, &|_s: u64| {});
    assert!(r.cancelled);
    assert!(r.results.is_empty());
    assert_eq!(r.error, None);
    let asked = Cell::new(0u32);
    let r = run_model(
        &scripted(vec![Err("timeout".to_string()), Ok(())]),
        &|| {
            asked.set(asked.get() + 1);
            asked.get() > 1
        },
        &|_s: u64| {},
    );
    assert!(r.cancelled);
    assert!(!r.success);
    assert_eq!(r.results.len(), 1);
    assert_eq!(r.error, Some("timeout".to_string()));
}

#[test]
fn pick_match_decides_none_one_or_several() {
    let models = vec![model("checkpoints", "a.safetensors"), model("checkpoints", "b.safetensors")];
    assert!(matches!(pick_match(find_models(&models, "zzz")), MatchPick::NoMatch));
    match pick_match(find_models(&models, "b.safe")) {
        MatchPick::One { index, model } => {
            assert_eq!(index, 1);
            assert_eq!(model.filename, "b.safetensors");
        }
        _ => panic!("expected one match"),
    }
    match pick_match(find_models(&models, "checkpoints")) {
        MatchPick::Several { matches } => assert_eq!(matches.len(), 2),
        _ => panic!("expected several"),
    }
}
