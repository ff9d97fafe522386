use downloader::model::Model;
use downloader::render::{copy_outcome, list_row, listed_size, pad_left, pad_right, progress_bar_text, status_row};
use downloader::size::format_size;

fn model(category: &str, filename: &str, size: u64) -> Model {
    Model {
        category: category.to_string(),
        filename: filename.to_string(),
        url: "https://example.com/m".to_string(),
        size_bytes: size,
        sha256: None,
        group: "g".to_string(),
        notes: String::new(),
    }
}

#[test]
fn progress_bar_fills_the_given_cells() {
    assert_eq!(progress_bar_text(5, 10, 50), "[\u{2588}\u{2588}\u{2588}\u{2588}\u{2588}\u{2591}\u{2591}\u{2591}\u{2591}\u{2591}] 50%");
    assert_eq!(progress_bar_text(0, 3, 0), "[\u{2591}\u{2591}\u{2591}] 0%");
    assert_eq!(progress_bar_text(0, 0, 7), "[] 7%");
}

#[test]
fn progress_bar_never_overflows_its_width() {
    assert_eq!(progress_bar_text(99, 2, 100), "[\u{2588}\u{2588}] 100%");
}

#[test]
fn padding_matches_std_formatting() {
    for s in ["", "abc", "a/b.safetensors", "\u{e9}t\u{e9}", "exactly-ten"] {
        for w in [0usize, 3, 10, 12, 50] {
            assert_eq!(pad_right(s, w), format!("{:<w$}", s, w = w));
            assert_eq!(pad_left(s, w), format!("{:>w$}", s, w = w));
        }
    }
}

#[test]
fn listed_size_prefers_catalogue_then_cache() {
    assert_eq!(listed_size(&model("c", "f", 10), Some(99)), 10);
    assert_eq!(listed_size(&model("c", "f", 0), Some(99)), 99);
    assert_eq!(listed_size(&model("c", "f", 0), None), 0);
}

#[test]
fn list_rows_are_aligned() {
    let m = model("checkpoints", "flux.safetensors", 2048);
    let expected = format!("  {:<50} {:>12}  {}", "checkpoints/flux.safetensors", format_size(2048), "\u{2713}");
    assert_eq!(list_row(&m, 2048, true), expected);
    let expected = format!("  {:<50} {:>12}  {}", "checkpoints/flux.safetensors", "Unknown", "\u{2717}");
    assert_eq!(list_row(&m, 0, false), expected);
}

#[test]
fn status_rows_are_aligned() {
    let m = model("vae", "ae.safetensors", 0);
    let expected = format!(
        "{:<55} {:>12} {}",
        "vae/ae.safetensors",
        format_size(5 * 1024 * 1024),
        "\x1b[32m\u{2713} READY\x1b[0m"
    );
    assert_eq!(status_row(&m, 5 * 1024 * 1024, true), expected);
    let expected = format!("{:<55} {:>12} {}", "vae/ae.safetensors", "500 B", "\x1b[31m\u{2717} MISSING\x1b[0m");
    assert_eq!(status_row(&m, 500, false), expected);
}

#[test]
fn clipboard_messages() {
    assert_eq!(copy_outcome(true, "/x/session.log", 12), "\u{2713} Logs copied (12 lines)");
    assert_eq!(copy_outcome(false, "/x/session.log", 3), "Log: /x/session.log (3 lines)");
    assert_eq!(copy_outcome(false, "", 0), "Log:  (0 lines)");
}
