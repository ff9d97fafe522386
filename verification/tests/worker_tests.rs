use std::cell::RefCell;

use downloader::model::Model;
use downloader::tui::DownloadEvent;
use downloader::worker::run_queue;

fn model(filename: &str) -> Model {
    Model {
        category: "c".to_string(),
        filename: filename.to_string(),
        url: format!("https://example.com/{filename}"),
        size_bytes: 1,
        sha256: None,
        group: "g".to_string(),
        notes: String::new(),
    }
}

fn describe(e: &DownloadEvent) -> String {
    match e {
        DownloadEvent::Start { worker_id, filename } => format!("start {worker_id} {filename}"),
        DownloadEvent::ModelFinished { worker_id, filename, success, error_msg } => {
            format!("finish {worker_id} {filename} {success} {error_msg:?}")
        }
        DownloadEvent::AllComplete { completed, failed } => format!("done {completed} {failed}"),
        _ => "other".to_string(),
    }
}

#[test]
fn worker_takes_models_from_the_end_and_reports_each_once() {
    let queue = vec![(4, model("a")), (7, model("b")), (9, model("c"))];
    let calls = RefCell::new(Vec::new());
    let sent = RefCell::new(Vec::new());
    let r = run_queue(
        queue,
        0,
        &|pos: usize, attempt: u64| {
            calls.borrow_mut().push((pos, attempt));
            if pos == 1 {
                Err("HTTP 404".to_string())
            } else {
                Ok(())
            }
        },
        &|| false,
        &|_s: u64| {},
        &|e: DownloadEvent| sent.borrow_mut().push(describe(&e)),
    );
    assert_eq!(*calls.borrow(), vec![(2, 1), (1, 1), (0, 1)]);
    assert_eq!(
        *sent.borrow(),
        vec![
            "start 0 c",
            "finish 0 c true None",
            "start 0 b",
            "finish 0 b false Some(\"HTTP 404 (skipped retry)\")",
            "start 0 a",
            "finish 0 a true None",
            "done 2 1",
        ]
    );
    assert_eq!(r.events.iter().map(describe).collect::<Vec<_>>(), *sent.borrow());
    assert_eq!((r.completed, r.failed, r.cancelled), (2, 1, false));
}

#[test]
fn worker_stops_when_cancelled() {
    let queue = vec![(0, model("a")), (1, model("b"))];
    let sent = RefCell::new(Vec::new());
    let r = run_queue(
        queue,
        0,
        &|_p: usize, _a: u64| Ok(()),
        &|| true,
        &|_s: u64| {},
        &|e: DownloadEvent| sent.borrow_mut().push(describe(&e)),
    );
    assert!(r.cancelled);
    assert!(r.runs.is_empty());
    assert_eq!(*sent.borrow(), vec!["done 0 0"]);
}
