use std::path::PathBuf;

use downloader::config::{select_config, Config};
use downloader::table::StrTable;

fn test_config() -> Config {
    let mut paths = StrTable::new();
    paths.insert("checkpoints".to_string(), "checkpoints/".to_string());
    paths.insert("loras".to_string(), "loras/".to_string());
    Config { models_dir: "/tmp".to_string(), hf_token: None, paths }
}

#[test]
fn resolve_category_dir_with_paths_entry() {
    let mut paths = StrTable::new();
    paths.insert("ckpt".to_string(), "checkpoints".to_string());
    let cfg = Config { models_dir: "/tmp".to_string(), hf_token: None, paths };
    let result = cfg.resolve_category_dir("ckpt");
    assert_eq!(PathBuf::from(result), PathBuf::from("/tmp/checkpoints"));
}

#[test]
fn resolve_category_dir_without_paths_entry() {
    let cfg = test_config();
    let result = cfg.resolve_category_dir("vae");
    assert_eq!(PathBuf::from(result), PathBuf::from("/tmp/vae"));
}

#[test]
fn resolve_category_dir_strips_trailing_slash() {
    let mut paths = StrTable::new();
    paths.insert("upscale".to_string(), "upscale_models/".to_string());
    let cfg = Config { models_dir: "/tmp".to_string(), hf_token: None, paths };
    let result = cfg.resolve_category_dir("upscale");
    assert_eq!(PathBuf::from(result), PathBuf::from("/tmp/upscale_models"));
}

#[test]
fn resolve_category_dir_empty_category() {
    let cfg = test_config();
    let result = cfg.resolve_category_dir("");
    assert_eq!(PathBuf::from(result), PathBuf::from("/tmp/"));
}

#[test]
fn resolve_category_dir_different_models_dir() {
    let cfg = Config { models_dir: "/tmp/models".to_string(), hf_token: None, paths: StrTable::new() };
    let result = cfg.resolve_category_dir("clip");
    assert_eq!(PathBuf::from(result), PathBuf::from("/tmp/models/clip"));
}

#[test]
fn resolve_category_dir_matches_path_join() {
    let mut paths = StrTable::new();
    paths.insert("abs".to_string(), "//srv/models//".to_string());
    paths.insert("plain".to_string(), "sub/dir".to_string());
    let cfg = Config { models_dir: "/data/".to_string(), hf_token: None, paths };
    for cat in ["abs", "plain", "vae", "", "x/y"] {
        let sub = match cat {
            "abs" => "srv/models",
            "plain" => "sub/dir",
            other => other,
        };
        let expected = PathBuf::from("/data/").join(sub);
        assert_eq!(cfg.resolve_category_dir(cat), expected.to_string_lossy());
    }
    let bare = Config { models_dir: String::new(), hf_token: None, paths: StrTable::new() };
    assert_eq!(bare.resolve_category_dir("vae"), "vae");
    assert_eq!(bare.resolve_category_dir("/abs"), "/abs");
}

#[test]
fn traversal_guard_falls_back_to_category_name() {
    let mut paths = StrTable::new();
    paths.insert("evil".to_string(), "../../etc".to_string());
    let cfg = Config { models_dir: "/tmp/models".to_string(), hf_token: None, paths };
    assert_eq!(cfg.resolve_category_dir("evil"), "/tmp/models/../../etc");
    let guarded = cfg.resolve_category_dir_within("evil", Some("/tmp/models"), Some("/etc"));
    assert_eq!(guarded, "/tmp/models/evil");
    let inside = cfg.resolve_category_dir_within("evil", Some("/tmp/models"), Some("/tmp/models/etc"));
    assert_eq!(inside, "/tmp/models/../../etc");
    // a sibling directory sharing a name prefix is not inside
    let sibling = cfg.resolve_category_dir_within("evil", Some("/tmp/models"), Some("/tmp/models2"));
    assert_eq!(sibling, "/tmp/models/evil");
    // without canonical forms the resolved directory is kept
    let unknown = cfg.resolve_category_dir_within("evil", Some("/tmp/models"), None);
    assert_eq!(unknown, "/tmp/models/../../etc");
}

fn named(dir: &str) -> Config {
    Config { models_dir: dir.to_string(), hf_token: Some("tok".to_string()), paths: StrTable::new() }
}

#[test]
fn config_sources_are_tried_in_order() {
    let home = Some("/home/u".to_string());
    let c = select_config(Some(named("local")), home.clone(), Some(named("user")), Some("/a/b".to_string()), Some(named("default")));
    assert_eq!(c.models_dir, "local");
    let c = select_config(None, home.clone(), Some(named("user")), Some("/a/b".to_string()), Some(named("default")));
    assert_eq!(c.models_dir, "user");
    let c = select_config(None, home.clone(), None, Some("/srv/comfy/output".to_string()), Some(named("default")));
    assert_eq!(c.models_dir, "/srv/comfy/Models");
    assert_eq!(c.hf_token, Some("tok".to_string()));
    let c = select_config(None, home.clone(), None, Some("/srv/comfy/output".to_string()), None);
    assert_eq!(c.models_dir, "/srv/comfy/Models");
    assert_eq!(c.hf_token, None);
    let c = select_config(None, home.clone(), None, Some("/".to_string()), Some(named("default")));
    assert_eq!(c.models_dir, "default");
    let c = select_config(None, home.clone(), None, None, None);
    assert_eq!(c.models_dir, "/home/u/SharedData/Models");
    let c = select_config(None, None, Some(named("user")), Some("/x/y".to_string()), None);
    assert_eq!(c.models_dir, "./Models");
}
