use mdv::images::{source_kind, ImageLoads, LoadStep, SourceKind, MAX_CONCURRENT_LOADS};

#[test]
fn images_start_until_loaders_are_busy_then_wait() {
    let mut loads = ImageLoads::new();
    assert_eq!(MAX_CONCURRENT_LOADS, 4);
    assert_eq!(loads.request("a.png", true, 0), LoadStep::Start);
    assert_eq!(loads.request("b.png", true, 3), LoadStep::Start);
    assert_eq!(loads.request("c.png", true, 4), LoadStep::Wait);
    assert_eq!(loads.request("d.png", true, 9), LoadStep::Wait);
    assert_eq!(loads.loading, vec!["a.png".to_string(), "b.png".to_string()]);
    assert_eq!(loads.waiting, vec!["c.png".to_string(), "d.png".to_string()]);
}

#[test]
fn images_asked_for_again_are_left_alone() {
    let mut loads = ImageLoads::new();
    assert_eq!(loads.request("a.png", true, 0), LoadStep::Start);
    assert_eq!(loads.request("a.png", true, 0), LoadStep::Known);
    assert_eq!(loads.request("bad.png", false, 0), LoadStep::Refused);
    assert_eq!(loads.request("bad.png", true, 0), LoadStep::Known);
    assert_eq!(loads.failed, vec!["bad.png".to_string()]);
    assert!(loads.is_known("a.png"));
    assert!(!loads.is_known("other.png"));
}

#[test]
fn finished_loads_are_kept_or_failed() {
    let mut loads = ImageLoads::new();
    loads.request("a.png", true, 0);
    loads.request("b.png", true, 1);
    assert!(loads.is_loading("a.png"));
    loads.finish("a.png", true);
    loads.finish("b.png", false);
    assert!(!loads.is_loading("a.png"));
    assert_eq!(loads.loaded, vec!["a.png".to_string()]);
    assert_eq!(loads.failed, vec!["b.png".to_string()]);
    assert!(loads.loading.is_empty());
}

#[test]
fn waiting_images_start_oldest_first_when_a_loader_is_free() {
    let mut loads = ImageLoads::new();
    loads.request("c.png", true, 4);
    loads.request("d.png", true, 4);
    assert_eq!(loads.next_waiting(4), None);
    assert_eq!(loads.next_waiting(3), Some("c.png".to_string()));
    assert_eq!(loads.loading, vec!["c.png".to_string()]);
    assert_eq!(loads.next_waiting(3), Some("d.png".to_string()));
    assert_eq!(loads.next_waiting(0), None);
    assert!(loads.waiting.is_empty());
}

#[test]
fn image_sources_are_absolute_in_home_or_relative() {
    assert_eq!(source_kind("/tmp/a.png"), SourceKind::Absolute);
    assert_eq!(source_kind("~/pics/a.png"), SourceKind::InHome);
    assert_eq!(source_kind("~a.png"), SourceKind::Relative);
    assert_eq!(source_kind("img/a.png"), SourceKind::Relative);
    assert_eq!(source_kind(""), SourceKind::Relative);
}
