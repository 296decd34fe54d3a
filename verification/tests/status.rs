use adequate_booru_viewer::index::FactMerge;
use adequate_booru_viewer::model::PostId;
use adequate_booru_viewer::status::{clip_status, crawl_status, merge_status, save_status};

#[test]
fn worker_reports_read_as_status_lines() {
    assert_eq!(crawl_status(200, Some(PostId(7_000_123))), "crawl +200; before #7000123");
    assert_eq!(crawl_status(0, None), "crawl reached empty page");
    let merge = FactMerge { batches: 3, bytes: 5000, groups: 41 };
    assert_eq!(merge_status(&merge), "posting merge 3 batches, 4 KiB across 41 predicates");
    assert_eq!(save_status(PostId(9), Ok("/tmp/a.png")), "saved #9 to /tmp/a.png");
    assert_eq!(save_status(PostId(9), Err("disk full")), "save #9 failed: disk full");
}

#[test]
fn embedding_batches_report_faults_only_when_there_are_some() {
    assert_eq!(clip_status(12, 0), "embedded 12 Jina CLIP images");
    assert_eq!(clip_status(10, 2), "embedded 10 Jina CLIP images; 2 faults");
    assert_eq!(clip_status(0, 0), "embedded 0 Jina CLIP images");
}
