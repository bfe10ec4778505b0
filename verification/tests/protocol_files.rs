use underpane::protocol::{
    plan_file_response, plan_file_response_with_type, unsatisfiable_head, FilePlan,
    MAX_EXTERNAL_RESPONSE_BYTES, MAX_RESPONSE_BYTES,
};

fn plan(size: u64, range: Option<&str>) -> FilePlan {
    plan_file_response_with_type("image/png".to_string(), false, size, MAX_RESPONSE_BYTES, range)
}

fn span(p: &FilePlan) -> Option<(u64, u64)> {
    match p {
        FilePlan::Partial { start, end, .. } => Some((*start, *end)),
        _ => None,
    }
}

#[test]
fn too_large_and_head() {
    let p = plan_file_response_with_type("a/b".into(), false, MAX_RESPONSE_BYTES + 1, MAX_RESPONSE_BYTES, None);
    assert!(matches!(p, FilePlan::TooLarge));
    let h = p.response_head(0);
    assert_eq!(h.status, 413);
    assert_eq!(h.headers, vec![("Accept-Ranges".to_string(), "bytes".to_string())]);
    let p = plan_file_response_with_type("text/html".into(), true, 10, MAX_RESPONSE_BYTES, Some("bytes=0-1"));
    let h = p.response_head(0);
    assert_eq!(h.status, 200);
    assert_eq!(
        h.headers,
        vec![
            ("Content-Type".to_string(), "text/html".to_string()),
            ("Content-Length".to_string(), "10".to_string()),
            ("Accept-Ranges".to_string(), "bytes".to_string()),
        ]
    );
    let p = plan_file_response_with_type("v".into(), false, MAX_RESPONSE_BYTES + 1, MAX_EXTERNAL_RESPONSE_BYTES, None);
    assert!(matches!(p, FilePlan::Full { .. }));
}

#[test]
fn serves_ranges() {
    assert_eq!(span(&plan(1000, Some("bytes=0-99"))), Some((0, 99)));
    assert_eq!(span(&plan(1000, Some("bytes=-100"))), Some((900, 999)));
    assert_eq!(span(&plan(1000, Some("bytes=-5000"))), Some((0, 999)));
    assert_eq!(span(&plan(1000, Some("bytes=500-"))), Some((500, 999)));
    assert_eq!(span(&plan(1000, Some("bytes=500-99999"))), Some((500, 999)));
    assert_eq!(span(&plan(1000, Some("bytes=x-10"))), Some((0, 10)));
    assert_eq!(span(&plan(1000, Some("bytes=5-x"))), Some((5, 999)));
    assert_eq!(span(&plan(1000, Some("bytes=5-7-9"))), Some((5, 999)));
    assert_eq!(span(&plan(1000, Some("bytes=7"))), Some((7, 999)));
    let big = 3 * MAX_RESPONSE_BYTES;
    let p = plan_file_response_with_type("v".into(), false, big, MAX_EXTERNAL_RESPONSE_BYTES, Some("bytes=0-"));
    assert_eq!(span(&p), Some((0, MAX_RESPONSE_BYTES - 1)));
}

#[test]
fn refuses_unservable_ranges() {
    assert!(matches!(plan(1000, Some("bytes=2000-")), FilePlan::Unsatisfiable { file_size: 1000 }));
    assert!(matches!(plan(1000, Some("bytes=10-5")), FilePlan::Unsatisfiable { .. }));
    assert!(matches!(plan(1000, Some("items=0-1")), FilePlan::Unsatisfiable { .. }));
    assert!(matches!(plan(0, Some("items=0-1")), FilePlan::Unsatisfiable { .. }));
    let h = plan(1000, Some("bytes=2000-")).response_head(0);
    assert_eq!(h.status, 416);
    assert_eq!(h.headers, vec![("Content-Range".to_string(), "bytes */1000".to_string())]);
    let h = unsatisfiable_head(7);
    assert_eq!(h.headers[0].1, "bytes */7");
}

#[test]
fn partial_and_full_heads() {
    let h = plan(1000, Some("bytes=10-19")).response_head(0);
    assert_eq!(h.status, 206);
    assert_eq!(
        h.headers,
        vec![
            ("Content-Type".to_string(), "image/png".to_string()),
            ("Content-Length".to_string(), "10".to_string()),
            ("Content-Range".to_string(), "bytes 10-19/1000".to_string()),
            ("Accept-Ranges".to_string(), "bytes".to_string()),
        ]
    );
    let p = plan(1000, None);
    assert!(matches!(p, FilePlan::Full { .. }));
    let h = p.response_head(998);
    assert_eq!(h.status, 200);
    assert_eq!(h.headers[1], ("Content-Length".to_string(), "998".to_string()));
}

#[test]
fn guesses_content_types_from_paths() {
    match plan_file_response("/w/cube/index.html", true, 5, MAX_RESPONSE_BYTES, None) {
        FilePlan::HeadOnly { content_type, file_size } => {
            assert_eq!(content_type, "text/html");
            assert_eq!(file_size, 5);
        }
        p => panic!("unexpected {p:?}"),
    }
    match plan_file_response("/w/cube/blob", false, 5, MAX_RESPONSE_BYTES, None) {
        FilePlan::Full { content_type } => assert_eq!(content_type, "application/octet-stream"),
        p => panic!("unexpected {p:?}"),
    }
    match plan_file_response("/w/cube/Photo.PNG", true, 5, MAX_RESPONSE_BYTES, None) {
        FilePlan::HeadOnly { content_type, .. } => assert_eq!(content_type, "image/png"),
        p => panic!("unexpected {p:?}"),
    }
    match plan_file_response("/w/cube/.css", true, 5, MAX_RESPONSE_BYTES, None) {
        FilePlan::HeadOnly { content_type, .. } => {
            assert_eq!(content_type, "application/octet-stream")
        }
        p => panic!("unexpected {p:?}"),
    }
    match plan_file_response("/w/cube/style.min.css", true, 5, MAX_RESPONSE_BYTES, None) {
        FilePlan::HeadOnly { content_type, .. } => assert_eq!(content_type, "text/css"),
        p => panic!("unexpected {p:?}"),
    }
}
