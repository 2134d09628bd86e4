use jianpu::error::{ErrorKind, JianPuError, Span};

#[test]
fn display_shows_message() {
    let e = JianPuError::new(Span::new(10, 20), "bad token".to_string());
    assert_eq!(e.to_display_string(), "error: bad token");
}

#[test]
fn with_path_attaches_path() {
    let e = JianPuError::new(Span::new(0, 1), "oops".to_string()).with_path("/tmp/test.jianpu");
    assert_eq!(e.path.unwrap(), "/tmp/test.jianpu");
}

#[test]
fn without_path_is_none() {
    let e = JianPuError::new(Span::new(0, 1), "oops".to_string());
    assert!(e.path.is_none());
}

#[test]
fn dash_after_rest_has_its_own_kind() {
    let e = JianPuError::dash_after_rest(Span::new(3, 4));
    assert_eq!(e.kind, ErrorKind::DashAfterRest);
    assert_eq!((e.span.start, e.span.end), (3, 4));
    let g = JianPuError::new(Span::new(0, 1), "x".to_string());
    assert_eq!(g.kind, ErrorKind::General);
}
