use execmon::process_service::{join_with_spaces, ProcessService, RenderedProcess};

#[test]
fn missing_pids_report_not_found() {
    let service = ProcessService::new();
    assert!(service.get_process(999_999_999).is_none());
}

#[test]
fn the_init_process_is_found() {
    let service = ProcessService::new();
    assert!(service.get_process(1).is_some());
}

#[test]
fn unknown_uids_resolve_to_none() {
    let service = ProcessService::new();
    assert!(service.get_user_by_id(4_294_967_294).is_none());
}

#[test]
fn rendered_process_shows_its_fields() {
    let p = RenderedProcess {
        cwd: Some("/tmp".to_string()),
        user: "root".to_string(),
        env: vec!["A=1".to_string(), "B=2".to_string()],
    };
    assert_eq!(p.render_text(), "cwd: /tmp, user: root, env: A=1 B=2");
    let p = RenderedProcess { cwd: None, user: "".to_string(), env: vec![] };
    assert_eq!(p.render_text(), "cwd: , user: , env: ");
}

#[test]
fn joining_with_spaces_separates_each_entry() {
    assert_eq!(join_with_spaces(&vec![]), "");
    assert_eq!(join_with_spaces(&vec!["a".to_string()]), "a");
    assert_eq!(join_with_spaces(&vec!["a".to_string(), "b".to_string(), "c".to_string()]), "a b c");
}
