use execmon::datetime::DateTime;
use execmon::process_service::ProcessService;
use execmon::textline::{parse_line, render_line, split_fields, trim_str, ParseError, ProcessExecution};

#[test]
fn test_parsing_line() {
    let process_service = ProcessService::new();
    let line = "2025 Mar 25 21:16:01,1000,12681,3784,systemd,/nix/store/w9qcpyhjrxsqrps91wkz8r4mqvg9zrxc-systemd-256.10/lib/systemd/systemd-executor --deserialize 47 --log-level info --log-target auto";
    let process = parse_line(line, &process_service).unwrap();
    assert_eq!(process.pid, 12681);
    assert_eq!(process.ppid, 3784);
    assert_eq!(process.comm, "systemd");
    assert_eq!(
        process.args,
        "/nix/store/w9qcpyhjrxsqrps91wkz8r4mqvg9zrxc-systemd-256.10/lib/systemd/systemd-executor --deserialize 47 --log-level info --log-target auto"
    );
}

#[test]
fn end_to_end_text_line() {
    let service = ProcessService::new();
    let line = "2025 Mar 16 13:42:53,1000,3925,341,bash,/usr/sbin/netstat -na";
    let process = parse_line(line, &service).unwrap();
    assert_eq!(process.pid, 3925);
    assert_eq!(process.ppid, 341);
    assert_eq!(process.comm, "bash");
    assert_eq!(process.args, "/usr/sbin/netstat -na");
    assert_eq!(
        process.timestamp,
        DateTime { year: 2025, month: 3, day: 16, hour: 13, minute: 42, second: 53 }
    );
    // The username is whatever the user database answers for uid 1000, or
    // None when that uid is unknown here.
    assert_eq!(process.username, service.get_user_by_id(1000));
}

#[test]
fn line_with_too_few_fields() {
    let service = ProcessService::new();
    let r = parse_line("2025 Mar 16 13:42:53,1000,3925,341,bash", &service);
    assert_eq!(r.unwrap_err(), ParseError::MissingFields);
}

#[test]
fn line_with_bad_timestamp() {
    let service = ProcessService::new();
    let r = parse_line("yesterday,1000,3925,341,bash,ls", &service);
    assert_eq!(r.unwrap_err(), ParseError::BadTimestamp);
}

#[test]
fn line_with_bad_numbers() {
    let service = ProcessService::new();
    let base = "2025 Mar 16 13:42:53";
    assert_eq!(
        parse_line(&format!("{base},root,3925,341,bash,ls"), &service).unwrap_err(),
        ParseError::BadUid
    );
    assert_eq!(
        parse_line(&format!("{base},1000,-3,341,bash,ls"), &service).unwrap_err(),
        ParseError::BadPid
    );
    assert_eq!(
        parse_line(&format!("{base},1000,3925,99999999999,bash,ls"), &service).unwrap_err(),
        ParseError::BadPpid
    );
}

#[test]
fn line_rejects_impossible_calendar_dates() {
    let service = ProcessService::new();
    let r = parse_line("2025 Feb 30 13:42:53,1000,1,2,bash,ls", &service);
    assert_eq!(r.unwrap_err(), ParseError::BadTimestamp);
    // 2024 is a leap year, 2025 is not.
    assert!(parse_line("2024 Feb 29 13:42:53,1000,1,2,bash,ls", &service).is_ok());
    assert_eq!(
        parse_line("2025 Feb 29 13:42:53,1000,1,2,bash,ls", &service).unwrap_err(),
        ParseError::BadTimestamp
    );
}

#[test]
fn month_names_ignore_case() {
    let service = ProcessService::new();
    let p = parse_line("2025 mar 16 13:42:53,1000,1,2,bash,ls", &service).unwrap();
    assert_eq!(p.timestamp.month, 3);
    let p = parse_line("2025 DEC 16 13:42:53,1000,1,2,bash,ls", &service).unwrap();
    assert_eq!(p.timestamp.month, 12);
}

#[test]
fn comm_and_args_are_trimmed() {
    let service = ProcessService::new();
    let p = parse_line("2025 Mar 16 13:42:53,1000,1,2,  bash\t, ls -l \r", &service).unwrap();
    assert_eq!(p.comm, "bash");
    assert_eq!(p.args, "ls -l");
}

#[test]
fn fields_after_the_sixth_are_ignored() {
    let service = ProcessService::new();
    let p = parse_line("2025 Mar 16 13:42:53,1000,1,2,bash,ls -l,extra,more", &service).unwrap();
    assert_eq!(p.args, "ls -l");
}

#[test]
fn split_fields_keeps_order_and_limit() {
    let parts = split_fields("a,b,c,d", 6);
    assert_eq!(parts, vec!["a", "b", "c", "d"]);
    let parts = split_fields("a,b,c,d", 2);
    assert_eq!(parts, vec!["a", "b"]);
    let parts = split_fields("", 6);
    assert_eq!(parts, vec![""]);
}

#[test]
fn trim_strips_ascii_whitespace_only_at_the_edges() {
    assert_eq!(trim_str("  a b \t\r\n"), "a b");
    assert_eq!(trim_str(""), "");
    assert_eq!(trim_str(" \t "), "");
    assert_eq!(trim_str("x"), "x");
}

#[test]
fn rendering_a_line_and_parsing_it_back_round_trips() {
    let service = ProcessService::new();
    let p = ProcessExecution {
        pid: 3925,
        ppid: 341,
        comm: "bash".to_string(),
        args: "/usr/sbin/netstat -na".to_string(),
        timestamp: DateTime { year: 2025, month: 3, day: 16, hour: 13, minute: 42, second: 53 },
        username: None,
    };
    let line = render_line(&p, 1000);
    assert_eq!(line, "2025 Mar 16 13:42:53,1000,3925,341,bash,/usr/sbin/netstat -na");
    let q = parse_line(&line, &service).unwrap();
    assert_eq!(q.pid, p.pid);
    assert_eq!(q.ppid, p.ppid);
    assert_eq!(q.comm, p.comm);
    assert_eq!(q.args, p.args);
    assert_eq!(q.timestamp, p.timestamp);
    // Rendering the same execution twice yields the identical line.
    assert_eq!(render_line(&p, 1000), line);
}
