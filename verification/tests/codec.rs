use execmon::codec::{decode_frame, encode_execution, encode_event, DecodeError, DecodedProcessExecution};
use execmon::schema::{Event, ARG_COUNT, ARG_SIZE, COMM_SIZE, ENV_COUNT, ENV_SIZE, EVENT_BYTES};

fn sample_execution() -> DecodedProcessExecution {
    DecodedProcessExecution {
        timestamp: 123_456_789,
        uid: 1000,
        gid: 1000,
        pid: 3925,
        ppid: 341,
        comm: "bash".to_string(),
        args: vec!["/usr/sbin/netstat".to_string(), "-na".to_string()],
        envs: vec!["HOME=/root".to_string()],
        username: Some("user".to_string()),
    }
}

#[test]
fn round_trip_preserves_in_range_fields() {
    let d = sample_execution();
    let frame = encode_execution(&d);
    assert_eq!(frame.len(), EVENT_BYTES);
    let back = decode_frame(&frame).unwrap();
    assert_eq!(back.timestamp, d.timestamp);
    assert_eq!(back.uid, d.uid);
    assert_eq!(back.gid, d.gid);
    assert_eq!(back.pid, d.pid);
    assert_eq!(back.ppid, d.ppid);
    assert_eq!(back.comm, d.comm);
    assert_eq!(back.args.len(), ARG_COUNT);
    assert_eq!(back.args[0], "/usr/sbin/netstat");
    assert_eq!(back.args[1], "-na");
    for i in 2..ARG_COUNT {
        assert_eq!(back.args[i], "");
    }
    assert_eq!(back.envs.len(), ENV_COUNT);
    assert_eq!(back.envs[0], "HOME=/root");
    for i in 1..ENV_COUNT {
        assert_eq!(back.envs[i], "");
    }
    // The username is not part of the wire record.
    assert_eq!(back.username, None);
}

#[test]
fn over_capacity_fields_truncate_identically_on_repeated_runs() {
    let mut d = sample_execution();
    d.comm = "a-command-name-way-too-long".to_string();
    d.args[0] = "x".repeat(ARG_SIZE + 10);
    let f1 = encode_execution(&d);
    let f2 = encode_execution(&d);
    assert_eq!(f1, f2);
    let back = decode_frame(&f1).unwrap();
    assert_eq!(back.comm, "a-command-name-w");
    assert_eq!(back.comm.len(), COMM_SIZE);
    assert_eq!(back.args[0], "x".repeat(ARG_SIZE));
}

#[test]
fn decoder_rejects_wrong_length_frames() {
    assert_eq!(decode_frame(&[]).unwrap_err(), DecodeError::BadLength);
    assert_eq!(decode_frame(&vec![0u8; EVENT_BYTES - 1]).unwrap_err(), DecodeError::BadLength);
    assert_eq!(decode_frame(&vec![0u8; EVENT_BYTES + 1]).unwrap_err(), DecodeError::BadLength);
    assert!(decode_frame(&vec![0u8; EVENT_BYTES]).is_ok());
}

#[test]
fn string_decoding_is_lossy_never_an_error() {
    let mut frame = vec![0u8; EVENT_BYTES];
    // Invalid UTF-8 in the comm buffer at offset 24.
    frame[24] = 0xff;
    frame[25] = b'A';
    let back = decode_frame(&frame).unwrap();
    assert_eq!(back.comm, "\u{FFFD}A");
}

fn fit(bytes: &[u8], size: usize) -> Vec<u8> {
    let mut v = bytes.to_vec();
    v.truncate(size);
    v.resize(size, 0);
    v
}

fn sample_event() -> Event {
    Event {
        timestamp: 42,
        uid: 0,
        gid: 0,
        pid: 7,
        ppid: 1,
        comm: fit(b"bash", COMM_SIZE),
        args: (0..ARG_COUNT).map(|i| if i == 0 { fit(b"ls", ARG_SIZE) } else { fit(b"", ARG_SIZE) }).collect(),
        envs: (0..ENV_COUNT).map(|_| fit(b"", ENV_SIZE)).collect(),
    }
}

#[test]
fn raw_event_encodes_to_one_fixed_frame() {
    let e = sample_event();
    let frame = encode_event(&e);
    assert_eq!(frame.len(), EVENT_BYTES);
    assert_eq!(&frame[0..8], &42u64.to_le_bytes());
    assert_eq!(&frame[16..20], &7u32.to_le_bytes());
    assert_eq!(&frame[24..28], b"bash");
    let back = decode_frame(&frame).unwrap();
    assert_eq!(back.comm, "bash");
    assert_eq!(back.args[0], "ls");
    assert_eq!(back.pid, 7);
}

#[test]
fn raw_event_renders_as_text() {
    let e = sample_event();
    let text = e.render_text();
    // The raw comm buffer renders whole, padding nulls included.
    assert!(text.starts_with("bash\u{0}"));
    assert!(text.contains("(7): "));
    assert!(text.contains("ls"));
}

#[test]
fn invalid_utf8_comm_renders_lossily() {
    let mut e = sample_event();
    e.comm = fit(&[0xff, 0xfe], COMM_SIZE);
    let text = e.render_text();
    // Invalid byte sequences are replaced, never an error and never dropped.
    assert!(text.starts_with("\u{FFFD}\u{FFFD}"));
    assert!(text.contains("(7): "));
}
