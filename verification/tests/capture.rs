use execmon::capture::{
    capture_strings, submit, sys_enter_execve, try_enter_execve, SysEnterExecve, TaskContext,
    UserRead,
};
use execmon::codec::{decode_frame, encode_event};
use execmon::schema::{Event, ARG_COUNT, ARG_SIZE, COMM_SIZE, ENV_COUNT, ENV_SIZE, EVENT_BYTES};
use execmon::transport::Transport;

fn comm16(name: &[u8]) -> Vec<u8> {
    let mut v = name.to_vec();
    v.resize(COMM_SIZE, 0);
    v
}

fn task() -> TaskContext {
    TaskContext { pid: 3925, ppid: 341, uid: 1000, gid: 1000, timestamp: 99, comm: comm16(b"bash") }
}

fn header() -> SysEnterExecve {
    SysEnterExecve {
        common_type: 0,
        common_flags: 0,
        common_preempt_count: 0,
        common_pid: 3925,
        __syscall_nr: 59,
        filename: 0x1000,
        argv: 0x2000,
        envp: 0x3000,
    }
}

fn reads(texts: &[&[u8]], terminated: bool) -> Vec<UserRead> {
    let mut v: Vec<UserRead> = texts.iter().map(|t| UserRead::Text(t.to_vec())).collect();
    if terminated {
        v.push(UserRead::Terminator);
    }
    while v.len() < ARG_COUNT {
        v.push(UserRead::Terminator);
    }
    v
}

#[test]
fn short_argv_populates_exactly_its_slots() {
    let argv = reads(&[b"/bin/ls", b"-l", b"/tmp"], true);
    let slots = capture_strings(&argv, ARG_COUNT, ARG_SIZE);
    assert_eq!(slots.len(), ARG_COUNT);
    assert_eq!(&slots[0][0..7], b"/bin/ls");
    assert_eq!(&slots[1][0..2], b"-l");
    assert_eq!(&slots[2][0..4], b"/tmp");
    for i in 3..ARG_COUNT {
        assert!(slots[i].iter().all(|&b| b == 0));
    }
    for s in &slots {
        assert_eq!(s.len(), ARG_SIZE);
    }
}

#[test]
fn long_argv_stops_at_the_slot_count() {
    let texts: Vec<Vec<u8>> = (0..ARG_COUNT + 5).map(|i| format!("arg{i}").into_bytes()).collect();
    let argv: Vec<UserRead> = texts.iter().map(|t| UserRead::Text(t.clone())).collect();
    let slots = capture_strings(&argv, ARG_COUNT, ARG_SIZE);
    assert_eq!(slots.len(), ARG_COUNT);
    for (i, s) in slots.iter().enumerate() {
        let expected = format!("arg{i}").into_bytes();
        assert_eq!(&s[0..expected.len()], &expected[..]);
    }
}

#[test]
fn oversized_string_truncates_without_failing() {
    let long = vec![b'x'; ARG_SIZE + 30];
    let argv = reads(&[&long], true);
    let slots = capture_strings(&argv, ARG_COUNT, ARG_SIZE);
    assert_eq!(slots[0], vec![b'x'; ARG_SIZE]);
}

#[test]
fn unreadable_pointer_leaves_its_slot_empty_and_continues() {
    let mut argv = reads(&[b"/bin/ls", b"-l", b"/tmp"], true);
    argv[1] = UserRead::Unreadable;
    let slots = capture_strings(&argv, ARG_COUNT, ARG_SIZE);
    assert_eq!(&slots[0][0..7], b"/bin/ls");
    assert!(slots[1].iter().all(|&b| b == 0));
    // The chosen policy continues past the unreadable entry.
    assert_eq!(&slots[2][0..4], b"/tmp");
}

#[test]
fn capture_emits_one_frame_end_to_end() {
    let mut transport = Transport::new(4 * EVENT_BYTES);
    let argv = reads(&[b"/usr/sbin/netstat", b"-na"], true);
    let envp = reads(&[b"HOME=/root"], true);
    let r = try_enter_execve(&task(), Some(header()), &argv, &envp, &mut transport);
    assert_eq!(r, Ok(0));
    let frame = transport.poll().expect("one frame was published");
    assert_eq!(frame.len(), EVENT_BYTES);
    let d = decode_frame(&frame).unwrap();
    assert_eq!(d.pid, 3925);
    assert_eq!(d.ppid, 341);
    assert_eq!(d.uid, 1000);
    assert_eq!(d.gid, 1000);
    assert_eq!(d.timestamp, 99);
    assert_eq!(d.comm, "bash");
    assert_eq!(d.args[0], "/usr/sbin/netstat");
    assert_eq!(d.args[1], "-na");
    assert_eq!(d.envs[0], "HOME=/root");
    assert!(transport.poll().is_none());
}

#[test]
fn unreadable_header_aborts_only_this_event() {
    let mut transport = Transport::new(4 * EVENT_BYTES);
    let argv = reads(&[b"/bin/ls"], true);
    let envp = reads(&[], true);
    let r = try_enter_execve(&task(), None, &argv, &envp, &mut transport);
    assert_eq!(r, Err(-1));
    assert!(transport.poll().is_none());
    // The tracepoint wrapper maps the error to an all-ones status.
    let s = sys_enter_execve(&task(), None, &argv, &envp, &mut transport);
    assert_eq!(s, u32::MAX);
    let s = sys_enter_execve(&task(), Some(header()), &argv, &envp, &mut transport);
    assert_eq!(s, 0);
}

#[test]
fn full_transport_drops_the_event_silently() {
    let mut transport = Transport::new(EVENT_BYTES - 1);
    let argv = reads(&[b"/bin/ls"], true);
    let envp = reads(&[], true);
    let r = try_enter_execve(&task(), Some(header()), &argv, &envp, &mut transport);
    assert_eq!(r, Ok(0));
    assert!(transport.poll().is_none());
}

#[test]
fn submit_publishes_the_serialized_event() {
    let mut transport = Transport::new(EVENT_BYTES);
    let argv = reads(&[b"ls"], true);
    let envp = reads(&[], true);
    let event = Event {
        timestamp: 5,
        uid: 1,
        gid: 2,
        pid: 3,
        ppid: 4,
        comm: comm16(b"x"),
        args: capture_strings(&argv, ARG_COUNT, ARG_SIZE),
        envs: capture_strings(&envp, ENV_COUNT, ENV_SIZE),
    };
    let expected = encode_event(&event);
    submit(&mut transport, &event);
    assert_eq!(transport.poll().unwrap(), expected);
}

#[test]
fn trap_handler_is_inert() {
    execmon::capture::panic();
}
