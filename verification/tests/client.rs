use conrt::client::admission;
use conrt::client::Admission;
use conrt::protocol::RunResponse;
use conrt::client::default_socket_path;
use conrt::client::list_line;
use conrt::client::process_code;
use conrt::client::reader_step;
use conrt::client::refusal;
use conrt::client::stdin_step;
use conrt::client::stream_path;
use conrt::client::terminal_mode;
use conrt::client::ReaderStep;
use conrt::client::StdinRead;
use conrt::client::StdinStep;
use conrt::client::TerminalMode;
use conrt::container::id_map;
use conrt::container::join_path;
use conrt::container::overlay_dirs;
use conrt::container::overlay_name;
use conrt::container::overlay_options;
use conrt::container::proc_path;
use conrt::container::root_steps;
use conrt::container::userns_map_writes;
use conrt::container::RootStep;
use conrt::frame::build_frame;
use conrt::frame::check_written;
use conrt::frame::window_size;
use conrt::frame::FrameError;
use conrt::frame::FrameReader;
use conrt::lines::drain_lines;

#[test]
fn socket_is_in_the_home_directory() {
    assert_eq!(
        default_socket_path(Some(b"/home/a")),
        b"/home/a/.conrt/conrt.sock"
    );
    assert_eq!(default_socket_path(Some(b"/")), b"/.conrt/conrt.sock");
    assert_eq!(default_socket_path(None), b"/tmp/.conrt/conrt.sock");
    assert_eq!(stream_path(b"/x/conrt.sock"), b"/x/conrt.sock.stream");
}

#[test]
fn daemon_frames_are_told_apart() {
    assert_eq!(reader_step(0x10, None), ReaderStep::Print);
    assert_eq!(reader_step(0x02, Some(7)), ReaderStep::Exit(7));
    assert_eq!(reader_step(0x02, None), ReaderStep::Exit(1));
    assert_eq!(reader_step(0x01, Some(7)), ReaderStep::Exit(1));
}

#[test]
fn stdin_is_sent_until_it_ends() {
    assert_eq!(stdin_step(StdinRead::Bytes(3)), StdinStep::Send(3));
    assert_eq!(stdin_step(StdinRead::Bytes(0)), StdinStep::SendEof);
    assert_eq!(stdin_step(StdinRead::Interrupted), StdinStep::Retry);
    assert_eq!(stdin_step(StdinRead::Gone), StdinStep::SendEof);
    assert_eq!(stdin_step(StdinRead::Failed), StdinStep::Stop);
}

#[test]
fn terminal_is_changed_only_where_there_is_one() {
    assert_eq!(terminal_mode(true, true, true), TerminalMode::Raw);
    assert_eq!(terminal_mode(false, true, true), TerminalMode::Silent);
    assert_eq!(terminal_mode(false, false, true), TerminalMode::Unchanged);
    assert_eq!(terminal_mode(true, true, false), TerminalMode::Unchanged);
}

#[test]
fn exit_codes_are_cut_to_a_byte() {
    assert_eq!(process_code(0), 0);
    assert_eq!(process_code(137), 137);
    assert_eq!(process_code(256), 0);
    assert_eq!(process_code(-1), 255);
}

#[test]
fn refusals_without_a_reason_are_unknown() {
    assert_eq!(refusal(Some("no".to_string())), "no");
    assert_eq!(refusal(None), "unknown");
}

#[test]
fn list_lines_are_in_columns() {
    let (pid, command, age) = (42, "sleep 5", "1.5s");
    assert_eq!(
        list_line(pid, command, age),
        format!("{:>6}  {:50} {}", pid, command, age)
    );
    let long = "x".repeat(60);
    assert_eq!(
        list_line(-1234567, &long, ""),
        format!("{:>6}  {:50} {}", -1234567, long, "")
    );
    let accents = "h\u{e9}llo";
    assert_eq!(
        list_line(7, accents, "0.0s"),
        format!("{:>6}  {:50} {}", 7, accents, "0.0s")
    );
}

#[test]
fn frames_are_read_back_from_any_pieces() {
    let frame = build_frame(0x10, b"hello");
    assert_eq!(frame, b"\x10\x05\x00hello");
    let mut reader = FrameReader::new();
    assert_eq!(reader.wanted(), 3);
    assert_eq!(reader.feed(&frame[0..1]), Ok(None));
    assert_eq!(reader.wanted(), 2);
    assert_eq!(reader.feed(&frame[1..3]), Ok(None));
    assert_eq!(reader.wanted(), 5);
    assert_eq!(reader.feed(&frame[3..8]), Ok(Some((0x10, b"hello".to_vec()))));
    let mut reader = FrameReader::new();
    assert_eq!(reader.feed(b"\x11\x00\x00"), Ok(Some((0x11, Vec::new()))));
    let mut reader = FrameReader::new();
    assert_eq!(reader.feed(b""), Err(FrameError::StreamClosed));
    assert_eq!(check_written(8, 8), Ok(()));
    assert_eq!(check_written(8, 5), Err(FrameError::PartialWrite));
    assert_eq!(build_frame(0x10, &[0u8; 300])[1..3], [44, 1]);
}

#[test]
fn window_size_has_a_default() {
    assert_eq!(window_size(Some((50, 132))), (50, 132));
    assert_eq!(window_size(None), (24, 80));
}

#[test]
fn lines_are_taken_out_of_chunks() {
    let mut rest = Vec::new();
    let mut lines = Vec::new();
    drain_lines(&mut rest, b"on", &mut lines);
    assert!(lines.is_empty());
    drain_lines(&mut rest, b"e\n\ntwo\nthr", &mut lines);
    assert_eq!(lines, [b"one".to_vec(), Vec::new(), b"two".to_vec()]);
    assert_eq!(rest, b"thr");
    drain_lines(&mut rest, b"ee\n", &mut lines);
    assert_eq!(lines[3], b"three");
    assert!(rest.is_empty());
}

#[test]
fn container_root_is_set_up_in_order() {
    let steps = root_steps(b"/r");
    match &steps[0] {
        RootStep::Mount {
            source,
            target,
            fstype,
            flags,
        } => {
            assert!(source.is_none() && fstype.is_none());
            assert_eq!(target.to_bytes(), b"/");
            assert_eq!(*flags, libc::MS_REC | libc::MS_PRIVATE);
        }
        _ => panic!("a mount expected"),
    }
    match &steps[1] {
        RootStep::Mount {
            source,
            target,
            flags,
            ..
        } => {
            assert_eq!(source.as_ref().unwrap().to_bytes(), b"/r");
            assert_eq!(target.to_bytes(), b"/r");
            assert_eq!(*flags, libc::MS_BIND | libc::MS_REC);
        }
        _ => panic!("a mount expected"),
    }
    assert!(matches!(&steps[2], RootStep::CreateDirs { path } if path == b"/r/dev"));
    assert!(matches!(&steps[3], RootStep::CreateFile { path } if path == b"/r/dev/null"));
    match &steps[4] {
        RootStep::Mount {
            source,
            target,
            flags,
            ..
        } => {
            assert_eq!(source.as_ref().unwrap().to_bytes(), b"/dev/null");
            assert_eq!(target.to_bytes(), b"/r/dev/null");
            assert_eq!(*flags, libc::MS_BIND);
        }
        _ => panic!("a mount expected"),
    }
    assert!(matches!(&steps[13], RootStep::CreateFile { path } if path == b"/r/dev/tty"));
    assert!(matches!(&steps[15], RootStep::Chdir { to } if to.to_bytes() == b"/r"));
    assert!(matches!(&steps[16], RootStep::Chroot { to } if to.to_bytes() == b"."));
    assert!(matches!(&steps[17], RootStep::Chdir { to } if to.to_bytes() == b"/"));
    match &steps[18] {
        RootStep::Mount {
            source,
            target,
            fstype,
            flags,
        } => {
            assert_eq!(source.as_ref().unwrap().to_bytes(), b"proc");
            assert_eq!(target.to_bytes(), b"/proc");
            assert_eq!(fstype.as_ref().unwrap().to_bytes(), b"proc");
            assert_eq!(*flags, 0);
        }
        _ => panic!("a mount expected"),
    }
    assert_eq!(steps.len(), 19);
}

#[test]
fn overlays_have_three_directories() {
    let dirs = overlay_dirs(b"/tmp/conrt.7.0");
    assert_eq!(dirs.upper, b"/tmp/conrt.7.0/upper");
    assert_eq!(dirs.work, b"/tmp/conrt.7.0/work");
    assert_eq!(dirs.merged, b"/tmp/conrt.7.0/merged");
    assert_eq!(
        overlay_options("/r", "/u", "/w"),
        "lowerdir=/r,upperdir=/u,workdir=/w"
    );
    assert_eq!(overlay_name(7, 10), "conrt.7.10");
    assert_eq!(join_path(b"/a/", b"b"), b"/a/b");
    assert_eq!(join_path(b"", b"b"), b"b");
}

#[test]
fn id_maps_map_root_to_the_user() {
    assert_eq!(id_map(1000), "0 1000 1\n");
    assert_eq!(proc_path(12, "uid_map"), "/proc/12/uid_map");
    let writes = userns_map_writes(12, 1000, 100);
    assert_eq!(writes.len(), 3);
    assert_eq!(writes[0].path, "/proc/12/setgroups");
    assert_eq!(writes[0].text, "deny\n");
    assert!(!writes[0].required);
    assert_eq!(writes[1].path, "/proc/12/uid_map");
    assert_eq!(writes[1].text, "0 1000 1\n");
    assert!(writes[1].required);
    assert_eq!(writes[2].path, "/proc/12/gid_map");
    assert_eq!(writes[2].text, "0 100 1\n");
}

#[test]
fn silent_terminal_neither_echoes_nor_changes_output() {
    assert_eq!(conrt::client::ECHO, libc::ECHO);
    assert_eq!(conrt::client::ECHONL, libc::ECHONL);
    assert_eq!(conrt::client::OPOST, libc::OPOST);
    let local = libc::ISIG | libc::ICANON | libc::ECHO | libc::ECHONL;
    let output = libc::OPOST | libc::ONLCR;
    assert_eq!(
        conrt::client::silent_flags(local, output),
        (libc::ISIG | libc::ICANON, libc::ONLCR)
    );
}

#[test]
fn only_a_good_response_admits_the_client() {
    let answer = |ok: bool, error: Option<&str>| {
        Some(RunResponse {
            ok,
            pid: None,
            error: error.map(str::to_string),
        })
    };
    assert!(matches!(admission(0x01, answer(true, None)), Admission::Admitted));
    assert!(matches!(admission(0x10, answer(true, None)), Admission::Unexpected));
    assert!(matches!(admission(0x01, None), Admission::Garbled));
    match admission(0x01, answer(false, Some("busy"))) {
        Admission::Refused(reason) => assert_eq!(reason, "busy"),
        _ => panic!("a refusal expected"),
    }
    match admission(0x01, answer(false, None)) {
        Admission::Refused(reason) => assert_eq!(reason, "unknown"),
        _ => panic!("a refusal expected"),
    }
}
