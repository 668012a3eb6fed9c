//! What the command line client decides.

use vstd::prelude::*;
use vstd::string::*;

use crate::coio::msg;
use crate::coio::msg::SCM_RIGHTS;
use crate::coio::msg::SOL_SOCKET;
use crate::container;
use crate::container::join_path;
use crate::frame::append_bytes;
use crate::frame::FRAME_DATA;
use crate::frame::FRAME_EXIT;
use crate::frame::FRAME_RESPONSE;
use crate::protocol::RunResponse;
use crate::text;

verus! {

/// How much is read from stdin, or from a followed log, at a time.
pub const READ_CHUNK: usize = 4096;

/// "/tmp"
pub open spec fn tmp_dir() -> Seq<u8> {
    seq![47u8, 116, 109, 112]
}

/// ".conrt"
pub open spec fn socket_dir() -> Seq<u8> {
    seq![46u8, 99, 111, 110, 114, 116]
}

/// "conrt.sock"
pub open spec fn socket_name() -> Seq<u8> {
    seq![99u8, 111, 110, 114, 116, 46, 115, 111, 99, 107]
}

/// ".stream"
pub open spec fn stream_suffix() -> Seq<u8> {
    seq![46u8, 115, 116, 114, 101, 97, 109]
}

/// Where the daemon's socket is when nothing else is said: in the home
/// directory, or in the directory for temporary files when there is none.
pub fn default_socket_path(home: Option<&[u8]>) -> (path: Vec<u8>)
    ensures
        path@ == container::joined_path(
            container::joined_path(
                match home {
                    Some(dir) => dir@,
                    None => tmp_dir(),
                },
                socket_dir(),
            ),
            socket_name(),
        ),
{
    let tmp: [u8; 4] = [47, 116, 109, 112];
    let dir: [u8; 6] = [46, 99, 111, 110, 114, 116];
    let name: [u8; 10] = [99, 111, 110, 114, 116, 46, 115, 111, 99, 107];
    assert(tmp@ =~= tmp_dir());
    assert(dir@ =~= socket_dir());
    assert(name@ =~= socket_name());
    let base: Vec<u8> = match home {
        Some(h) => join_path(h, dir.as_slice()),
        None => join_path(tmp.as_slice(), dir.as_slice()),
    };
    join_path(base.as_slice(), name.as_slice())
}

/// The path of the stream socket beside a datagram socket.
pub fn stream_path(socket: &[u8]) -> (path: Vec<u8>)
    ensures
        path@ == socket@ + stream_suffix(),
{
    let suffix: [u8; 7] = [46, 115, 116, 114, 101, 97, 109];
    assert(suffix@ =~= stream_suffix());
    let mut path: Vec<u8> = Vec::new();
    append_bytes(&mut path, socket);
    append_bytes(&mut path, suffix.as_slice());
    assert(path@ =~= socket@ + stream_suffix());
    path
}

/// What to do with a frame from the daemon.
#[derive(Clone, Copy, Debug, PartialEq, Eq, Structural)]
pub enum ReaderStep {
    /// Its payload is output of the container.
    Print,
    /// Stop; the client ends with this code.
    Exit(i32),
}

/// Decides what a frame of type `ty` from the daemon calls for. `exit_code` is
/// the code in its payload, where one could be decoded.
pub fn reader_step(ty: u8, exit_code: Option<i32>) -> (step: ReaderStep)
    ensures
        step == if ty == FRAME_DATA {
            ReaderStep::Print
        } else if ty == FRAME_EXIT && exit_code is Some {
            ReaderStep::Exit(exit_code->0)
        } else {
            ReaderStep::Exit(1)
        },
{
    if ty == FRAME_DATA {
        return ReaderStep::Print;
    }
    match exit_code {
        Some(code) if ty == FRAME_EXIT => ReaderStep::Exit(code),
        _ => ReaderStep::Exit(1),
    }
}

/// How a read from stdin ended.
#[derive(Clone, Copy, Debug, PartialEq, Eq, Structural)]
pub enum StdinRead {
    Bytes(usize),
    /// A signal came in between.
    Interrupted,
    /// The terminal is gone.
    Gone,
    Failed,
}

/// What to do after a read from stdin.
#[derive(Clone, Copy, Debug, PartialEq, Eq, Structural)]
pub enum StdinStep {
    /// Send the first `n` bytes, then read on.
    Send(usize),
    /// Tell the daemon that stdin ended, and stop.
    SendEof,
    /// Read again.
    Retry,
    /// Stop without telling.
    Stop,
}

/// Decides what follows a read from stdin.
pub fn stdin_step(read: StdinRead) -> (step: StdinStep)
    ensures
        step == match read {
            StdinRead::Bytes(n) => if n == 0 {
                StdinStep::SendEof
            } else {
                StdinStep::Send(n)
            },
            StdinRead::Interrupted => StdinStep::Retry,
            StdinRead::Gone => StdinStep::SendEof,
            StdinRead::Failed => StdinStep::Stop,
        },
{
    match read {
        StdinRead::Bytes(n) => if n == 0 {
            StdinStep::SendEof
        } else {
            StdinStep::Send(n)
        },
        StdinRead::Interrupted => StdinStep::Retry,
        StdinRead::Gone => StdinStep::SendEof,
        StdinRead::Failed => StdinStep::Stop,
    }
}

/// What is done to the terminal while a container runs attached.
#[derive(Clone, Copy, Debug, PartialEq, Eq, Structural)]
pub enum TerminalMode {
    /// Every key goes to the container, and it learns the window size.
    Raw,
    /// The terminal neither echoes nor changes output.
    Silent,
    Unchanged,
}

/// The terminal mode for a container that wants a PTY (`tty`), or its stdin
/// kept open (`interactive`).
pub fn terminal_mode(tty: bool, interactive: bool, stdin_is_terminal: bool) -> (mode: TerminalMode)
    ensures
        mode == if !stdin_is_terminal {
            TerminalMode::Unchanged
        } else if tty {
            TerminalMode::Raw
        } else if interactive {
            TerminalMode::Silent
        } else {
            TerminalMode::Unchanged
        },
{
    if tty && stdin_is_terminal {
        TerminalMode::Raw
    } else if interactive && stdin_is_terminal {
        TerminalMode::Silent
    } else {
        TerminalMode::Unchanged
    }
}

/// The terminal repeats what is typed.
pub const ECHO: u32 = 0x8;

/// The terminal repeats newlines even when it repeats nothing else.
pub const ECHONL: u32 = 0x40;

/// The terminal changes output before showing it.
pub const OPOST: u32 = 0x1;

/// The local and the output flags of a silent terminal that had these. The
/// keys that send signals keep working.
pub fn silent_flags(local: u32, output: u32) -> (flags: (u32, u32))
    ensures
        flags.0 == local & !(ECHO | ECHONL),
        flags.1 == output & !OPOST,
{
    (local & !(ECHO | ECHONL), output & !OPOST)
}

/// The code that the client process ends with for the container's `code`: its
/// lowest byte.
pub fn process_code(code: i32) -> (byte: u8)
    ensures
        byte == code as int % 256,
{
    let byte: u8 = #[verifier::truncate] (code as u8);
    assert(byte == code as int % 256) by {
        let low: u32 = #[verifier::truncate] (code as u32);
        assert((code as u8) as u32 == (code as u32) % 256) by (bit_vector);
        if code >= 0 {
            assert(code as u32 == code);
        } else {
            assert(code < 0 ==> (code as u32) == (code as i64) + 0x1_0000_0000) by (bit_vector);
        }
    }
    byte
}

/// The reason that a refusal gave.
pub fn refusal(error: Option<String>) -> (reason: String)
    ensures
        reason@ == match error {
            Some(text) => text@,
            None => "unknown"@,
        },
{
    match error {
        Some(text) => text,
        None => "unknown".to_owned(),
    }
}

/// What the first frame from the daemon means for an attached client.
pub enum Admission {
    /// The container runs.
    Admitted,
    /// The daemon refused, for this reason.
    Refused(String),
    /// The frame is no response.
    Unexpected,
    /// The response could not be decoded.
    Garbled,
}

/// What a first frame of type `ty` means whose payload decoded to `answer`, if
/// it did. Only a response that says so admits the client.
pub fn admission(ty: u8, answer: Option<RunResponse>) -> (admission: Admission)
    ensures
        match admission {
            Admission::Admitted => ty == FRAME_RESPONSE && answer is Some && answer->0.ok,
            Admission::Refused(reason) => {
                &&& ty == FRAME_RESPONSE
                &&& answer matches Some(r) && !r.ok && reason@ == match r.error {
                    Some(text) => text@,
                    None => "unknown"@,
                }
            },
            Admission::Unexpected => ty != FRAME_RESPONSE,
            Admission::Garbled => ty == FRAME_RESPONSE && answer is None,
        },
{
    if ty != FRAME_RESPONSE {
        return Admission::Unexpected;
    }
    match answer {
        None => Admission::Garbled,
        Some(answer) => if answer.ok {
            Admission::Admitted
        } else {
            Admission::Refused(refusal(answer.error))
        },
    }
}

/// `text` with spaces in front, to be at least `width` long.
pub open spec fn right_aligned(text: Seq<char>, width: nat) -> Seq<char> {
    spaces(width - text.len()) + text
}

/// `text` with spaces behind, to be at least `width` long.
pub open spec fn left_aligned(text: Seq<char>, width: nat) -> Seq<char> {
    text + spaces(width - text.len())
}

/// `n` spaces.
pub open spec fn spaces(n: int) -> Seq<char> {
    Seq::new(
        if n < 0 {
            0
        } else {
            n as nat
        },
        |i: int| ' ',
    )
}

fn push_spaces(line: &mut String, n: usize)
    ensures
        final(line)@ == old(line)@ + spaces(n as int),
{
    let mut k: usize = 0;
    assert(line@ + spaces(0) =~= line@);
    while k < n
        invariant
            k <= n,
            line@ == old(line)@ + spaces(k as int),
        decreases n - k,
    {
        proof {
            reveal_strlit(" ");
        }
        line.append(" ");
        k = k + 1;
        assert(line@ =~= old(line)@ + spaces(k as int));
    }
}

/// The line of a container in a listing.
pub open spec fn list_text(pid: i32, command: Seq<char>, age: Seq<char>) -> Seq<char> {
    right_aligned(text::signed_decimal(pid as int), 6) + spaces(2) + left_aligned(command, 50)
        + spaces(1) + age
}

/// The line of a container in a listing: its pid, its command and for how long
/// it has been running, in columns.
pub fn list_line(pid: i32, command: &str, age: &str) -> (line: String)
    ensures
        line@ == list_text(pid, command@, age@),
{
    let mut number: String = "".to_owned();
    proof {
        reveal_strlit("");
    }
    text::push_signed(&mut number, pid);
    assert(number@ =~= text::signed_decimal(pid as int));
    let digits: usize = number.as_str().unicode_len();
    let letters: usize = command.unicode_len();
    let mut line: String = "".to_owned();
    if digits < 6 {
        push_spaces(&mut line, 6 - digits);
    }
    line.append(number.as_str());
    assert(line@ =~= right_aligned(number@, 6));
    push_spaces(&mut line, 2);
    line.append(command);
    if letters < 50 {
        push_spaces(&mut line, 50 - letters);
    }
    assert(line@ =~= right_aligned(number@, 6) + spaces(2) + left_aligned(command@, 50));
    push_spaces(&mut line, 1);
    line.append(age);
    assert(line@ =~= list_text(pid, command@, age@));
    line
}

/// Whether the control bytes of a message pass descriptor `fd`.
pub open spec fn passes(control: Seq<u8>, fd: i32) -> bool {
    &&& passes_some(control)
    &&& msg::le_value(control.subrange(16, 20)) == msg::word_of(fd)
}

/// Whether the control bytes of a message pass a descriptor.
pub open spec fn passes_some(control: Seq<u8>) -> bool {
    &&& msg::le_value(control.subrange(0, 8)) != 0
    &&& msg::le_value(control.subrange(8, 12)) == SOL_SOCKET
    &&& msg::le_value(control.subrange(12, 16)) == SCM_RIGHTS
}

fn word_at(control: &[u8], at: usize) -> (word: u32)
    requires
        at + 4 <= control@.len(),
    ensures
        word == msg::le_value(control@.subrange(at as int, at + 4)),
{
    let ghost s = control@.subrange(at as int, at + 4);
    proof {
        reveal_with_fuel(msg::le_value, 5);
        assert(s.skip(1).skip(1) =~= s.skip(2));
        assert(s.skip(2).skip(1) =~= s.skip(3));
        assert(s.skip(3).skip(1) =~= Seq::<u8>::empty());
    }
    let n: usize = control.len();
    control[at] as u32 + 256 * (control[at + 1] as u32) + 65536 * (control[at + 2] as u32)
        + 16777216 * (control[at + 3] as u32)
}

/// The descriptor that the control bytes of a message pass, if they pass one.
pub fn passed_fd(control: &[u8]) -> (fd: Option<i32>)
    requires
        control@.len() >= 20,
    ensures
        match fd {
            Some(fd) => passes(control@, fd),
            None => !passes_some(control@),
        },
{
    let low: u32 = word_at(control, 0);
    let high: u32 = word_at(control, 4);
    proof {
        let s = control@.subrange(0, 8);
        reveal_with_fuel(msg::le_value, 9);
        assert(control@.subrange(0, 4) =~= s.take(4));
        assert(control@.subrange(4, 8) =~= s.skip(4));
        lemma_split(s, 4);
    }
    if (low == 0 && high == 0) || word_at(control, 8) != SOL_SOCKET as u32 || word_at(control, 12)
        != SCM_RIGHTS as u32 {
        return None;
    }
    let word: u32 = word_at(control, 16);
    let fd: i32 = if word < 0x8000_0000 {
        word as i32
    } else {
        (word as i64 - 0x1_0000_0000) as i32
    };
    Some(fd)
}

/// A descriptor that is passed in a message of its own is the one that the
/// receiver finds.
pub proof fn passed_descriptor_is_found(fd: i32)
    ensures
        passes(msg::cmsg_bytes(SOL_SOCKET, SCM_RIGHTS, msg::rights_payload(seq![fd])), fd),
{
    let payload = msg::rights_payload(seq![fd]);
    let control = msg::cmsg_bytes(SOL_SOCKET, SCM_RIGHTS, payload);
    let len = msg::CMSG_HDR_LEN + payload.len();
    reveal_with_fuel(msg::rights_payload, 2);
    assert(seq![fd].drop_last() =~= Seq::<i32>::empty());
    assert(payload =~= msg::le_bytes(msg::word_of(fd), 4));
    msg::lemma_le_bytes_len(msg::word_of(fd), 4);
    msg::lemma_le_bytes_len(len as int, 8);
    msg::lemma_le_bytes_len(msg::word_of(SOL_SOCKET), 4);
    msg::lemma_le_bytes_len(msg::word_of(SCM_RIGHTS), 4);
    assert(control.subrange(0, 8) =~= msg::le_bytes(len as int, 8));
    assert(control.subrange(8, 12) =~= msg::le_bytes(msg::word_of(SOL_SOCKET), 4));
    assert(control.subrange(12, 16) =~= msg::le_bytes(msg::word_of(SCM_RIGHTS), 4));
    assert(control.subrange(16, 20) =~= msg::le_bytes(msg::word_of(fd), 4));
    assert(vstd::arithmetic::power::pow(256, 4) == 0x1_0000_0000 && len
        < vstd::arithmetic::power::pow(256, 8)) by {
        reveal_with_fuel(vstd::arithmetic::power::pow, 9);
    }
    msg::le_bytes_read_back(len as int, 8);
    msg::le_bytes_read_back(msg::word_of(SOL_SOCKET), 4);
    msg::le_bytes_read_back(msg::word_of(SCM_RIGHTS), 4);
    msg::le_bytes_read_back(msg::word_of(fd), 4);
}

proof fn lemma_split(s: Seq<u8>, n: int)
    requires
        0 <= n <= s.len(),
    ensures
        msg::le_value(s) == 0 <==> msg::le_value(s.take(n)) == 0 && msg::le_value(s.skip(n)) == 0,
        msg::le_value(s) >= 0,
        msg::le_value(s.take(n)) >= 0,
        msg::le_value(s.skip(n)) >= 0,
    decreases s.len(),
{
    if s.len() == 0 {
        assert(s.take(n) =~= s);
        assert(s.skip(n) =~= s);
    } else if n == 0 {
        lemma_split(s.skip(1), 0);
        assert(s.skip(0) =~= s);
        assert(s.skip(1).skip(0) =~= s.skip(1));
    } else {
        lemma_split(s.skip(1), n - 1);
        assert(s.take(n).skip(1) =~= s.skip(1).take(n - 1));
        assert(s.skip(1).skip(n - 1) =~= s.skip(n));
    }
}

/// A listing is in columns. The pid ends at column 6 and the command begins at
/// column 8; neither is ever cut. The age follows the command after one space,
/// at column 59 when the command has at most 50 characters. All else is blank.
pub proof fn listing_is_in_columns(pid: i32, command: Seq<char>, age: Seq<char>)
    requires
        text::signed_decimal(pid as int).len() <= 6,
    ensures
        ({
            let line = list_text(pid, command, age);
            let number = text::signed_decimal(pid as int);
            let at: int = if command.len() <= 50 {
                59
            } else {
                9 + command.len() as int
            };
            &&& line.len() == at + age.len()
            &&& line.subrange(6 - number.len(), 6) == number
            &&& line.subrange(8, 8 + command.len() as int) == command
            &&& line.skip(at) == age
            &&& forall|i: int|
                0 <= i < 6 - number.len() || 6 <= i < 8 || 8 + command.len() <= i < at
                    ==> #[trigger] line[i] == ' '
        }),
{
    let line = list_text(pid, command, age);
    let number = text::signed_decimal(pid as int);
    let at: int = if command.len() <= 50 {
        59
    } else {
        9 + command.len() as int
    };
    assert(line.subrange(6 - number.len(), 6) =~= number);
    assert(line.subrange(8, 8 + command.len() as int) =~= command);
    assert(line.skip(at) =~= age);
}

/// A pid that is wider than its column pushes the rest to the right, and is not
/// cut either.
pub proof fn wide_pid_is_kept(pid: i32, command: Seq<char>, age: Seq<char>)
    requires
        text::signed_decimal(pid as int).len() > 6,
    ensures
        ({
            let line = list_text(pid, command, age);
            let number = text::signed_decimal(pid as int);
            &&& line.take(number.len() as int) == number
            &&& line.skip(number.len() as int + 2).take(command.len() as int) == command
            &&& line.skip(line.len() - age.len()) == age
            &&& line.skip(number.len() as int) == list_text(0, command, age).skip(6)
        }),
{
    let line = list_text(pid, command, age);
    let number = text::signed_decimal(pid as int);
    assert(line.take(number.len() as int) =~= number);
    assert(text::signed_decimal(0).len() == 1);
    assert(line.skip(number.len() as int) =~= list_text(0, command, age).skip(6));
    assert(line.skip(number.len() as int + 2).take(command.len() as int) =~= command);
    assert(line.skip(line.len() - age.len()) =~= age);
}

/// The daemon's socket is `.conrt/conrt.sock` below the home directory, or below
/// `/tmp` without one, and its stream socket has the suffix `.stream`.
pub proof fn socket_is_in_the_home_directory(home: Seq<u8>)
    requires
        home.len() > 0,
        home.last() != 47,
    ensures
        container::joined_path(container::joined_path(home, socket_dir()), socket_name()) == home
            + "/.conrt/conrt.sock".spec_bytes(),
        tmp_dir() == "/tmp".spec_bytes(),
        stream_suffix() == ".stream".spec_bytes(),
{
    reveal_strlit("/.conrt/conrt.sock");
    reveal_strlit("/tmp");
    reveal_strlit(".stream");
    container::lemma_plain_bytes("/.conrt/conrt.sock");
    container::lemma_plain_bytes("/tmp");
    container::lemma_plain_bytes(".stream");
    assert(tmp_dir() =~= "/tmp".spec_bytes());
    assert(stream_suffix() =~= ".stream".spec_bytes());
    container::join_keeps_both_parts(home, socket_dir());
    let dir = container::joined_path(home, socket_dir());
    container::join_keeps_both_parts(dir, socket_name());
    assert(container::joined_path(dir, socket_name()) =~= home
        + "/.conrt/conrt.sock".spec_bytes());
}

/// A message passes at most one descriptor that its reader finds, and only when
/// it is not empty and is of the kind that passes descriptors between sockets.
pub proof fn one_descriptor_is_passed(control: Seq<u8>, a: i32, b: i32)
    requires
        control.len() >= 20,
        passes(control, a),
        passes(control, b),
    ensures
        a == b,
        msg::le_value(control.subrange(0, 8)) != 0,
        msg::le_value(control.subrange(8, 12)) == 1,
        msg::le_value(control.subrange(12, 16)) == 1,
{
}

/// A silent terminal differs from what it was in three settings only: it does
/// not repeat keys or newlines, and leaves output as it is.
pub proof fn silence_changes_three_settings(local: u32, output: u32)
    ensures
        local & !(ECHO | ECHONL) == local & !0x48u32,
        output & !OPOST == output & !0x1u32,
        (local & !(ECHO | ECHONL)) | (local & 0x48) == local,
        (output & !OPOST) | (output & 0x1) == output,
{
    assert(local & !(0x8u32 | 0x40u32) == local & !0x48u32 && (local & !(0x8u32 | 0x40u32)) | (local
        & 0x48) == local && (output & !0x1u32) | (output & 0x1) == output) by (bit_vector);
}

/// A message passes a descriptor exactly when it is not empty, and of level 1
/// and kind 1; it is then found.
pub proof fn passing_is_recognised(control: Seq<u8>, fd: i32)
    requires
        control.len() >= 20,
    ensures
        passes_some(control) <==> msg::le_value(control.subrange(0, 8)) != 0 && msg::le_value(
            control.subrange(8, 12),
        ) == 1 && msg::le_value(control.subrange(12, 16)) == 1,
        passes(control, fd) <==> passes_some(control) && msg::le_value(control.subrange(16, 20))
            == msg::word_of(fd),
{
}

} // verus!
