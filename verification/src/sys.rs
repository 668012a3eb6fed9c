//! Values exchanged with the kernel: descriptor pairs, argument vectors and
//! wait statuses.

use vstd::prelude::*;

use crate::cstring;
use crate::cstring::CString;

verus! {

/// Standard descriptors of a process.
pub const STDIN_FILENO: i32 = 0;

pub const STDOUT_FILENO: i32 = 1;

pub const STDERR_FILENO: i32 = 2;

/// The two ends of a pipe.
#[derive(Clone, Copy, Debug, PartialEq, Eq, Structural)]
pub struct FdPair {
    pub read: i32,
    pub write: i32,
}

/// The argument vector of a command: its words, then a terminator.
#[derive(PartialEq, Eq, Debug)]
pub struct Argv {
    args: Vec<Option<CString>>,
}

/// The words of `args`, up to the terminator.
pub open spec fn argv_words(args: Seq<Option<CString>>) -> Seq<CString> {
    args.drop_last().map_values(|a: Option<CString>| a->Some_0)
}

/// Words followed by the terminator.
pub open spec fn terminated(args: Seq<Option<CString>>) -> bool {
    &&& args.len() > 0
    &&& args.last() is None
    &&& forall|i: int| 0 <= i < args.len() - 1 ==> #[trigger] args[i] is Some
}

impl View for Argv {
    type V = Seq<CString>;

    /// The words.
    closed spec fn view(&self) -> Seq<CString> {
        argv_words(self.args@)
    }
}

impl Argv {
    #[verifier::type_invariant]
    spec fn inv(&self) -> bool {
        terminated(self.args@)
    }

    /// The argument vector of `command`.
    pub fn new(command: Vec<CString>) -> (argv: Self)
        ensures
            argv@ == command@,
    {
        let ghost words = command@;
        let mut args: Vec<Option<CString>> = CString::into_vec_of_options(command);
        args.push(None);
        assert(argv_words(args@) =~= words);
        assert(args@.last() is None);
        assert forall|i: int| 0 <= i < args@.len() - 1 implies #[trigger] args@[i] is Some by {
            assert(args@[i] == Some(words[i]));
        }
        Argv { args }
    }

    /// A borrowed view of the vector.
    pub fn as_slice(&self) -> (slice: ArgvSlice<'_>)
        ensures
            slice@ == self@,
    {
        ArgvSlice { owner: self }
    }

    /// The entries, the last of which is the terminator.
    pub fn into_inner(self) -> (args: Vec<Option<CString>>)
        ensures
            terminated(args@),
            argv_words(args@) == self@,
    {
        proof {
            use_type_invariant(&self);
        }
        self.args
    }

    /// The words, without the terminator.
    pub fn into_command(self) -> (command: Vec<CString>)
        ensures
            command@ == self@,
    {
        let ghost words = self@;
        let args: Vec<Option<CString>> = self.into_inner();
        let mut command: Vec<CString> = Vec::with_capacity(args.len());
        for a in it: args
            invariant
                it.seq() == args@,
                terminated(args@),
                argv_words(args@) == words,
                command@.len() == if it.index() < args@.len() {
                    it.index() as nat
                } else {
                    (args@.len() - 1) as nat
                },
                forall|i: int| 0 <= i < command@.len() ==> #[trigger] command@[i] == words[i],
        {
            let ghost i = it.index();
            match a {
                Some(c) => {
                    assert(args@[i] is Some);
                    assert(words[i] == c);
                    command.push(c);
                },
                None => {
                    assert(i == args@.len() - 1);
                },
            }
        }
        assert(command@ =~= words);
        command
    }
}

impl Clone for Argv {
    fn clone(&self) -> (copy: Self)
        ensures
            cstring::words(copy@) == cstring::words(self@),
    {
        proof {
            use_type_invariant(self);
        }
        let ghost words = self@;
        let mut command: Vec<CString> = Vec::new();
        let last: usize = self.args.len() - 1;
        let mut i: usize = 0;
        while i < last
            invariant
                i <= last,
                last == self.args@.len() - 1,
                terminated(self.args@),
                words == argv_words(self.args@),
                command@.len() == i,
                forall|k: int| 0 <= k < i ==> (#[trigger] command@[k])@ == words[k]@,
            decreases last - i,
        {
            assert(self.args@[i as int] is Some);
            if let Some(c) = &self.args[i] {
                assert(words[i as int] == c);
                command.push(c.clone());
            }
            i = i + 1;
        }
        assert(cstring::words(command@) =~= cstring::words(words));
        Argv::new(command)
    }
}

/// A borrowed argument vector.
#[derive(Clone, Copy, Debug)]
pub struct ArgvSlice<'a> {
    owner: &'a Argv,
}

impl<'a> View for ArgvSlice<'a> {
    type V = Seq<CString>;

    closed spec fn view(&self) -> Seq<CString> {
        self.owner@
    }
}

impl<'a> ArgvSlice<'a> {
    /// The entries as `exec` takes them, the last of which is the terminator.
    pub fn as_raw(self) -> (args: &'a Vec<Option<CString>>)
        ensures
            terminated(args@),
            argv_words(args@) == self@,
    {
        proof {
            use_type_invariant(self.owner);
        }
        &self.owner.args
    }
}

/// Whether `status` says that the process exited by itself.
pub open spec fn exited(status: i32) -> bool {
    status & 0x7f == 0
}

/// Whether `status` says that a signal ended the process.
pub open spec fn signaled(status: i32) -> bool {
    status & 0x7f != 0 && status & 0x7f != 0x7f
}

/// Calls `libc::WIFEXITED`: whether the low seven bits of the status are zero.
#[verifier::external_body]
fn wif_exited(status: i32) -> (r: bool)
    ensures
        r == exited(status),
{
    libc::WIFEXITED(status)
}

/// Calls `libc::WEXITSTATUS`: bits 8 to 15 of the status.
#[verifier::external_body]
fn w_exit_status(status: i32) -> (r: i32)
    ensures
        r == (status >> 8) & 0xff,
{
    libc::WEXITSTATUS(status)
}

/// Calls `libc::WIFSIGNALED`: whether the low seven bits of the status are
/// neither all zero nor all one.
#[verifier::external_body]
fn wif_signaled(status: i32) -> (r: bool)
    ensures
        r == signaled(status),
{
    libc::WIFSIGNALED(status)
}

/// Calls `libc::WTERMSIG`: the low seven bits of the status.
#[verifier::external_body]
fn w_term_sig(status: i32) -> (r: i32)
    ensures
        r == status & 0x7f,
{
    libc::WTERMSIG(status)
}

/// The exit code reported for a wait status: the process's own code, 128 plus
/// the signal that killed it, or 1 for anything else.
pub open spec fn code_of_status(status: i32) -> int {
    if exited(status) {
        ((status >> 8) & 0xff) as int
    } else if signaled(status) {
        128 + (status & 0x7f)
    } else {
        1
    }
}

/// The exit code reported for a wait status.
pub fn exit_code(status: i32) -> (code: i32)
    ensures
        code == code_of_status(status),
{
    if wif_exited(status) {
        w_exit_status(status)
    } else if wif_signaled(status) {
        assert(0 <= status & 0x7f <= 0x7f) by (bit_vector);
        128 + w_term_sig(status)
    } else {
        1
    }
}

/// A reported exit code always fits in one byte.
pub proof fn exit_code_fits_a_byte(status: i32)
    ensures
        0 <= code_of_status(status) <= 255,
{
    assert(0 <= status & 0x7f <= 0x7f) by (bit_vector);
    assert(0 <= (status >> 8) & 0xff <= 0xff) by (bit_vector);
}

/// Every exit code comes through: the status of a process that exited with `n`
/// is reported as `n`.
pub proof fn own_exit_code_is_reported(n: i32)
    requires
        0 <= n <= 255,
    ensures
        code_of_status(n << 8) == n,
        code_of_status((n * 256) as i32) == n,
{
    assert((n << 8) & 0x7f == 0 && ((n << 8) >> 8) & 0xff == n && n << 8 == n * 256)
        by (bit_vector)
        requires
            0 <= n <= 255,
    ;
}

/// Every fatal signal comes through: a status whose low seven bits are `signal`
/// is reported as 128 plus that signal, whatever its other bits are. Low seven
/// bits that are all set name no signal, and are reported as 1.
pub proof fn fatal_signal_is_reported(status: i32, signal: int)
    requires
        1 <= signal <= 127,
        status & 0x7f == signal,
    ensures
        signal <= 126 ==> code_of_status(status) == 128 + signal,
        signal == 127 ==> code_of_status(status) == 1,
{
}

/// Two statuses are reported alike only where they differ beyond what a report
/// can hold: with low seven bits zero, the reports differ when the exit codes
/// do.
pub proof fn different_exit_codes_stay_different(a: i32, b: i32)
    requires
        a & 0x7f == 0,
        b & 0x7f == 0,
    ensures
        code_of_status(a) == code_of_status(b) <==> (a >> 8) & 0xff == (b >> 8) & 0xff,
{
}

/// An argument vector has one entry more than words: word by word the command,
/// and an empty entry that ends it.
pub proof fn argv_is_words_and_an_end(args: Seq<Option<CString>>)
    requires
        terminated(args),
    ensures
        args.len() == argv_words(args).len() + 1,
        args[args.len() - 1] is None,
        forall|i: int|
            0 <= i < argv_words(args).len() ==> args[i] == Some(#[trigger] argv_words(args)[i]),
{
}

} // verus!
