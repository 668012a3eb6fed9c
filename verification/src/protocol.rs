//! Requests that clients send and the responses they get.

use vstd::prelude::*;
use vstd::string::*;

use crate::cstring::CString;
use crate::text;

verus! {

/// What a client asks of the daemon.
pub enum Request {
    Run {
        rootfs: Option<String>,
        net_pid: Option<i32>,
        save: bool,
        command: Vec<CStringSerde>,
        interactive: Option<bool>,
        tty: Option<bool>,
    },
    List,
    Kill { pid: i32 },
    Logs { pid: i32, follow: bool },
    Attach { pid: i32 },
}

pub struct RunResponse {
    pub ok: bool,
    pub pid: Option<i32>,
    pub error: Option<String>,
}

pub struct ListResponse {
    pub containers: Vec<ContainerSummary>,
}

pub struct ContainerSummary {
    pub pid: i32,
    pub command: String,
    pub start_time: String,
}

pub struct KillResponse {
    pub ok: bool,
    pub error: Option<String>,
}

pub struct LogsResponse {
    pub lines: Vec<String>,
}

pub struct ErrorResponse {
    pub ok: bool,
    pub error: String,
}

/// A command word as it travels in a request.
pub struct CStringSerde(pub CString);

/// The words that `v` carries.
pub open spec fn carried(v: Seq<CStringSerde>) -> Seq<CString> {
    v.map_values(|c: CStringSerde| c.0)
}

impl CStringSerde {
    pub fn into_inner_vec(v: Vec<CStringSerde>) -> (out: Vec<CString>)
        ensures
            out@ == carried(v@),
    {
        let mut out: Vec<CString> = Vec::with_capacity(v.len());
        for c in it: v
            invariant
                it.seq() == v@,
                out@.len() == it.index(),
                forall|i: int| 0 <= i < out@.len() ==> #[trigger] out@[i] == it.seq()[i].0,
        {
            out.push(c.0);
        }
        assert(out@ =~= carried(v@));
        out
    }

    pub fn from_inner_vec(v: Vec<CString>) -> (out: Vec<CStringSerde>)
        ensures
            carried(out@) == v@,
    {
        let mut out: Vec<CStringSerde> = Vec::with_capacity(v.len());
        for c in it: v
            invariant
                it.seq() == v@,
                out@.len() == it.index(),
                forall|i: int| 0 <= i < out@.len() ==> (#[trigger] out@[i]).0 == it.seq()[i],
        {
            out.push(CStringSerde(c));
        }
        assert(carried(out@) =~= v@);
        out
    }
}

/// What to run, with the defaults of a request filled in.
pub struct RunArgs {
    pub rootfs: Option<String>,
    pub net_pid: Option<i32>,
    pub save: bool,
    pub command: Vec<CString>,
    pub tty: bool,
    pub interactive: bool,
}

impl RunArgs {
    /// The arguments of a run request. An absent flag counts as unset.
    pub fn new(
        rootfs: Option<String>,
        net_pid: Option<i32>,
        save: bool,
        command: Vec<CStringSerde>,
        interactive: Option<bool>,
        tty: Option<bool>,
    ) -> (args: Self)
        ensures
            args.rootfs == rootfs,
            args.net_pid == net_pid,
            args.save == save,
            args.command@ == carried(command@),
            args.tty == (tty == Some(true)),
            args.interactive == (interactive == Some(true)),
    {
        RunArgs {
            rootfs,
            net_pid,
            save,
            command: CStringSerde::into_inner_vec(command),
            tty: tty.unwrap_or(false),
            interactive: interactive.unwrap_or(false),
        }
    }
}

impl Request {
    /// Whether `args` is what this request, a run request, asks to run.
    pub open spec fn asks_to_run(self, args: RunArgs) -> bool {
        match self {
            Request::Run { rootfs, net_pid, save, command, interactive, tty } => {
                &&& args.rootfs == rootfs
                &&& args.net_pid == net_pid
                &&& args.save == save
                &&& args.command@ == carried(command@)
                &&& args.tty == (tty == Some(true))
                &&& args.interactive == (interactive == Some(true))
            },
            _ => false,
        }
    }

    /// The arguments of a run request. An absent flag counts as unset.
    pub fn run_args(self) -> (args: Option<RunArgs>)
        ensures
            match args {
                Some(a) => self.asks_to_run(a),
                None => !(self is Run),
            },
    {
        match self {
            Request::Run { rootfs, net_pid, save, command, interactive, tty } => Some(
                RunArgs::new(rootfs, net_pid, save, command, interactive, tty),
            ),
            _ => None,
        }
    }
}

/// The text of the answer about a container that is not there.
pub open spec fn not_found_text(pid: i32) -> Seq<char> {
    "container "@ + text::signed_decimal(pid as int) + " not found"@
}

pub fn not_found(pid: i32) -> (msg: String)
    ensures
        msg@ == not_found_text(pid),
{
    let mut msg: String = "container ".to_owned();
    text::push_signed(&mut msg, pid);
    msg.append(" not found");
    msg
}

/// `prefix` followed by the reason `why`.
pub fn because(prefix: &str, why: &str) -> (msg: String)
    ensures
        msg@ == prefix@ + why@,
{
    let mut msg: String = prefix.to_owned();
    msg.append(why);
    msg
}

impl ErrorResponse {
    pub fn new(error: String) -> (resp: Self)
        ensures
            !resp.ok,
            resp.error == error,
    {
        ErrorResponse { ok: false, error }
    }

    /// The answer to bytes that are no request.
    pub fn invalid_request(why: &str) -> (resp: Self)
        ensures
            !resp.ok,
            resp.error@ == "invalid request: "@ + why@,
    {
        ErrorResponse { ok: false, error: because("invalid request: ", why) }
    }
}

impl RunResponse {
    /// The answer to a run or attach request that succeeded.
    pub fn started(pid: i32) -> (resp: Self)
        ensures
            resp == (RunResponse { ok: true, pid: Some(pid), error: None }),
    {
        RunResponse { ok: true, pid: Some(pid), error: None }
    }
}

impl KillResponse {
    /// The answer once the signal was sent, or could not be.
    pub fn sent(outcome: Result<(), String>) -> (resp: Self)
        ensures
            match outcome {
                Ok(_) => resp == (KillResponse { ok: true, error: None }),
                Err(why) => !resp.ok && resp.error is Some && resp.error->Some_0@
                    == "kill failed: "@ + why@,
            },
    {
        match outcome {
            Ok(_) => KillResponse { ok: true, error: None },
            Err(why) => KillResponse {
                ok: false,
                error: Some(because("kill failed: ", why.as_str())),
            },
        }
    }
}

/// A run request carries over unchanged: the same root filesystem, network,
/// command and save flag, and a terminal or an open stdin exactly where the
/// client asked for one. Two sets of arguments for one request agree.
pub proof fn run_request_carries_over(request: Request, a: RunArgs, b: RunArgs)
    requires
        request.asks_to_run(a),
        request.asks_to_run(b),
    ensures
        request matches Request::Run { rootfs, net_pid, save, command, interactive, tty } && {
            &&& a.rootfs == rootfs && a.net_pid == net_pid && a.save == save
            &&& a.command@.len() == command@.len()
            &&& forall|i: int|
                0 <= i < command@.len() ==> #[trigger] a.command@[i] == command@[i].0
            &&& a.tty <==> tty is Some && tty->Some_0
            &&& a.interactive <==> interactive is Some && interactive->Some_0
        },
        a.command@ == b.command@ && a.tty == b.tty && a.interactive == b.interactive && a.save
            == b.save,
{
}

/// Whoever asks for a container that is not there is told its number.
pub proof fn missing_container_is_named(pid: i32)
    ensures
        not_found_text(pid) == "container "@ + text::signed_decimal(pid as int) + " not found"@,
        pid >= 0 ==> text::number_of(
            not_found_text(pid).subrange(10, not_found_text(pid).len() - 10),
        ) == pid,
{
    reveal_strlit("container ");
    reveal_strlit(" not found");
    let msg = not_found_text(pid);
    assert(msg.subrange(10, msg.len() - 10) =~= text::signed_decimal(pid as int));
    text::signed_decimal_reads_back(pid as int);
}

} // verus!
