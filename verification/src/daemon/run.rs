//! Starting containers: what to prepare, in which order, and what to undo
//! when a step fails.

use vstd::prelude::*;
use vstd::std_specs::hash::*;
use vstd::string::*;

use crate::cstring;
use crate::cstring::CString;
use crate::daemon;
use crate::daemon::AttachSession;
use crate::daemon::sessions;
use crate::daemon::sessions::ClientFrame;
use crate::daemon::sessions::FrameStep;
use crate::daemon::ContainerInfo;
use crate::daemon::DaemonState;
use crate::frame::FRAME_RESPONSE;
use crate::log;
use crate::log::LogGateway;
use crate::log::LOG_CAPACITY;
use crate::protocol::ErrorResponse;
use crate::protocol::RunResponse;
use crate::sys;
use crate::sys::FdPair;
use crate::text;

verus! {

broadcast use vstd::std_specs::hash::group_hash_axioms;

/// New PID namespace.
pub const CLONE_NEWPID: i32 = 0x20000000;

/// New mount namespace.
pub const CLONE_NEWNS: i32 = 0x00020000;

/// New hostname namespace.
pub const CLONE_NEWUTS: i32 = 0x04000000;

/// New IPC namespace.
pub const CLONE_NEWIPC: i32 = 0x08000000;

/// New user namespace.
pub const CLONE_NEWUSER: i32 = 0x10000000;

/// New network namespace.
pub const CLONE_NEWNET: i32 = 0x40000000;

/// The namespaces that a container gets. One that joins another's network also
/// joins its users, and gets neither anew.
pub open spec fn clone_flags_of(net_pid: Option<i32>) -> i32 {
    match net_pid {
        Some(_) => CLONE_NEWPID | CLONE_NEWNS | CLONE_NEWUTS | CLONE_NEWIPC,
        None => CLONE_NEWPID | CLONE_NEWNS | CLONE_NEWUTS | CLONE_NEWIPC | CLONE_NEWUSER
            | CLONE_NEWNET,
    }
}

/// The clone flags of a container, and whether its user namespace needs id
/// maps.
pub fn clone_plan(net_pid: Option<i32>) -> (plan: (i32, bool))
    ensures
        plan.0 == clone_flags_of(net_pid),
        plan.1 == net_pid.is_none(),
{
    match net_pid {
        Some(_) => (CLONE_NEWPID | CLONE_NEWNS | CLONE_NEWUTS | CLONE_NEWIPC, false),
        None => (
            CLONE_NEWPID | CLONE_NEWNS | CLONE_NEWUTS | CLONE_NEWIPC | CLONE_NEWUSER | CLONE_NEWNET,
            true,
        ),
    }
}

/// A container gets a user namespace and a network namespace of its own
/// exactly when it does not join another's, and its own PID, mount, hostname
/// and IPC namespaces always.
pub proof fn namespaces_follow_net_pid(net_pid: Option<i32>)
    ensures
        (clone_flags_of(net_pid) & CLONE_NEWUSER != 0) == net_pid.is_none(),
        (clone_flags_of(net_pid) & CLONE_NEWNET != 0) == net_pid.is_none(),
        clone_flags_of(net_pid) & CLONE_NEWPID != 0,
        clone_flags_of(net_pid) & CLONE_NEWNS != 0,
        clone_flags_of(net_pid) & CLONE_NEWUTS != 0,
        clone_flags_of(net_pid) & CLONE_NEWIPC != 0,
{
    let joined: i32 = 0x20000000i32 | 0x00020000i32 | 0x04000000i32 | 0x08000000i32;
    let own: i32 = 0x20000000i32 | 0x00020000i32 | 0x04000000i32 | 0x08000000i32 | 0x10000000i32
        | 0x40000000i32;
    assert(joined & 0x10000000i32 == 0 && joined & 0x40000000i32 == 0 && joined & 0x20000000i32
        != 0 && joined & 0x00020000i32 != 0 && joined & 0x04000000i32 != 0 && joined & 0x08000000i32
        != 0) by (bit_vector)
        requires
            joined == 0x20000000i32 | 0x00020000i32 | 0x04000000i32 | 0x08000000i32,
    ;
    assert(own & 0x10000000i32 != 0 && own & 0x40000000i32 != 0 && own & 0x20000000i32 != 0 && own
        & 0x00020000i32 != 0 && own & 0x04000000i32 != 0 && own & 0x08000000i32 != 0)
        by (bit_vector)
        requires
            own == 0x20000000i32 | 0x00020000i32 | 0x04000000i32 | 0x08000000i32 | 0x10000000i32
                | 0x40000000i32,
    ;
}

/// A step of preparing a run.
#[derive(Clone, Copy, Debug, PartialEq, Eq, Structural)]
pub enum PrepareStep {
    /// Resolve the root filesystem's path.
    Canonicalize,
    /// Create the overlay directory.
    CreateOverlay,
    /// Create the pipe that holds the child back.
    SyncPipe,
    OpenUserNs,
    OpenNetNs,
    JoinUserNs,
    JoinNetNs,
    Ready,
}

impl PrepareStep {
    pub open spec fn spec_first(has_rootfs: bool) -> PrepareStep {
        if has_rootfs {
            PrepareStep::Canonicalize
        } else {
            PrepareStep::SyncPipe
        }
    }

    /// The first step.
    pub fn first(has_rootfs: bool) -> (step: Self)
        ensures
            step == PrepareStep::spec_first(has_rootfs),
    {
        if has_rootfs {
            PrepareStep::Canonicalize
        } else {
            PrepareStep::SyncPipe
        }
    }

    pub open spec fn spec_next(self, joins: bool) -> PrepareStep {
        match self {
            PrepareStep::Canonicalize => PrepareStep::CreateOverlay,
            PrepareStep::CreateOverlay => PrepareStep::SyncPipe,
            PrepareStep::SyncPipe => if joins {
                PrepareStep::OpenUserNs
            } else {
                PrepareStep::Ready
            },
            PrepareStep::OpenUserNs => PrepareStep::OpenNetNs,
            PrepareStep::OpenNetNs => PrepareStep::JoinUserNs,
            PrepareStep::JoinUserNs => PrepareStep::JoinNetNs,
            PrepareStep::JoinNetNs => PrepareStep::Ready,
            PrepareStep::Ready => PrepareStep::Ready,
        }
    }

    /// The step after this one succeeded. `joins` says whether another
    /// container's namespaces are joined.
    pub fn next(self, joins: bool) -> (step: Self)
        ensures
            step == self.spec_next(joins),
    {
        match self {
            PrepareStep::Canonicalize => PrepareStep::CreateOverlay,
            PrepareStep::CreateOverlay => PrepareStep::SyncPipe,
            PrepareStep::SyncPipe => if joins {
                PrepareStep::OpenUserNs
            } else {
                PrepareStep::Ready
            },
            PrepareStep::OpenUserNs => PrepareStep::OpenNetNs,
            PrepareStep::OpenNetNs => PrepareStep::JoinUserNs,
            PrepareStep::JoinUserNs => PrepareStep::JoinNetNs,
            PrepareStep::JoinNetNs => PrepareStep::Ready,
            PrepareStep::Ready => PrepareStep::Ready,
        }
    }

    /// The message when this step failed because of `why`.
    pub open spec fn failure_text(self, pid: i32, why: Seq<char>) -> Seq<char> {
        let p = text::signed_decimal(pid as int);
        match self {
            PrepareStep::Canonicalize => "invalid rootfs path: "@ + why,
            PrepareStep::CreateOverlay => "cannot create overlay tempdir: "@ + why,
            PrepareStep::SyncPipe => "sync pipe creation failed: "@ + why,
            PrepareStep::OpenUserNs => "cannot open pid "@ + p + " user ns: "@ + why,
            PrepareStep::OpenNetNs => "cannot open pid "@ + p + " net ns: "@ + why,
            PrepareStep::JoinUserNs => "setns(CLONE_NEWUSER) into pid "@ + p + " failed: "@ + why,
            PrepareStep::JoinNetNs => "setns(CLONE_NEWNET) into pid "@ + p + " failed: "@ + why,
            PrepareStep::Ready => why,
        }
    }

    pub fn failure(self, pid: i32, why: &str) -> (msg: String)
        ensures
            msg@ == self.failure_text(pid, why@),
    {
        let mut msg: String = String::new();
        match self {
            PrepareStep::Canonicalize => {
                msg.append("invalid rootfs path: ");
            },
            PrepareStep::CreateOverlay => {
                msg.append("cannot create overlay tempdir: ");
            },
            PrepareStep::SyncPipe => {
                msg.append("sync pipe creation failed: ");
            },
            PrepareStep::OpenUserNs => {
                msg.append("cannot open pid ");
                text::push_signed(&mut msg, pid);
                msg.append(" user ns: ");
            },
            PrepareStep::OpenNetNs => {
                msg.append("cannot open pid ");
                text::push_signed(&mut msg, pid);
                msg.append(" net ns: ");
            },
            PrepareStep::JoinUserNs => {
                msg.append("setns(CLONE_NEWUSER) into pid ");
                text::push_signed(&mut msg, pid);
                msg.append(" failed: ");
            },
            PrepareStep::JoinNetNs => {
                msg.append("setns(CLONE_NEWNET) into pid ");
                text::push_signed(&mut msg, pid);
                msg.append(" failed: ");
            },
            PrepareStep::Ready => {},
        }
        msg.append(why);
        assert(msg@ =~= self.failure_text(pid, why@));
        msg
    }
}

/// The step of preparing a run that `n` steps with success lead to.
pub open spec fn prepare_step(has_rootfs: bool, joins: bool, n: nat) -> PrepareStep
    decreases n,
{
    if n == 0 {
        PrepareStep::spec_first(has_rootfs)
    } else {
        prepare_step(has_rootfs, joins, (n - 1) as nat).spec_next(joins)
    }
}

/// What a run prepares follows from what it asks for. The root filesystem is
/// resolved and its overlay created, in this order, exactly when there is one;
/// the pipe that holds the child back is always made; the four namespace steps
/// are taken, user before network and opening before joining, exactly when
/// another container's namespaces are joined. After that the run is ready, and
/// stays so.
pub proof fn preparation_follows_the_request(has_rootfs: bool, joins: bool, n: nat)
    ensures
        ({
            let pipe: int = if has_rootfs {
                2
            } else {
                0
            };
            let step = prepare_step(has_rootfs, joins, n);
            &&& step is Canonicalize <==> has_rootfs && n == 0
            &&& step is CreateOverlay <==> has_rootfs && n == 1
            &&& step is SyncPipe <==> n == pipe
            &&& step is OpenUserNs <==> joins && n == pipe + 1
            &&& step is OpenNetNs <==> joins && n == pipe + 2
            &&& step is JoinUserNs <==> joins && n == pipe + 3
            &&& step is JoinNetNs <==> joins && n == pipe + 4
            &&& step is Ready <==> n > pipe + if joins {
                4int
            } else {
                0int
            }
        }),
    decreases n,
{
    if n > 0 {
        preparation_follows_the_request(has_rootfs, joins, (n - 1) as nat);
    }
}

/// A failed preparation is reported with its reason at the end of the message.
/// Where another container's namespace was to be joined, the message names that
/// container.
pub proof fn failed_preparation_says_why(step: PrepareStep, pid: i32, why: Seq<char>)
    ensures
        why.is_suffix_of(step.failure_text(pid, why)),
        step is Ready || step.failure_text(pid, why).len() > why.len(),
        step is Canonicalize ==> step.failure_text(pid, why) == "invalid rootfs path: "@ + why,
        step is CreateOverlay ==> step.failure_text(pid, why)
            == "cannot create overlay tempdir: "@ + why,
        step is SyncPipe ==> step.failure_text(pid, why) == "sync pipe creation failed: "@ + why,
        step is OpenUserNs ==> (" user ns: "@ + why).is_suffix_of(step.failure_text(pid, why)),
        step is OpenNetNs ==> (" net ns: "@ + why).is_suffix_of(step.failure_text(pid, why)),
        step is JoinUserNs || step is JoinNetNs ==> (" failed: "@ + why).is_suffix_of(
            step.failure_text(pid, why),
        ),
        step is OpenUserNs || step is OpenNetNs || step is JoinUserNs || step is JoinNetNs ==> {
            let before = if step is OpenUserNs || step is OpenNetNs {
                "cannot open pid "@
            } else if step is JoinUserNs {
                "setns(CLONE_NEWUSER) into pid "@
            } else {
                "setns(CLONE_NEWNET) into pid "@
            };
            (before + text::signed_decimal(pid as int)).is_prefix_of(step.failure_text(pid, why))
        },
{
    reveal_strlit("invalid rootfs path: ");
    reveal_strlit("cannot create overlay tempdir: ");
    reveal_strlit("sync pipe creation failed: ");
    reveal_strlit("cannot open pid ");
    reveal_strlit(" user ns: ");
    reveal_strlit(" net ns: ");
    reveal_strlit("setns(CLONE_NEWUSER) into pid ");
    reveal_strlit("setns(CLONE_NEWNET) into pid ");
    reveal_strlit(" failed: ");
    let msg = step.failure_text(pid, why);
    assert(msg.subrange(msg.len() - why.len(), msg.len() as int) =~= why);
    let p = text::signed_decimal(pid as int);
    let user = " user ns: "@ + why;
    let net = " net ns: "@ + why;
    let failed = " failed: "@ + why;
    if step is OpenUserNs {
        assert(msg.subrange(msg.len() - user.len(), msg.len() as int) =~= user);
    } else if step is OpenNetNs {
        assert(msg.subrange(msg.len() - net.len(), msg.len() as int) =~= net);
    } else if step is JoinUserNs || step is JoinNetNs {
        assert(msg.subrange(msg.len() - failed.len(), msg.len() as int) =~= failed);
    }
    if step is OpenUserNs || step is OpenNetNs {
        assert(msg.subrange(0, ("cannot open pid "@ + p).len() as int) =~= "cannot open pid "@ + p);
    } else if step is JoinUserNs {
        let head = "setns(CLONE_NEWUSER) into pid "@ + p;
        assert(msg.subrange(0, head.len() as int) =~= head);
    } else if step is JoinNetNs {
        let head = "setns(CLONE_NEWNET) into pid "@ + p;
        assert(msg.subrange(0, head.len() as int) =~= head);
    }
}

/// The path of namespace `kind` of process `pid`.
pub fn ns_path(pid: i32, kind: &str) -> (path: String)
    ensures
        path@ == "/proc/"@ + text::signed_decimal(pid as int) + "/ns/"@ + kind@,
{
    let mut path: String = "/proc/".to_owned();
    text::push_signed(&mut path, pid);
    path.append("/ns/");
    path.append(kind);
    path
}

/// A step of the child on its way to becoming the container.
#[derive(Clone, Copy, Debug, PartialEq, Eq, Structural)]
pub enum InitStep {
    /// Bring up the loopback interface.
    Loopback,
    /// Set the host name.
    Hostname,
    /// Mount the overlay over the root filesystem.
    MountOverlay,
    /// Make the mounted overlay the root.
    EnterRoot,
    /// Execute the command. This comes back only when it failed.
    Exec,
    /// End the child with exit code 1.
    GiveUp,
}

impl InitStep {
    pub open spec fn spec_next(self, has_rootfs: bool, done: bool) -> InitStep {
        match self {
            InitStep::Loopback => InitStep::Hostname,
            InitStep::Hostname => if has_rootfs {
                InitStep::MountOverlay
            } else {
                InitStep::Exec
            },
            InitStep::MountOverlay => if done {
                InitStep::EnterRoot
            } else {
                InitStep::GiveUp
            },
            InitStep::EnterRoot => if done {
                InitStep::Exec
            } else {
                InitStep::GiveUp
            },
            InitStep::Exec => InitStep::GiveUp,
            InitStep::GiveUp => InitStep::GiveUp,
        }
    }

    /// The step after this one, which succeeded (`done`) or failed.
    pub fn next(self, has_rootfs: bool, done: bool) -> (step: Self)
        ensures
            step == self.spec_next(has_rootfs, done),
    {
        match self {
            InitStep::Loopback => InitStep::Hostname,
            InitStep::Hostname => if has_rootfs {
                InitStep::MountOverlay
            } else {
                InitStep::Exec
            },
            InitStep::MountOverlay => if done {
                InitStep::EnterRoot
            } else {
                InitStep::GiveUp
            },
            InitStep::EnterRoot => if done {
                InitStep::Exec
            } else {
                InitStep::GiveUp
            },
            InitStep::Exec => InitStep::GiveUp,
            InitStep::GiveUp => InitStep::GiveUp,
        }
    }
}

/// A container with a root filesystem runs its command only inside it: the
/// overlay was mounted and became the root, both with success.
pub proof fn command_runs_in_its_root(before: InitStep, mounted: bool, last: InitStep, done: bool)
    requires
        before.spec_next(true, mounted) == last,
        last.spec_next(true, done) is Exec,
    ensures
        before is MountOverlay && mounted,
        last is EnterRoot && done,
{
}

/// The step that the child is at after the outcomes `done` of its steps so far.
pub open spec fn init_step(has_rootfs: bool, done: Seq<bool>) -> InitStep
    decreases done.len(),
{
    if done.len() == 0 {
        InitStep::Loopback
    } else {
        init_step(has_rootfs, done.drop_last()).spec_next(has_rootfs, done.last())
    }
}

/// The child brings up the loopback interface, sets its host name and, with a
/// root filesystem, mounts the overlay and enters it, before it executes the
/// command. It gives up exactly when one of the two root steps failed or the
/// command could not be executed; that the interface or the name could not be
/// set does not stop it.
pub proof fn child_reaches_its_command(has_rootfs: bool, done: Seq<bool>)
    ensures
        ({
            let step = init_step(has_rootfs, done);
            let n = done.len();
            let mounted = n > 2 && done[2];
            let entered = mounted && n > 3 && done[3];
            &&& step is Loopback <==> n == 0
            &&& step is Hostname <==> n == 1
            &&& step is MountOverlay <==> has_rootfs && n == 2
            &&& step is EnterRoot <==> has_rootfs && n == 3 && mounted
            &&& step is Exec <==> if has_rootfs {
                n == 4 && entered
            } else {
                n == 2
            }
        }),
    decreases done.len(),
{
    if done.len() > 0 {
        child_reaches_its_command(has_rootfs, done.drop_last());
    }
}

/// What the parent does with the pipe that holds the child back.
#[derive(Clone, Copy, Debug, PartialEq, Eq, Structural)]
pub enum SyncStep {
    Close { fd: i32 },
    /// Write one byte, which lets the child go on.
    Release { fd: i32 },
}

/// What becomes of the pipe after a step that failed, or that wrote the id
/// maps (`mapped`). Any other step leaves it open.
pub open spec fn sync_plan(signal: FdPair, mapped: bool, failed: bool) -> Seq<SyncStep> {
    if failed {
        seq![SyncStep::Close { fd: signal.read }, SyncStep::Close { fd: signal.write }]
    } else if mapped {
        seq![
            SyncStep::Close { fd: signal.read },
            SyncStep::Release { fd: signal.write },
            SyncStep::Close { fd: signal.write },
        ]
    } else {
        Seq::empty()
    }
}

/// What to do with the pipe that holds the child back after a step.
pub fn sync_steps(signal: FdPair, mapped: bool, failed: bool) -> (steps: Vec<SyncStep>)
    ensures
        steps@ == sync_plan(signal, mapped, failed),
{
    let mut steps: Vec<SyncStep> = Vec::new();
    if mapped || failed {
        steps.push(SyncStep::Close { fd: signal.read });
        if !failed {
            steps.push(SyncStep::Release { fd: signal.write });
        }
        steps.push(SyncStep::Close { fd: signal.write });
    }
    assert(steps@ =~= sync_plan(signal, mapped, failed));
    steps
}

/// The child is let go exactly when its id maps are in place, and both ends of
/// the pipe are closed whenever the run failed or the child was let go.
pub proof fn child_is_released_after_its_maps(signal: FdPair, mapped: bool, failed: bool)
    ensures
        ({
            let plan = sync_plan(signal, mapped, failed);
            &&& plan.contains(SyncStep::Release { fd: signal.write }) <==> mapped && !failed
            &&& mapped || failed ==> plan.contains(SyncStep::Close { fd: signal.read })
                && plan.last() == (SyncStep::Close { fd: signal.write })
            &&& !mapped && !failed ==> plan.len() == 0
            &&& failed ==> plan.len() == 2
            &&& mapped && !failed ==> plan.len() == 3 && plan[1] == (SyncStep::Release {
                fd: signal.write,
            })
        }),
{
    let plan = sync_plan(signal, mapped, failed);
    if mapped || failed {
        assert(plan[0] == SyncStep::Close { fd: signal.read });
    }
    if mapped && !failed {
        assert(plan[1] == SyncStep::Release { fd: signal.write });
    }
}

/// What the client of a run is told.
pub enum RunReply {
    Started(RunResponse),
    Refused(ErrorResponse),
}

impl RunReply {
    /// Whether this says that container `pid` was started, or why none was.
    pub open spec fn tells(self, pid: i32, failure: Option<String>) -> bool {
        match (self, failure) {
            (RunReply::Started(answer), None) => answer == (RunResponse {
                ok: true,
                pid: Some(pid),
                error: None,
            }),
            (RunReply::Refused(answer), Some(why)) => !answer.ok && answer.error == why,
            _ => false,
        }
    }
}

/// A step of answering a run.
pub enum AnswerStep {
    /// Send the reply to where the request came from.
    Datagram(RunReply),
    /// Send the reply as the payload of a frame of this type.
    Frame { ty: u8, reply: RunReply },
    /// Relay the container's output to the session.
    RelayOutput,
    CloseSession,
}

impl AnswerStep {
    /// Whether the client is told by this step.
    pub open spec fn is_answer(self) -> bool {
        self is Datagram || self is Frame
    }
}

/// Where a run is.
#[derive(Clone, Copy, Debug, PartialEq, Eq, Structural)]
pub enum RunStage {
    StdinPipe,
    OpenPty,
    LogPipe,
    Clone,
    SetupMaps,
    /// The container runs; this is the parent.
    Started,
    /// This is the child, about to become the container.
    Child,
    Failed,
}

/// What the last step of a run brought.
pub enum RunEvent {
    /// A pipe was created.
    Pipe(FdPair),
    /// A PTY was opened: its master and its slave.
    Pty { master: i32, slave: i32 },
    /// The process was cloned; this is the parent.
    Cloned { pid: i32 },
    /// The process was cloned; this is the child.
    Forked,
    /// The id maps are written and the child was let go.
    MapsDone,
    /// The step failed.
    Failed(String),
}

/// What to do after a step.
pub struct RunStep {
    /// Descriptors to close, in order.
    pub close: Vec<i32>,
    /// The message for the client, when the run failed.
    pub error: Option<String>,
}

/// A container being started. Descriptors that are not open are -1.
pub struct RunFlow {
    pub attached: bool,
    pub use_pty: bool,
    pub use_stdin_pipe: bool,
    pub stage: RunStage,
    pub stdin: FdPair,
    pub master: i32,
    pub slave: i32,
    pub log: FdPair,
    pub pid: i32,
}

/// A step of setting up the child's descriptors.
#[derive(Clone, Copy, Debug, PartialEq, Eq, Structural)]
pub enum ChildStep {
    Close { fd: i32 },
    Dup { from: i32, to: i32 },
    /// Make this PTY slave the controlling terminal and all three standard
    /// descriptors, then close it.
    TakeTerminal { slave: i32 },
    /// Read stdin from the null device.
    NullStdin,
}

impl RunFlow {
    /// Whether output is captured through a pipe.
    pub open spec fn uses_log(self) -> bool {
        !self.attached || !self.use_pty
    }

    pub open spec fn stage_after_pty(self) -> RunStage {
        if self.uses_log() {
            RunStage::LogPipe
        } else {
            RunStage::Clone
        }
    }

    pub open spec fn stage_after_stdin(self) -> RunStage {
        if self.use_pty {
            RunStage::OpenPty
        } else {
            self.stage_after_pty()
        }
    }

    pub open spec fn first_stage(self) -> RunStage {
        if self.use_stdin_pipe {
            RunStage::StdinPipe
        } else {
            self.stage_after_stdin()
        }
    }

    /// Whether `event` can be the outcome of the current stage.
    pub open spec fn expects(self, event: RunEvent) -> bool {
        match self.stage {
            RunStage::StdinPipe => event is Pipe || event is Failed,
            RunStage::OpenPty => event is Pty || event is Failed,
            RunStage::LogPipe => event is Pipe || event is Failed,
            RunStage::Clone => event is Cloned || event is Forked || event is Failed,
            RunStage::SetupMaps => event is MapsDone || event is Failed,
            _ => false,
        }
    }

    /// The message when the current stage failed because of `why`.
    pub open spec fn failure_text(self, why: Seq<char>) -> Seq<char> {
        match self.stage {
            RunStage::StdinPipe => "stdin pipe creation failed: "@ + why,
            RunStage::OpenPty => "pty allocation failed: "@ + why,
            RunStage::LogPipe => "log pipe creation failed: "@ + why,
            RunStage::Clone => "clone3 failed: "@ + why,
            RunStage::SetupMaps => "container aborted: "@ + why,
            _ => why,
        }
    }

    /// What is closed when the current stage failed.
    pub open spec fn closed_on_failure(self) -> Seq<i32> {
        match self.stage {
            RunStage::LogPipe => daemon::if_open(self.slave) + daemon::if_open(self.master),
            RunStage::Clone => if self.attached {
                daemon::if_open(self.log.read) + daemon::if_open(self.log.write) + daemon::if_open(
                    self.slave,
                ) + daemon::if_open(self.master)
            } else {
                daemon::if_open(self.log.read) + daemon::if_open(self.log.write) + daemon::if_open(
                    self.stdin.read,
                ) + daemon::if_open(self.stdin.write) + daemon::if_open(self.master)
                    + daemon::if_open(self.slave)
            },
            RunStage::SetupMaps => if self.attached {
                daemon::if_open(self.master)
            } else {
                daemon::if_open(self.log.read) + daemon::if_open(self.stdin.write)
                    + daemon::if_open(self.master)
            },
            _ => Seq::empty(),
        }
    }

    /// What the parent closes once the child exists: the child's ends.
    pub open spec fn closed_on_clone(self) -> Seq<i32> {
        if self.attached {
            daemon::if_open(self.slave)
        } else {
            daemon::if_open(self.log.write) + daemon::if_open(self.slave) + daemon::if_open(
                self.stdin.read,
            )
        }
    }

    /// What is closed once the container runs.
    pub open spec fn closed_on_start(self) -> Seq<i32> {
        if self.attached {
            daemon::if_open(self.log.write)
        } else {
            Seq::empty()
        }
    }

    /// The flow after `event`.
    pub open spec fn after(self, event: RunEvent) -> RunFlow {
        match event {
            RunEvent::Failed(_) => RunFlow { stage: RunStage::Failed, ..self },
            RunEvent::Pipe(p) => if self.stage == RunStage::StdinPipe {
                RunFlow { stdin: p, stage: self.stage_after_stdin(), ..self }
            } else {
                RunFlow { log: p, stage: RunStage::Clone, ..self }
            },
            RunEvent::Pty { master, slave } => RunFlow {
                master,
                slave,
                stage: self.stage_after_pty(),
                ..self
            },
            RunEvent::Cloned { pid } => RunFlow { pid, stage: RunStage::SetupMaps, ..self },
            RunEvent::Forked => RunFlow { stage: RunStage::Child, ..self },
            RunEvent::MapsDone => RunFlow { stage: RunStage::Started, ..self },
        }
    }

    /// What `event` makes the daemon close.
    pub open spec fn closes(self, event: RunEvent) -> Seq<i32> {
        match event {
            RunEvent::Failed(_) => self.closed_on_failure(),
            RunEvent::Cloned { .. } => self.closed_on_clone(),
            RunEvent::MapsDone => self.closed_on_start(),
            _ => Seq::empty(),
        }
    }

    /// Plans a run. Detached, a PTY is used for `tty` and a stdin pipe for
    /// `interactive` without it; attached, a PTY is used for either.
    pub fn new(attached: bool, tty: bool, interactive: bool) -> (flow: Self)
        ensures
            flow.attached == attached,
            flow.use_pty == (tty || (attached && interactive)),
            flow.use_stdin_pipe == (!attached && interactive && !tty),
            flow.stage == flow.first_stage(),
            flow.stdin == (FdPair { read: -1i32, write: -1i32 }),
            flow.log == (FdPair { read: -1i32, write: -1i32 }),
            flow.master == -1,
            flow.slave == -1,
            flow.pid == 0,
    {
        let use_pty: bool = tty || (attached && interactive);
        let use_stdin_pipe: bool = !attached && interactive && !tty;
        let stage: RunStage = if use_stdin_pipe {
            RunStage::StdinPipe
        } else if use_pty {
            RunStage::OpenPty
        } else {
            RunStage::LogPipe
        };
        RunFlow {
            attached,
            use_pty,
            use_stdin_pipe,
            stage,
            stdin: FdPair { read: -1, write: -1 },
            master: -1,
            slave: -1,
            log: FdPair { read: -1, write: -1 },
            pid: 0,
        }
    }

    fn fail(&mut self, why: &str) -> (step: RunStep)
        ensures
            *final(self) == (RunFlow { stage: RunStage::Failed, ..*old(self) }),
            step.close@ == old(self).closed_on_failure(),
            step.error is Some,
            step.error->Some_0@ == old(self).failure_text(why@),
    {
        let mut close: Vec<i32> = Vec::new();
        let mut msg: String = String::new();
        match self.stage {
            RunStage::StdinPipe => {
                msg.append("stdin pipe creation failed: ");
            },
            RunStage::OpenPty => {
                msg.append("pty allocation failed: ");
            },
            RunStage::LogPipe => {
                msg.append("log pipe creation failed: ");
                daemon::push_open(&mut close, self.slave);
                daemon::push_open(&mut close, self.master);
            },
            RunStage::Clone => {
                msg.append("clone3 failed: ");
                daemon::push_open(&mut close, self.log.read);
                daemon::push_open(&mut close, self.log.write);
                if self.attached {
                    daemon::push_open(&mut close, self.slave);
                    daemon::push_open(&mut close, self.master);
                } else {
                    daemon::push_open(&mut close, self.stdin.read);
                    daemon::push_open(&mut close, self.stdin.write);
                    daemon::push_open(&mut close, self.master);
                    daemon::push_open(&mut close, self.slave);
                }
            },
            RunStage::SetupMaps => {
                msg.append("container aborted: ");
                if !self.attached {
                    daemon::push_open(&mut close, self.log.read);
                    daemon::push_open(&mut close, self.stdin.write);
                }
                daemon::push_open(&mut close, self.master);
            },
            _ => {},
        }
        msg.append(why);
        assert(close@ =~= self.closed_on_failure());
        assert(msg@ =~= self.failure_text(why@));
        self.stage = RunStage::Failed;
        RunStep { close, error: Some(msg) }
    }

    /// Takes the outcome of the current stage.
    pub fn advance(&mut self, event: RunEvent) -> (step: RunStep)
        requires
            old(self).expects(event),
        ensures
            *final(self) == old(self).after(event),
            step.close@ == old(self).closes(event),
            match event {
                RunEvent::Failed(why) => step.error is Some && step.error->Some_0@ == old(
                    self,
                ).failure_text(why@),
                _ => step.error is None,
            },
    {
        let mut close: Vec<i32> = Vec::new();
        match event {
            RunEvent::Failed(why) => {
                return self.fail(why.as_str());
            },
            RunEvent::Pipe(p) => {
                if let RunStage::StdinPipe = self.stage {
                    self.stdin = p;
                    self.stage = if self.use_pty {
                        RunStage::OpenPty
                    } else if !self.attached || !self.use_pty {
                        RunStage::LogPipe
                    } else {
                        RunStage::Clone
                    };
                } else {
                    self.log = p;
                    self.stage = RunStage::Clone;
                }
            },
            RunEvent::Pty { master, slave } => {
                self.master = master;
                self.slave = slave;
                self.stage = if !self.attached || !self.use_pty {
                    RunStage::LogPipe
                } else {
                    RunStage::Clone
                };
            },
            RunEvent::Cloned { pid } => {
                if !self.attached {
                    daemon::push_open(&mut close, self.log.write);
                }
                daemon::push_open(&mut close, self.slave);
                if !self.attached {
                    daemon::push_open(&mut close, self.stdin.read);
                }
                assert(close@ =~= self.closed_on_clone());
                self.pid = pid;
                self.stage = RunStage::SetupMaps;
            },
            RunEvent::Forked => {
                self.stage = RunStage::Child;
            },
            RunEvent::MapsDone => {
                if self.attached {
                    daemon::push_open(&mut close, self.log.write);
                }
                assert(close@ =~= self.closed_on_start());
                self.stage = RunStage::Started;
            },
        }
        RunStep { close, error: None }
    }

    /// The answer to the run, which failed with a message or started its
    /// container. Its client is told exactly once: by a datagram, or in the
    /// session by one response frame, after which the session relays output
    /// or, if the run failed, is closed.
    pub fn answer(&self, failure: Option<String>) -> (steps: Vec<AnswerStep>)
        ensures
            forall|i: int|
                0 <= i < steps@.len() ==> ((#[trigger] steps@[i]).is_answer() <==> i == 0),
            if self.attached {
                &&& steps@.len() == 2
                &&& steps@[0] matches AnswerStep::Frame { ty, reply } && ty == FRAME_RESPONSE
                    && reply.tells(self.pid, failure)
                &&& steps@[1] == if failure is None {
                    AnswerStep::RelayOutput
                } else {
                    AnswerStep::CloseSession
                }
            } else {
                &&& steps@.len() == 1
                &&& steps@[0] matches AnswerStep::Datagram(reply) && reply.tells(
                    self.pid,
                    failure,
                )
            },
    {
        let failed: bool = failure.is_some();
        let reply: RunReply = match failure {
            None => RunReply::Started(RunResponse::started(self.pid)),
            Some(why) => RunReply::Refused(ErrorResponse::new(why)),
        };
        let mut steps: Vec<AnswerStep> = Vec::new();
        if self.attached {
            steps.push(AnswerStep::Frame { ty: FRAME_RESPONSE, reply });
            steps.push(
                if failed {
                    AnswerStep::CloseSession
                } else {
                    AnswerStep::RelayOutput
                },
            );
        } else {
            steps.push(AnswerStep::Datagram(reply));
        }
        steps
    }

    /// Putting the log pipe on stdout and stderr, then closing its own
    /// descriptor unless it is one of the two.
    pub open spec fn log_to_std(w: i32) -> Seq<ChildStep> {
        let dups = seq![
            ChildStep::Dup { from: w, to: sys::STDOUT_FILENO },
            ChildStep::Dup { from: w, to: sys::STDERR_FILENO },
        ];
        if w != sys::STDOUT_FILENO && w != sys::STDERR_FILENO {
            dups.push(ChildStep::Close { fd: w })
        } else {
            dups
        }
    }

    /// How the child sets up its descriptors.
    pub open spec fn child_plan(self) -> Seq<ChildStep> {
        let terminal = seq![
            ChildStep::Close { fd: self.master },
            ChildStep::TakeTerminal { slave: self.slave },
        ];
        if self.attached && self.use_pty {
            terminal
        } else {
            let head = seq![ChildStep::Close { fd: self.log.read }];
            if self.use_pty {
                head + terminal + RunFlow::log_to_std(self.log.write)
            } else if self.use_stdin_pipe {
                head + RunFlow::log_to_std(self.log.write) + seq![
                    ChildStep::Close { fd: self.stdin.write },
                    ChildStep::Dup { from: self.stdin.read, to: sys::STDIN_FILENO },
                    ChildStep::Close { fd: self.stdin.read },
                ]
            } else {
                head + RunFlow::log_to_std(self.log.write) + seq![ChildStep::NullStdin]
            }
        }
    }

    /// How the child sets up its descriptors before it becomes the container.
    pub fn child_steps(&self) -> (steps: Vec<ChildStep>)
        ensures
            steps@ == self.child_plan(),
    {
        let mut steps: Vec<ChildStep> = Vec::new();
        let logs: bool = !(self.attached && self.use_pty);
        if logs {
            steps.push(ChildStep::Close { fd: self.log.read });
        }
        if self.use_pty {
            steps.push(ChildStep::Close { fd: self.master });
            steps.push(ChildStep::TakeTerminal { slave: self.slave });
        }
        if logs {
            let w: i32 = self.log.write;
            steps.push(ChildStep::Dup { from: w, to: sys::STDOUT_FILENO });
            steps.push(ChildStep::Dup { from: w, to: sys::STDERR_FILENO });
            if w != sys::STDOUT_FILENO && w != sys::STDERR_FILENO {
                steps.push(ChildStep::Close { fd: w });
            }
            if !self.use_pty {
                if self.use_stdin_pipe {
                    steps.push(ChildStep::Close { fd: self.stdin.write });
                    steps.push(ChildStep::Dup { from: self.stdin.read, to: sys::STDIN_FILENO });
                    steps.push(ChildStep::Close { fd: self.stdin.read });
                } else {
                    steps.push(ChildStep::NullStdin);
                }
            }
        }
        assert(steps@ =~= self.child_plan());
        steps
    }
}

/// By the time its child is cloned, a run has opened exactly what it uses: the
/// stdin pipe, then the PTY, then the log pipe, which only an attached run with
/// a PTY goes without. Each outcome is kept where the run looks for it, and
/// nothing else of the run changes.
pub proof fn run_opens_what_it_uses(
    flow: RunFlow,
    stdin: FdPair,
    master: i32,
    slave: i32,
    log: FdPair,
)
    requires
        flow.stage == flow.first_stage(),
    ensures
        ({
            let pty = RunEvent::Pty { master, slave };
            let a = if flow.use_stdin_pipe {
                flow.after(RunEvent::Pipe(stdin))
            } else {
                flow
            };
            let b = if flow.use_pty {
                a.after(pty)
            } else {
                a
            };
            let logs = !(flow.attached && flow.use_pty);
            let c = if logs {
                b.after(RunEvent::Pipe(log))
            } else {
                b
            };
            &&& flow.use_stdin_pipe <==> flow.stage is StdinPipe
            &&& flow.use_pty <==> a.stage is OpenPty
            &&& logs <==> b.stage is LogPipe
            &&& c.stage is Clone
            &&& c.stdin == if flow.use_stdin_pipe {
                stdin
            } else {
                flow.stdin
            }
            &&& (c.master, c.slave) == if flow.use_pty {
                (master, slave)
            } else {
                (flow.master, flow.slave)
            }
            &&& c.log == if logs {
                log
            } else {
                flow.log
            }
            &&& c.attached == flow.attached
            &&& c.use_pty == flow.use_pty
            &&& c.use_stdin_pipe == flow.use_stdin_pipe
            &&& c.pid == flow.pid
        }),
{
}

/// Each stage takes the outcomes that it can have, and every stage before the
/// end can fail. The child's parent learns the child's pid before it writes the
/// maps; the run has started once they are written.
pub proof fn run_goes_on_stage_by_stage(flow: RunFlow, event: RunEvent)
    ensures
        flow.expects(event) ==> {
            &&& !(flow.stage is Started) && !(flow.stage is Child) && !(flow.stage is Failed)
            &&& flow.after(event).stage != flow.stage
        },
        event matches RunEvent::Failed(why) ==> {
            &&& flow.expects(event) <==> !(flow.stage is Started) && !(flow.stage is Child)
                && !(flow.stage is Failed)
            &&& flow.after(event) == (RunFlow { stage: RunStage::Failed, ..flow })
        },
        event matches RunEvent::Cloned { pid } ==> {
            &&& flow.expects(event) <==> flow.stage is Clone
            &&& flow.after(event) == (RunFlow { stage: RunStage::SetupMaps, pid, ..flow })
        },
        event is Forked ==> {
            &&& flow.expects(event) <==> flow.stage is Clone
            &&& flow.after(event) == (RunFlow { stage: RunStage::Child, ..flow })
        },
        event is MapsDone ==> {
            &&& flow.expects(event) <==> flow.stage is SetupMaps
            &&& flow.after(event) == (RunFlow { stage: RunStage::Started, ..flow })
        },
{
}

/// Whether `fd` is a descriptor that `flow` has open.
pub open spec fn holds(flow: RunFlow, fd: i32) -> bool {
    &&& fd >= 0
    &&& {
        ||| fd == flow.stdin.read
        ||| fd == flow.stdin.write
        ||| fd == flow.master
        ||| fd == flow.slave
        ||| fd == flow.log.read
        ||| fd == flow.log.write
    }
}

/// A run closes only descriptors of its own that are open, whatever happens.
pub proof fn run_closes_only_its_own(flow: RunFlow, event: RunEvent, fd: i32)
    requires
        flow.closes(event).contains(fd),
    ensures
        holds(flow, fd),
        event is Failed || event is Cloned || event is MapsDone,
{
    let closed = flow.closes(event);
    assert forall|k: int| 0 <= k < closed.len() implies holds(flow, #[trigger] closed[k]) by {
        lemma_closes(flow, event, k);
    }
}

proof fn lemma_closes(flow: RunFlow, event: RunEvent, k: int)
    requires
        0 <= k < flow.closes(event).len(),
    ensures
        holds(flow, flow.closes(event)[k]),
{
}

/// A run that starts keeps what it works with: the PTY's master, the reading
/// end of the log pipe and the writing end of the stdin pipe are closed neither
/// when the child was cloned nor when the run started. The child's ends are
/// closed by then, except that an attached run has no stdin pipe to close.
pub proof fn started_run_keeps_its_ends(flow: RunFlow, pid: i32, fd: i32)
    requires
        flow.log.read < 0 || (flow.log.read != flow.log.write && flow.log.read != flow.slave
            && flow.log.read != flow.stdin.read),
        flow.master < 0 || (flow.master != flow.log.write && flow.master != flow.slave
            && flow.master != flow.stdin.read),
        flow.stdin.write < 0 || (flow.stdin.write != flow.log.write && flow.stdin.write
            != flow.slave && flow.stdin.write != flow.stdin.read),
    ensures
        ({
            let on_clone = flow.closes(RunEvent::Cloned { pid });
            let on_start = flow.after(RunEvent::Cloned { pid }).closes(RunEvent::MapsDone);
            let closed = on_clone.contains(fd) || on_start.contains(fd);
            &&& fd == flow.master || fd == flow.log.read || fd == flow.stdin.write ==> !closed
            &&& fd >= 0 && (fd == flow.slave || fd == flow.log.write || (fd == flow.stdin.read
                && !flow.attached)) ==> closed
        }),
{
    let on_clone = flow.closed_on_clone();
    let on_start = flow.closed_on_start();
    if flow.attached {
        if fd >= 0 && fd == flow.slave {
            assert(on_clone[0] == fd);
        }
        if fd >= 0 && fd == flow.log.write {
            assert(on_start[0] == fd);
        }
    } else {
        let a = daemon::if_open(flow.log.write);
        let b = daemon::if_open(flow.slave);
        let c = daemon::if_open(flow.stdin.read);
        if fd >= 0 && fd == flow.log.write {
            assert(on_clone[0] == fd);
        } else if fd >= 0 && fd == flow.slave {
            assert(on_clone[a.len() as int] == fd);
        } else if fd >= 0 && fd == flow.stdin.read {
            assert(on_clone[(a + b).len() as int] == fd);
        }
    }
}

/// A run whose log pipe could not be made closes the PTY it had opened.
pub proof fn failed_log_pipe_closes_the_pty(flow: RunFlow, fd: i32)
    requires
        flow.stage == RunStage::LogPipe,
        fd >= 0,
        fd == flow.master || fd == flow.slave,
    ensures
        flow.closed_on_failure().contains(fd),
{
    let a = daemon::if_open(flow.slave);
    if fd == flow.slave {
        assert(flow.closed_on_failure()[0] == fd);
    } else {
        assert(flow.closed_on_failure()[a.len() as int] == fd);
    }
}

/// An attached run that is aborted while its id maps are written closes its
/// PTY's master.
pub proof fn aborted_attached_run_closes_its_pty(flow: RunFlow)
    requires
        flow.stage == RunStage::SetupMaps,
        flow.attached,
        flow.master >= 0,
    ensures
        flow.closed_on_failure() == seq![flow.master],
{
}

/// A failed run is reported with its reason at the end of the message.
pub proof fn failed_run_says_why(flow: RunFlow, why: Seq<char>)
    ensures
        why.is_suffix_of(flow.failure_text(why)),
        flow.stage is StdinPipe ==> flow.failure_text(why) == "stdin pipe creation failed: "@ + why,
        flow.stage is OpenPty ==> flow.failure_text(why) == "pty allocation failed: "@ + why,
        flow.stage is LogPipe ==> flow.failure_text(why) == "log pipe creation failed: "@ + why,
        flow.stage is Clone ==> flow.failure_text(why) == "clone3 failed: "@ + why,
        flow.stage is SetupMaps ==> flow.failure_text(why) == "container aborted: "@ + why,
{
    let msg = flow.failure_text(why);
    assert(msg.subrange(msg.len() - why.len(), msg.len() as int) =~= why);
}

/// Every descriptor that a run has open when the clone fails is closed.
pub proof fn failed_clone_leaks_nothing(flow: RunFlow, fd: i32)
    requires
        flow.stage == RunStage::Clone,
        flow.attached ==> flow.stdin.read < 0 && flow.stdin.write < 0,
        fd >= 0,
        fd == flow.stdin.read || fd == flow.stdin.write || fd == flow.master || fd == flow.slave
            || fd == flow.log.read || fd == flow.log.write,
    ensures
        flow.closed_on_failure().contains(fd),
{
    let a = daemon::if_open(flow.log.read);
    let b = a + daemon::if_open(flow.log.write);
    let all = flow.closed_on_failure();
    if fd == flow.log.read {
        assert(all[0] == fd);
    } else if fd == flow.log.write {
        assert(all[a.len() as int] == fd);
    } else if flow.attached {
        let c = b + daemon::if_open(flow.slave);
        assert(all =~= c + daemon::if_open(flow.master));
        if fd == flow.slave {
            assert(all[b.len() as int] == fd);
        } else {
            assert(all[c.len() as int] == fd);
        }
    } else {
        let c = b + daemon::if_open(flow.stdin.read);
        let d = c + daemon::if_open(flow.stdin.write);
        let e = d + daemon::if_open(flow.master);
        assert(all =~= e + daemon::if_open(flow.slave));
        if fd == flow.stdin.read {
            assert(all[b.len() as int] == fd);
        } else if fd == flow.stdin.write {
            assert(all[c.len() as int] == fd);
        } else if fd == flow.master {
            assert(all[d.len() as int] == fd);
        } else {
            assert(all[e.len() as int] == fd);
        }
    }
}

/// A detached run that is aborted while its id maps are written has closed
/// every descriptor it opened: the child's ends when it cloned, the rest now.
pub proof fn aborted_run_leaks_nothing(flow: RunFlow, fd: i32)
    requires
        flow.stage == RunStage::SetupMaps,
        !flow.attached,
        fd >= 0,
        fd == flow.stdin.read || fd == flow.stdin.write || fd == flow.master || fd == flow.slave
            || fd == flow.log.read || fd == flow.log.write,
    ensures
        flow.closed_on_failure().contains(fd) || flow.closed_on_clone().contains(fd),
{
    let kept = flow.closed_on_failure();
    let given = flow.closed_on_clone();
    let a = daemon::if_open(flow.log.read);
    let b = a + daemon::if_open(flow.stdin.write);
    let c = daemon::if_open(flow.log.write);
    let d = c + daemon::if_open(flow.slave);
    if fd == flow.log.read {
        assert(kept[0] == fd);
    } else if fd == flow.stdin.write {
        assert(kept[a.len() as int] == fd);
    } else if fd == flow.master {
        assert(kept[b.len() as int] == fd);
    } else if fd == flow.log.write {
        assert(given[0] == fd);
    } else if fd == flow.slave {
        assert(given[c.len() as int] == fd);
    } else {
        assert(given[d.len() as int] == fd);
    }
}

/// What descriptors refer to, after `step`, when `files` said so before.
/// The null device is file 0 and a terminal is known by its slave.
pub open spec fn apply_step(files: Map<i32, int>, step: ChildStep) -> Map<i32, int> {
    match step {
        ChildStep::Close { fd } => files.remove(fd),
        ChildStep::Dup { from, to } => files.insert(to, files[from]),
        ChildStep::TakeTerminal { slave } => files.insert(0i32, files[slave]).insert(
            1i32,
            files[slave],
        ).insert(2i32, files[slave]).remove(slave),
        ChildStep::NullStdin => files.insert(0i32, 0),
    }
}

/// What descriptors refer to after `steps`.
pub open spec fn apply_steps(files: Map<i32, int>, steps: Seq<ChildStep>) -> Map<i32, int>
    decreases steps.len(),
{
    if steps.len() == 0 {
        files
    } else {
        apply_steps(apply_step(files, steps[0]), steps.skip(1))
    }
}

proof fn lemma_apply_concat(files: Map<i32, int>, a: Seq<ChildStep>, b: Seq<ChildStep>)
    ensures
        apply_steps(files, a + b) == apply_steps(apply_steps(files, a), b),
    decreases a.len(),
{
    if a.len() == 0 {
        assert(a + b =~= b);
    } else {
        assert((a + b).skip(1) =~= a.skip(1) + b);
        lemma_apply_concat(apply_step(files, a[0]), a.skip(1), b);
    }
}

proof fn lemma_log_to_std(files: Map<i32, int>, w: i32)
    requires
        w > 2,
        files.contains_key(w),
    ensures
        apply_steps(files, RunFlow::log_to_std(w)) == files.insert(1i32, files[w]).insert(
            2i32,
            files[w],
        ).remove(w),
{
    let steps = RunFlow::log_to_std(w);
    let f1 = apply_step(files, steps[0]);
    let f2 = apply_step(f1, steps[1]);
    let s1 = steps.skip(1);
    let s2 = s1.skip(1);
    let s3 = s2.skip(1);
    assert(s1[0] == steps[1]);
    assert(s2[0] == steps[2]);
    assert(s3.len() == 0);
    assert(apply_steps(f2, s2) == apply_steps(apply_step(f2, s2[0]), s3));
    assert(apply_steps(f1, s1) == apply_steps(f2, s2));
    assert(apply_steps(files, steps) == apply_steps(f1, s1));
}

/// In a detached container stdout and stderr are the log pipe, whether or not
/// it has a terminal, and stdin is the terminal, the stdin pipe or the null
/// device.
pub proof fn detached_output_is_captured(flow: RunFlow, files: Map<i32, int>)
    requires
        !flow.attached,
        flow.use_pty ==> !flow.use_stdin_pipe,
        flow.log.read > 2 && flow.log.write > 2 && flow.log.read != flow.log.write,
        files.contains_key(flow.log.write),
        flow.use_pty ==> flow.master > 2 && flow.slave > 2 && files.contains_key(flow.slave)
            && flow.slave != flow.master && flow.log.write != flow.master && flow.log.write
            != flow.slave && flow.log.read != flow.slave,
        flow.use_stdin_pipe ==> flow.stdin.read > 2 && flow.stdin.write > 2 && flow.stdin.read
            != flow.stdin.write && files.contains_key(flow.stdin.read) && flow.log.write
            != flow.stdin.read && flow.log.read != flow.stdin.read,
    ensures
        apply_steps(files, flow.child_plan()).contains_key(1i32),
        apply_steps(files, flow.child_plan()).contains_key(2i32),
        apply_steps(files, flow.child_plan())[1i32] == files[flow.log.write],
        apply_steps(files, flow.child_plan())[2i32] == files[flow.log.write],
        apply_steps(files, flow.child_plan())[0i32] == if flow.use_pty {
            files[flow.slave]
        } else if flow.use_stdin_pipe {
            files[flow.stdin.read]
        } else {
            0
        },
{
    let w = flow.log.write;
    let head = seq![ChildStep::Close { fd: flow.log.read }];
    let terminal = seq![
        ChildStep::Close { fd: flow.master },
        ChildStep::TakeTerminal { slave: flow.slave },
    ];
    let logs = RunFlow::log_to_std(w);
    let f1 = apply_step(files, head[0]);
    assert(head.skip(1).len() == 0);
    assert(apply_steps(files, head) == f1) by {
        assert(apply_steps(f1, head.skip(1)) == f1);
    }
    if flow.use_pty {
        let f2 = apply_step(f1, terminal[0]);
        let f3 = apply_step(f2, terminal[1]);
        assert(apply_steps(f1, terminal) == f3) by {
            let t1 = terminal.skip(1);
            assert(t1[0] == terminal[1]);
            assert(t1.skip(1).len() == 0);
            assert(apply_steps(f2, t1) == apply_steps(f3, t1.skip(1)));
        }
        lemma_apply_concat(files, head, terminal);
        lemma_apply_concat(files, head + terminal, logs);
        lemma_log_to_std(f3, w);
    } else {
        lemma_log_to_std(f1, w);
        lemma_apply_concat(files, head, logs);
        let f2 = f1.insert(1i32, f1[w]).insert(2i32, f1[w]).remove(w);
        if flow.use_stdin_pipe {
            let last = seq![
                ChildStep::Close { fd: flow.stdin.write },
                ChildStep::Dup { from: flow.stdin.read, to: sys::STDIN_FILENO },
                ChildStep::Close { fd: flow.stdin.read },
            ];
            lemma_apply_concat(files, head + logs, last);
            let f3 = apply_step(f2, last[0]);
            let f4 = apply_step(f3, last[1]);
            let f5 = apply_step(f4, last[2]);
            let l1 = last.skip(1);
            let l2 = l1.skip(1);
            let l3 = l2.skip(1);
            assert(l1[0] == last[1]);
            assert(l2[0] == last[2]);
            assert(l3.len() == 0);
            assert(apply_steps(f4, l2) == apply_steps(f5, l3));
            assert(apply_steps(f3, l1) == apply_steps(f4, l2));
            assert(apply_steps(f2, last) == apply_steps(f3, l1));
        } else {
            let last = seq![ChildStep::NullStdin];
            lemma_apply_concat(files, head + logs, last);
            let f3 = apply_step(f2, last[0]);
            assert(last.skip(1).len() == 0);
            assert(apply_steps(f2, last) == apply_steps(f3, last.skip(1)));
        }
    }
}

/// In an attached container with a terminal all three standard descriptors are
/// that terminal; without one, stdout and stderr are the log pipe and stdin is
/// the null device.
pub proof fn attached_output_reaches_its_session(flow: RunFlow, files: Map<i32, int>)
    requires
        flow.attached,
        !flow.use_stdin_pipe,
        flow.use_pty ==> flow.master > 2 && flow.slave > 2 && flow.slave != flow.master
            && files.contains_key(flow.slave),
        !flow.use_pty ==> flow.log.read > 2 && flow.log.write > 2 && flow.log.read
            != flow.log.write && files.contains_key(flow.log.write),
    ensures
        apply_steps(files, flow.child_plan()).contains_key(0i32),
        apply_steps(files, flow.child_plan()).contains_key(1i32),
        apply_steps(files, flow.child_plan()).contains_key(2i32),
        ({
            let output = files[if flow.use_pty {
                flow.slave
            } else {
                flow.log.write
            }];
            &&& apply_steps(files, flow.child_plan())[1i32] == output
            &&& apply_steps(files, flow.child_plan())[2i32] == output
            &&& apply_steps(files, flow.child_plan())[0i32] == if flow.use_pty {
                output
            } else {
                0
            }
        }),
{
    let plan = flow.child_plan();
    if flow.use_pty {
        let f1 = apply_step(files, plan[0]);
        let f2 = apply_step(f1, plan[1]);
        let p1 = plan.skip(1);
        assert(p1[0] == plan[1]);
        assert(p1.skip(1).len() == 0);
        assert(apply_steps(f1, p1) == apply_steps(f2, p1.skip(1)));
    } else {
        let w = flow.log.write;
        let head = seq![ChildStep::Close { fd: flow.log.read }];
        let logs = RunFlow::log_to_std(w);
        let last = seq![ChildStep::NullStdin];
        let f1 = apply_step(files, head[0]);
        assert(head.skip(1).len() == 0);
        assert(apply_steps(files, head) == f1) by {
            assert(apply_steps(f1, head.skip(1)) == f1);
        }
        lemma_log_to_std(f1, w);
        lemma_apply_concat(files, head, logs);
        lemma_apply_concat(files, head + logs, last);
        let f2 = f1.insert(1i32, f1[w]).insert(2i32, f1[w]).remove(w);
        let f3 = apply_step(f2, last[0]);
        assert(last.skip(1).len() == 0);
        assert(apply_steps(f2, last) == apply_steps(f3, last.skip(1)));
    }
}

impl daemon::State {
    /// The state once one more drain of container `pid` runs.
    pub open spec fn drain_counted(self, pid: i32) -> daemon::State {
        if self.containers.contains_key(pid) {
            let c = self.containers[pid];
            self.with_container(
                pid,
                daemon::Container { drains_pending: (c.drains_pending + 1) as u32, ..c },
            )
        } else {
            self
        }
    }

    /// The state once the detached run `flow` started container `c`.
    pub open spec fn detached_started(
        self,
        flow: RunFlow,
        c: daemon::Container,
    ) -> daemon::State {
        daemon::State {
            outputs: self.outputs.insert(flow.pid, flow.log.read),
            containers: self.containers.insert(flow.pid, c),
            ..self
        }
    }

    /// The state once the run `flow` started container `c` in session `sid`.
    pub open spec fn attached_started(
        self,
        sid: u64,
        flow: RunFlow,
        c: daemon::Container,
    ) -> daemon::State {
        let entered = self.with_container(flow.pid, c);
        if self.sessions.contains_key(sid) {
            entered.with_session(
                sid,
                AttachSession {
                    ptm_fd: flow.master,
                    log_read_fd: flow.log.read,
                    container_pid: flow.pid,
                    ..self.sessions[sid]
                },
            )
        } else {
            entered
        }
    }
}

/// A container that just started, before any output.
pub open spec fn fresh_container(
    command: Seq<CString>,
    overlay_dir: Option<Seq<char>>,
    save: bool,
    start_time: u64,
    stdin_fd: i32,
    ptm_fd: i32,
) -> daemon::Container {
    daemon::Container {
        command: log::utf8_lossy(cstring::spaced(cstring::words(command))),
        overlay_dir,
        save,
        start_time,
        log: Seq::empty(),
        pipes: Seq::empty(),
        stdin_fd,
        ptm_fd,
        drains_pending: 0,
    }
}

fn fresh_info(
    pid: i32,
    command: &Vec<CString>,
    overlay_dir: Option<String>,
    save: bool,
    start_time: u64,
    stdin_fd: i32,
    ptm_fd: i32,
) -> (info: ContainerInfo)
    ensures
        info.wf(),
        info.pid == pid,
        info@ == fresh_container(
            command@,
            daemon::text_of(overlay_dir),
            save,
            start_time,
            stdin_fd,
            ptm_fd,
        ),
{
    let line: Vec<u8> = cstring::command_line(command);
    ContainerInfo {
        pid,
        command: log::string_from_utf8_lossy(line.as_slice()),
        overlay_dir,
        save,
        start_time,
        gateway: LogGateway::new(LOG_CAPACITY),
        stdin_fd,
        ptm_fd,
        drains_pending: 0,
    }
}

/// A task of the daemon.
#[derive(Clone, Copy, Debug, PartialEq, Eq, Structural)]
pub enum TaskKind {
    /// Binds the sockets and starts the others.
    Main,
    /// Serves datagram requests.
    Datagram,
    /// Accepts attach clients.
    Accept,
    /// Reaps containers that exited.
    SignalReaper,
    /// Drains a container's output pipe.
    ContainerOutput { pid: i32 },
    /// Drains a detached container's PTY.
    ContainerPtyOutput { pid: i32 },
    /// Reads a client's frames.
    SessionRead { session_id: u64 },
    /// Relays output to a client.
    SessionOutput { session_id: u64 },
}

/// The tasks that run for as long as the daemon does.
pub fn persistent_tasks() -> (tasks: Vec<TaskKind>)
    ensures
        tasks@ == seq![TaskKind::Datagram, TaskKind::Accept, TaskKind::SignalReaper],
{
    let mut tasks: Vec<TaskKind> = Vec::new();
    tasks.push(TaskKind::Datagram);
    tasks.push(TaskKind::Accept);
    tasks.push(TaskKind::SignalReaper);
    assert(tasks@ =~= seq![TaskKind::Datagram, TaskKind::Accept, TaskKind::SignalReaper]);
    tasks
}

/// The drains of a detached container: one for its output pipe, and one for
/// its PTY if it has one.
pub fn drain_tasks(pid: i32, ptm_fd: i32) -> (tasks: Vec<TaskKind>)
    ensures
        tasks@ == if ptm_fd >= 0 {
            seq![TaskKind::ContainerOutput { pid }, TaskKind::ContainerPtyOutput { pid }]
        } else {
            seq![TaskKind::ContainerOutput { pid }]
        },
{
    let mut tasks: Vec<TaskKind> = Vec::new();
    tasks.push(TaskKind::ContainerOutput { pid });
    if ptm_fd >= 0 {
        tasks.push(TaskKind::ContainerPtyOutput { pid });
    }
    assert(tasks@ =~= if ptm_fd >= 0 {
        seq![TaskKind::ContainerOutput { pid }, TaskKind::ContainerPtyOutput { pid }]
    } else {
        seq![TaskKind::ContainerOutput { pid }]
    });
    tasks
}

impl RunFlow {
    /// Where the stdin of a started detached container is written, or -1.
    pub fn stdin_fd(&self) -> (fd: i32)
        ensures
            fd == if self.use_stdin_pipe {
                self.stdin.write
            } else {
                -1i32
            },
    {
        if self.use_stdin_pipe {
            self.stdin.write
        } else {
            -1
        }
    }
}

impl DaemonState {
    /// Enters a detached container that was just started.
    pub fn start_detached(
        &mut self,
        flow: &RunFlow,
        command: &Vec<CString>,
        overlay_dir: Option<String>,
        save: bool,
        start_time: u64,
    )
        requires
            old(self).wf(),
            flow.stage == RunStage::Started,
            !flow.attached,
        ensures
            final(self).wf(),
            final(self)@ == old(self)@.detached_started(
                *flow,
                fresh_container(
                    command@,
                    daemon::text_of(overlay_dir),
                    save,
                    start_time,
                    if flow.use_stdin_pipe {
                        flow.stdin.write
                    } else {
                        -1i32
                    },
                    flow.master,
                ),
            ),
            final(self)@ == (daemon::State {
                outputs: old(self)@.outputs.insert(flow.pid, flow.log.read),
                containers: old(self)@.containers.insert(
                    flow.pid,
                    fresh_container(
                        command@,
                        daemon::text_of(overlay_dir),
                        save,
                        start_time,
                        if flow.use_stdin_pipe {
                            flow.stdin.write
                        } else {
                            -1i32
                        },
                        flow.master,
                    ),
                ),
                ..old(self)@
            }),
    {
        let pid: i32 = flow.pid;
        self.outputs.insert(pid, flow.log.read);
        let info: ContainerInfo = fresh_info(
            pid,
            command,
            overlay_dir,
            save,
            start_time,
            flow.stdin_fd(),
            flow.master,
        );
        let ghost c = info@;
        self.put_container(info);
        assert(self@ =~= old(self)@.detached_started(*flow, c));
        assert forall|p: i32| #[trigger] self@.containers.contains_key(p) implies
            daemon::distinct_ids(self@.containers[p].pipes) && daemon::ids_below(
            self@.containers[p].pipes,
            self@.next_pipe_id,
        ) by {
            assert(p == pid || old(self)@.containers.contains_key(p));
        }
    }

    /// Counts one more drain of container `pid`, if it is still there.
    pub fn drain_spawned(&mut self, pid: i32)
        requires
            old(self).wf(),
            old(self)@.containers.contains_key(pid) ==> old(self)@.containers[pid].drains_pending
                < u32::MAX,
        ensures
            final(self).wf(),
            final(self)@ == old(self)@.drain_counted(pid),
            final(self)@ == if old(self)@.containers.contains_key(pid) {
                let c = old(self)@.containers[pid];
                old(self)@.with_container(
                    pid,
                    daemon::Container { drains_pending: (c.drains_pending + 1) as u32, ..c },
                )
            } else {
                old(self)@
            },
    {
        if let Some(info) = self.take_container(pid) {
            let ghost c = info@;
            let mut info = info;
            info.drains_pending = info.drains_pending + 1;
            self.put_container(info);
            assert(self@.containers =~= old(self)@.containers.insert(
                pid,
                daemon::Container { drains_pending: (c.drains_pending + 1) as u32, ..c },
            ));
        }
    }

    /// Enters a container that was started in session `sid`, and hands its
    /// PTY and output pipe to the session.
    pub fn start_attached(
        &mut self,
        sid: u64,
        flow: &RunFlow,
        command: &Vec<CString>,
        overlay_dir: Option<String>,
        save: bool,
        start_time: u64,
    )
        requires
            old(self).wf(),
            flow.stage == RunStage::Started,
            flow.attached,
        ensures
            final(self).wf(),
            final(self)@ == old(self)@.attached_started(
                sid,
                *flow,
                fresh_container(
                    command@,
                    daemon::text_of(overlay_dir),
                    save,
                    start_time,
                    -1i32,
                    -1i32,
                ),
            ),
            ({
                let entered = old(self)@.with_container(
                    flow.pid,
                    fresh_container(
                        command@,
                        daemon::text_of(overlay_dir),
                        save,
                        start_time,
                        -1i32,
                        -1i32,
                    ),
                );
                final(self)@ == if old(self)@.sessions.contains_key(sid) {
                    entered.with_session(
                        sid,
                        AttachSession {
                            ptm_fd: flow.master,
                            log_read_fd: flow.log.read,
                            container_pid: flow.pid,
                            ..old(self)@.sessions[sid]
                        },
                    )
                } else {
                    entered
                }
            }),
    {
        let info: ContainerInfo = fresh_info(
            flow.pid,
            command,
            overlay_dir,
            save,
            start_time,
            -1,
            -1,
        );
        self.put_container(info);
        let found: Option<AttachSession> = self.session(sid);
        if let Some(s) = found {
            let mut wired: AttachSession = s;
            wired.ptm_fd = flow.master;
            wired.log_read_fd = flow.log.read;
            wired.container_pid = flow.pid;
            self.put_session(sid, wired);
        }
    }
}

/// What a client types reaches the container it started: once a run with a PTY
/// has started in an open session, every non-empty data frame is written to the
/// PTY's master, window sizes go there too, and the end of input closes it.
pub proof fn typed_input_reaches_the_terminal(
    s: daemon::State,
    sid: u64,
    flow: RunFlow,
    c: daemon::Container,
    frame: ClientFrame,
    after: daemon::State,
    step: FrameStep,
)
    requires
        s.sessions.contains_key(sid),
        flow.master >= 0,
        sessions::frame_handled(s.attached_started(sid, flow, c), sid, frame, after, step),
    ensures
        frame matches ClientFrame::Data(data) ==> if data@.len() > 0 {
            step == (FrameStep::Write { fd: flow.master, data })
        } else {
            step is Nothing
        },
        frame matches ClientFrame::WinSize(Some((rows, cols))) ==> step == (FrameStep::Resize {
            fd: flow.master,
            rows,
            cols,
        }),
        frame is StdinEof ==> step == (FrameStep::Close { fd: flow.master })
            && after.sessions[sid].ptm_fd < 0,
{
}

/// A session watches the container that was started in it and gets its output:
/// from the PTY where there is one, else from the log pipe. Its stream stays,
/// and so do all other sessions and containers.
pub proof fn started_container_belongs_to_its_session(
    s: daemon::State,
    sid: u64,
    flow: RunFlow,
    c: daemon::Container,
    other: u64,
    pid: i32,
)
    requires
        s.sessions.contains_key(sid),
        other != sid,
        pid != flow.pid,
    ensures
        ({
            let after = s.attached_started(sid, flow, c);
            &&& after.containers.contains_key(flow.pid) && after.containers[flow.pid] == c
            &&& after.watched(flow.pid)
            &&& after.sessions[sid] == (AttachSession {
                container_pid: flow.pid,
                ptm_fd: flow.master,
                log_read_fd: flow.log.read,
                ..s.sessions[sid]
            })
            &&& flow.master >= 0 ==> sessions::output_source(after.sessions[sid]) == flow.master
            &&& flow.master < 0 ==> sessions::output_source(after.sessions[sid]) == flow.log.read
            &&& after.sessions.contains_key(other) == s.sessions.contains_key(other)
            &&& after.sessions[other] == s.sessions[other]
            &&& after.containers.contains_key(pid) == s.containers.contains_key(pid)
            &&& after.containers[pid] == s.containers[pid]
            &&& after.outputs == s.outputs && after.graveyard == s.graveyard
        }),
{
    let after = s.attached_started(sid, flow, c);
    assert(after.sessions.contains_key(sid) && after.sessions[sid].container_pid == flow.pid);
}

/// A detached container's output is read from its run's log pipe, and nothing
/// else in the state changes when it starts.
pub proof fn detached_container_is_drained(
    s: daemon::State,
    flow: RunFlow,
    c: daemon::Container,
    pid: i32,
)
    requires
        pid != flow.pid,
    ensures
        ({
            let after = s.detached_started(flow, c);
            &&& after.containers.contains_key(flow.pid) && after.containers[flow.pid] == c
            &&& after.outputs.contains_key(flow.pid) && after.outputs[flow.pid] == flow.log.read
            &&& after.containers.contains_key(pid) == s.containers.contains_key(pid)
            &&& after.containers[pid] == s.containers[pid]
            &&& after.outputs.contains_key(pid) == s.outputs.contains_key(pid)
            &&& after.outputs[pid] == s.outputs[pid]
            &&& after.sessions == s.sessions && after.graveyard == s.graveyard
        }),
{
}

/// A fresh container has printed nothing and has no followers, and no drain of
/// its output is counted yet. It remembers what it was started with.
pub proof fn fresh_container_is_blank(
    command: Seq<CString>,
    overlay_dir: Option<Seq<char>>,
    save: bool,
    start_time: u64,
    stdin_fd: i32,
    ptm_fd: i32,
)
    ensures
        ({
            let c = fresh_container(command, overlay_dir, save, start_time, stdin_fd, ptm_fd);
            &&& c.log.len() == 0 && c.pipes.len() == 0 && c.drains_pending == 0
            &&& c.overlay_dir == overlay_dir && c.save == save && c.start_time == start_time
            &&& c.stdin_fd == stdin_fd && c.ptm_fd == ptm_fd
            &&& save ==> daemon::overlay_to_clean(c) is None
            &&& !save ==> daemon::overlay_to_clean(c) == overlay_dir
        }),
{
}

/// A drain that was counted and has ended leaves a container as it was, as long
/// as other drains of it run; the last one takes it along. Other containers are
/// not touched.
pub proof fn counted_drain_is_given_back(s: daemon::State, pid: i32, other: i32)
    requires
        s.containers.contains_key(pid),
        s.containers[pid].drains_pending < u32::MAX,
        other != pid,
    ensures
        ({
            let counted = s.drain_counted(pid);
            let done = counted.drain_done(pid);
            &&& counted.containers[pid].drains_pending == s.containers[pid].drains_pending + 1
            &&& s.containers[pid].drains_pending > 0 ==> done == s
            &&& s.containers[pid].drains_pending == 0 ==> !done.containers.contains_key(pid)
            &&& counted.containers[other] == s.containers[other]
            &&& counted.sessions == s.sessions && counted.outputs == s.outputs
                && counted.graveyard == s.graveyard
        }),
{
    let counted = s.drain_counted(pid);
    let done = counted.drain_done(pid);
    if s.containers[pid].drains_pending > 0 {
        assert(done.containers =~= s.containers);
        assert(done =~= s);
    }
}

/// The client of a run is told one of two things: that it started, with the
/// container's pid, or why it did not.
pub proof fn reply_tells_the_outcome(reply: RunReply, pid: i32, failure: Option<String>)
    requires
        reply.tells(pid, failure),
    ensures
        failure is None ==> (reply matches RunReply::Started(answer) && answer.ok && answer.pid
            == Some(pid) && answer.error is None),
        failure matches Some(why) ==> (reply matches RunReply::Refused(answer) && !answer.ok
            && answer.error == why),
{
}

/// A client is told by a datagram or by a frame, and by nothing else.
pub proof fn answers_are_sent(step: AnswerStep)
    ensures
        step is Datagram || step is Frame ==> step.is_answer(),
        step is RelayOutput || step is CloseSession ==> !step.is_answer(),
{
}

/// A log pipe that is already standard output or standard error stays open.
pub proof fn standard_log_pipe_stays_open(w: i32)
    ensures
        RunFlow::log_to_std(w)[0] == (ChildStep::Dup { from: w, to: 1i32 }),
        RunFlow::log_to_std(w)[1] == (ChildStep::Dup { from: w, to: 2i32 }),
        w == 1 || w == 2 ==> RunFlow::log_to_std(w).len() == 2,
        w != 1 && w != 2 ==> RunFlow::log_to_std(w).len() == 3 && RunFlow::log_to_std(w)[2] == (
        ChildStep::Close { fd: w }),
{
}

proof fn lemma_append_open(s: Seq<i32>, fd: i32)
    requires
        s.no_duplicates(),
        fd >= 0 ==> !s.contains(fd),
    ensures
        (s + daemon::if_open(fd)).no_duplicates(),
        forall|x: i32|
            #![trigger (s + daemon::if_open(fd)).contains(x)]
            (s + daemon::if_open(fd)).contains(x) <==> s.contains(x) || (fd >= 0 && x == fd),
{
    let all = s + daemon::if_open(fd);
    if fd < 0 {
        assert(all =~= s);
    } else {
        assert(all =~= s.push(fd));
        assert forall|x: i32| #![trigger all.contains(x)] all.contains(x) <==> s.contains(x) || x
            == fd by {
            if s.contains(x) {
                let k = choose|k: int| 0 <= k < s.len() && s[k] == x;
                assert(all[k] == x);
            }
            if x == fd {
                assert(all[s.len() as int] == x);
            }
            if all.contains(x) {
                let k = choose|k: int| 0 <= k < all.len() && all[k] == x;
                if k < s.len() {
                    assert(s[k] == x);
                }
            }
        }
    }
}

/// Whether two descriptors are different ones, or not open.
pub open spec fn apart(a: i32, b: i32) -> bool {
    a >= 0 ==> a != b
}

proof fn lemma_closed_in_turn(a: i32, b: i32, c: i32, d: i32, e: i32, f: i32)
    requires
        apart(a, b) && apart(a, c) && apart(a, d) && apart(a, e) && apart(a, f),
        apart(b, c) && apart(b, d) && apart(b, e) && apart(b, f),
        apart(c, d) && apart(c, e) && apart(c, f),
        apart(d, e) && apart(d, f) && apart(e, f),
    ensures
        daemon::if_open(a).no_duplicates(),
        (daemon::if_open(a) + daemon::if_open(b)).no_duplicates(),
        (daemon::if_open(a) + daemon::if_open(b) + daemon::if_open(c)).no_duplicates(),
        (daemon::if_open(a) + daemon::if_open(b) + daemon::if_open(c) + daemon::if_open(
            d,
        )).no_duplicates(),
        (daemon::if_open(a) + daemon::if_open(b) + daemon::if_open(c) + daemon::if_open(d)
            + daemon::if_open(e) + daemon::if_open(f)).no_duplicates(),
{
    let s1 = daemon::if_open(a);
    let s2 = s1 + daemon::if_open(b);
    let s3 = s2 + daemon::if_open(c);
    let s4 = s3 + daemon::if_open(d);
    let s5 = s4 + daemon::if_open(e);
    lemma_append_open(s1, b);
    lemma_append_open(s2, c);
    lemma_append_open(s3, d);
    lemma_append_open(s4, e);
    lemma_append_open(s5, f);
}

/// Whether the descriptors that `flow` has open are different ones.
pub open spec fn distinct_fds(flow: RunFlow) -> bool {
    let (r, w, m, s, l, k) = (
        flow.stdin.read,
        flow.stdin.write,
        flow.master,
        flow.slave,
        flow.log.read,
        flow.log.write,
    );
    &&& apart(r, w) && apart(r, m) && apart(r, s) && apart(r, l) && apart(r, k)
    &&& apart(w, m) && apart(w, s) && apart(w, l) && apart(w, k)
    &&& apart(m, s) && apart(m, l) && apart(m, k)
    &&& apart(s, l) && apart(s, k) && apart(l, k)
}

/// No descriptor is closed twice by one step of a run, nor by the two steps
/// after its child was cloned.
pub proof fn run_closes_each_once(flow: RunFlow, event: RunEvent, pid: i32)
    requires
        distinct_fds(flow),
    ensures
        flow.closes(event).no_duplicates(),
        (flow.closes(RunEvent::Cloned { pid }) + flow.after(RunEvent::Cloned { pid }).closes(
            RunEvent::MapsDone,
        )).no_duplicates(),
{
    let (r, w, m, s, l, k) = (
        flow.stdin.read,
        flow.stdin.write,
        flow.master,
        flow.slave,
        flow.log.read,
        flow.log.write,
    );
    lemma_closed_in_turn(s, m, l, k, r, w);
    lemma_closed_in_turn(l, k, s, m, r, w);
    lemma_closed_in_turn(l, k, r, w, m, s);
    lemma_closed_in_turn(l, w, m, k, r, s);
    lemma_closed_in_turn(k, s, r, w, m, l);
    lemma_closed_in_turn(m, k, s, r, w, l);
    lemma_closed_in_turn(s, k, m, r, w, l);
    let none = Seq::<i32>::empty();
    assert(flow.closed_on_clone() + none =~= flow.closed_on_clone());
}

} // verus!
