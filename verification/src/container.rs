//! What a container's filesystem and id maps are made of.

use vstd::prelude::*;
use vstd::string::*;

use crate::cstring;
use crate::cstring::CString;
use crate::frame::append_bytes;
use crate::text;

verus! {

/// Make a directory visible at a second place.
pub const MS_BIND: u64 = 4096;

/// Apply to all mounts below.
pub const MS_REC: u64 = 16384;

/// Keep mount changes to this namespace.
pub const MS_PRIVATE: u64 = 262144;

/// `path` with `name` below it.
pub open spec fn joined_path(path: Seq<u8>, name: Seq<u8>) -> Seq<u8> {
    if path.len() > 0 && path.last() != 47 {
        path.push(47) + name
    } else {
        path + name
    }
}

/// `path` with the relative `name` below it, separated by one slash.
pub fn join_path(path: &[u8], name: &[u8]) -> (out: Vec<u8>)
    ensures
        out@ == joined_path(path@, name@),
{
    let mut out: Vec<u8> = crate::lines::copy_range(path, 0, path.len());
    assert(out@ =~= path@);
    if out.len() > 0 && out[out.len() - 1] != 47 {
        out.push(47);
    }
    append_bytes(&mut out, name);
    out
}

/// A step of setting up the container's root.
pub enum RootStep {
    /// Create this directory and those above it.
    CreateDirs { path: Vec<u8> },
    /// Create this empty file.
    CreateFile { path: Vec<u8> },
    Mount { source: Option<CString>, target: CString, fstype: Option<CString>, flags: u64 },
    Chdir { to: CString },
    Chroot { to: CString },
}

/// A step as the contracts speak of it.
#[verifier::ext_equal]
pub enum RootAction {
    CreateDirs(Seq<u8>),
    CreateFile(Seq<u8>),
    Mount(Option<Seq<u8>>, Seq<u8>, Option<Seq<u8>>, u64),
    Chdir(Seq<u8>),
    Chroot(Seq<u8>),
}

pub open spec fn bytes_of(c: Option<CString>) -> Option<Seq<u8>> {
    match c {
        Some(s) => Some(s@),
        None => None,
    }
}

impl View for RootStep {
    type V = RootAction;

    open spec fn view(&self) -> RootAction {
        match self {
            RootStep::CreateDirs { path } => RootAction::CreateDirs(path@),
            RootStep::CreateFile { path } => RootAction::CreateFile(path@),
            RootStep::Mount { source, target, fstype, flags } => RootAction::Mount(
                bytes_of(*source),
                target@,
                bytes_of(*fstype),
                *flags,
            ),
            RootStep::Chdir { to } => RootAction::Chdir(to@),
            RootStep::Chroot { to } => RootAction::Chroot(to@),
        }
    }
}

/// The host devices that a container sees.
pub open spec fn device(i: int) -> Seq<u8> {
    if i == 0 {
        "null".spec_bytes()
    } else if i == 1 {
        "zero".spec_bytes()
    } else if i == 2 {
        "random".spec_bytes()
    } else if i == 3 {
        "urandom".spec_bytes()
    } else if i == 4 {
        "full".spec_bytes()
    } else {
        "tty".spec_bytes()
    }
}

fn device_name(i: usize) -> (name: &'static str)
    requires
        i < 6,
    ensures
        name.spec_bytes() == device(i as int),
        cstring::nul_free(name.spec_bytes()),
{
    let name: &'static str = match i {
        0 => "null",
        1 => "zero",
        2 => "random",
        3 => "urandom",
        4 => "full",
        _ => "tty",
    };
    proof {
        reveal_strlit("null");
        reveal_strlit("zero");
        reveal_strlit("random");
        reveal_strlit("urandom");
        reveal_strlit("full");
        reveal_strlit("tty");
        lemma_plain_text(name);
    }
    name
}

/// Text of ASCII characters other than NUL encodes without a zero byte.
proof fn lemma_plain_text(s: &str)
    requires
        forall|i: int| 0 <= i < s@.len() ==> '\0' < #[trigger] s@[i] && s@[i] <= '\u{7f}',
    ensures
        cstring::nul_free(s.spec_bytes()),
{
    vstd::utf8::is_ascii_chars_encode_utf8(s@);
}

/// Bind-mounting device `i` into the directory `dev`.
pub open spec fn device_steps(dev: Seq<u8>, i: int) -> Seq<RootAction> {
    let at = joined_path(dev, device(i));
    seq![
        RootAction::CreateFile(at),
        RootAction::Mount(
            Some(joined_path("/dev".spec_bytes(), device(i))),
            at,
            None,
            MS_BIND,
        ),
    ]
}

/// Bind-mounting the first `n` devices.
pub open spec fn all_device_steps(dev: Seq<u8>, n: nat) -> Seq<RootAction>
    decreases n,
{
    if n == 0 {
        Seq::empty()
    } else {
        all_device_steps(dev, (n - 1) as nat) + device_steps(dev, n - 1)
    }
}

/// All steps of entering `rootfs`: keep mounts private, make the root a mount
/// point, bring in the devices, change root, mount proc.
pub open spec fn root_plan(rootfs: Seq<u8>) -> Seq<RootAction> {
    let dev = joined_path(rootfs, "dev".spec_bytes());
    let slash = "/".spec_bytes();
    seq![
        RootAction::Mount(None, slash, None, MS_REC | MS_PRIVATE),
        RootAction::Mount(Some(rootfs), rootfs, None, MS_BIND | MS_REC),
        RootAction::CreateDirs(dev),
    ] + all_device_steps(dev, 6) + seq![
        RootAction::Chdir(rootfs),
        RootAction::Chroot(".".spec_bytes()),
        RootAction::Chdir(slash),
        RootAction::Mount(
            Some("proc".spec_bytes()),
            "/proc".spec_bytes(),
            Some("proc".spec_bytes()),
            0,
        ),
    ]
}

pub open spec fn actions(steps: Seq<RootStep>) -> Seq<RootAction> {
    steps.map_values(|s: RootStep| s@)
}

fn push_step(steps: &mut Vec<RootStep>, step: RootStep)
    ensures
        actions(final(steps)@) == actions(old(steps)@).push(step@),
{
    steps.push(step);
    assert(actions(steps@) =~= actions(old(steps)@).push(step@));
}

/// The steps of entering the root filesystem `rootfs`.
pub fn root_steps(rootfs: &[u8]) -> (steps: Vec<RootStep>)
    requires
        cstring::nul_free(rootfs@),
    ensures
        actions(steps@) == root_plan(rootfs@),
{
    proof {
        reveal_strlit("/");
        reveal_strlit(".");
        reveal_strlit("dev");
        reveal_strlit("/dev");
        reveal_strlit("proc");
        reveal_strlit("/proc");
        lemma_plain_text("/");
        lemma_plain_text(".");
        lemma_plain_text("dev");
        lemma_plain_text("/dev");
        lemma_plain_text("proc");
        lemma_plain_text("/proc");
    }
    let mut steps: Vec<RootStep> = Vec::new();
    push_step(
        &mut steps,
        RootStep::Mount {
            source: None,
            target: CString::of("/"),
            fstype: None,
            flags: MS_REC | MS_PRIVATE,
        },
    );
    push_step(
        &mut steps,
        RootStep::Mount {
            source: Some(CString::plain(rootfs)),
            target: CString::plain(rootfs),
            fstype: None,
            flags: MS_BIND | MS_REC,
        },
    );
    let dev: Vec<u8> = join_path(rootfs, "dev".as_bytes());
    let dir: Vec<u8> = join_path(rootfs, "dev".as_bytes());
    push_step(&mut steps, RootStep::CreateDirs { path: dir });
    let ghost head = actions(steps@);
    let mut i: usize = 0;
    assert(head + all_device_steps(dev@, 0) =~= head);
    assert(cstring::nul_free(dev@));
    while i < 6
        invariant
            i <= 6,
            cstring::nul_free(dev@),
            cstring::nul_free("/dev".spec_bytes()),
            actions(steps@) == head + all_device_steps(dev@, i as nat),
        decreases 6 - i,
    {
        let name: &str = device_name(i);
        let at: Vec<u8> = join_path(dev.as_slice(), name.as_bytes());
        let src: Vec<u8> = join_path("/dev".as_bytes(), name.as_bytes());
        let target: CString = CString::plain(at.as_slice());
        let source: CString = CString::plain(src.as_slice());
        let ghost before = actions(steps@);
        push_step(&mut steps, RootStep::CreateFile { path: at });
        push_step(
            &mut steps,
            RootStep::Mount { source: Some(source), target, fstype: None, flags: MS_BIND },
        );
        assert(actions(steps@) =~= before + device_steps(dev@, i as int));
        i = i + 1;
        assert(actions(steps@) =~= head + all_device_steps(dev@, i as nat));
    }
    push_step(&mut steps, RootStep::Chdir { to: CString::plain(rootfs) });
    push_step(&mut steps, RootStep::Chroot { to: CString::of(".") });
    push_step(&mut steps, RootStep::Chdir { to: CString::of("/") });
    push_step(
        &mut steps,
        RootStep::Mount {
            source: Some(CString::of("proc")),
            target: CString::of("/proc"),
            fstype: Some(CString::of("proc")),
            flags: 0,
        },
    );
    assert(actions(steps@) =~= root_plan(rootfs@));
    steps
}

/// The directories of an overlay.
pub struct OverlayDirs {
    pub upper: Vec<u8>,
    pub work: Vec<u8>,
    pub merged: Vec<u8>,
}

/// The directories of the overlay kept in `dir`.
pub fn overlay_dirs(dir: &[u8]) -> (dirs: OverlayDirs)
    ensures
        dirs.upper@ == joined_path(dir@, "upper".spec_bytes()),
        dirs.work@ == joined_path(dir@, "work".spec_bytes()),
        dirs.merged@ == joined_path(dir@, "merged".spec_bytes()),
{
    OverlayDirs {
        upper: join_path(dir, "upper".as_bytes()),
        work: join_path(dir, "work".as_bytes()),
        merged: join_path(dir, "merged".as_bytes()),
    }
}

/// The mount options of an overlay.
pub fn overlay_options(rootfs: &str, upper: &str, work: &str) -> (opts: String)
    ensures
        opts@ == "lowerdir="@ + rootfs@ + ",upperdir="@ + upper@ + ",workdir="@ + work@,
{
    let mut opts: String = "lowerdir=".to_owned();
    opts.append(rootfs);
    opts.append(",upperdir=");
    opts.append(upper);
    opts.append(",workdir=");
    opts.append(work);
    opts
}

/// The name of the `seq`-th overlay directory of process `pid`.
pub fn overlay_name(pid: u32, seq: u64) -> (name: String)
    ensures
        name@ == "conrt."@ + text::decimal(pid as nat) + "."@ + text::decimal(seq as nat),
{
    let mut name: String = "conrt.".to_owned();
    text::push_decimal(&mut name, pid as u64);
    name.append(".");
    text::push_decimal(&mut name, seq);
    name
}

/// The path of `file` of process `pid`.
pub fn proc_path(pid: i32, file: &str) -> (path: String)
    ensures
        path@ == "/proc/"@ + text::signed_decimal(pid as int) + "/"@ + file@,
{
    let mut path: String = "/proc/".to_owned();
    text::push_signed(&mut path, pid);
    path.append("/");
    path.append(file);
    path
}

/// The id map that makes `id` root inside a user namespace.
pub fn id_map(id: u32) -> (line: String)
    ensures
        line@ == "0 "@ + text::decimal(id as nat) + " 1\n"@,
{
    let mut line: String = "0 ".to_owned();
    text::push_decimal(&mut line, id as u64);
    line.append(" 1\n");
    line
}

/// One file to write when a user namespace is set up.
pub struct MapWrite {
    pub path: String,
    pub text: String,
    /// Whether failing to write it fails the run.
    pub required: bool,
}

/// What to write, in order, so that `uid` and `gid` are root in the user
/// namespace of process `pid`. Old kernels lack the first file.
pub fn userns_map_writes(pid: i32, uid: u32, gid: u32) -> (writes: Vec<MapWrite>)
    ensures
        writes@.len() == 3,
        writes@[0].path@ == "/proc/"@ + text::signed_decimal(pid as int) + "/"@ + "setgroups"@,
        writes@[0].text@ == "deny\n"@,
        !writes@[0].required,
        writes@[1].path@ == "/proc/"@ + text::signed_decimal(pid as int) + "/"@ + "uid_map"@,
        writes@[1].text@ == "0 "@ + text::decimal(uid as nat) + " 1\n"@,
        writes@[1].required,
        writes@[2].path@ == "/proc/"@ + text::signed_decimal(pid as int) + "/"@ + "gid_map"@,
        writes@[2].text@ == "0 "@ + text::decimal(gid as nat) + " 1\n"@,
        writes@[2].required,
{
    let mut writes: Vec<MapWrite> = Vec::new();
    writes.push(
        MapWrite {
            path: proc_path(pid, "setgroups"),
            text: "deny\n".to_owned(),
            required: false,
        },
    );
    writes.push(
        MapWrite { path: proc_path(pid, "uid_map"), text: id_map(uid), required: true },
    );
    writes.push(
        MapWrite { path: proc_path(pid, "gid_map"), text: id_map(gid), required: true },
    );
    writes
}

/// The message when a required map could not be written because of `why`.
pub fn map_failure(why: &str) -> (msg: String)
    ensures
        msg@ == "uid_map write failed: "@ + why@,
{
    let mut msg: String = "uid_map write failed: ".to_owned();
    msg.append(why);
    msg
}

/// Everything that the container sees comes after the mounts were made
/// private. The root is changed only once its devices are in place, to the
/// directory that was entered just before.
pub proof fn mounts_are_private_before_anything_else(rootfs: Seq<u8>)
    ensures
        root_plan(rootfs).len() == 19,
        root_plan(rootfs)[0] == RootAction::Mount(
            None,
            "/".spec_bytes(),
            None,
            MS_REC | MS_PRIVATE,
        ),
        root_plan(rootfs)[15] == RootAction::Chdir(rootfs),
        root_plan(rootfs)[16] == RootAction::Chroot(".".spec_bytes()),
        forall|i: int|
            0 <= i < 16 ==> !(#[trigger] root_plan(rootfs)[i] is Chroot),
{
    let dev = joined_path(rootfs, "dev".spec_bytes());
    lemma_device_steps(dev, 6);
    assert forall|i: int| 0 <= i < 16 implies !(#[trigger] root_plan(rootfs)[i] is Chroot) by {
        if 3 <= i < 15 {
            assert(root_plan(rootfs)[i] == all_device_steps(dev, 6)[i - 3]);
        }
    }
}

proof fn lemma_device_steps(dev: Seq<u8>, n: nat)
    ensures
        all_device_steps(dev, n).len() == 2 * n,
        forall|i: int|
            0 <= i < 2 * n ==> !(#[trigger] all_device_steps(dev, n)[i] is Chroot),
    decreases n,
{
    if n > 0 {
        lemma_device_steps(dev, (n - 1) as nat);
        let before = all_device_steps(dev, (n - 1) as nat);
        assert forall|i: int| 0 <= i < 2 * n implies !(#[trigger] all_device_steps(
            dev,
            n,
        )[i] is Chroot) by {
            if i < before.len() {
                assert(all_device_steps(dev, n)[i] == before[i]);
            }
        }
    }
}

/// The bytes of plain text are its characters.
pub proof fn lemma_plain_bytes(s: &str)
    requires
        forall|i: int| 0 <= i < s@.len() ==> '\0' < #[trigger] s@[i] && s@[i] <= '\u{7f}',
    ensures
        s.spec_bytes().len() == s@.len(),
        forall|i: int| 0 <= i < s@.len() ==> #[trigger] s.spec_bytes()[i] == s@[i] as u8,
{
    vstd::utf8::is_ascii_chars_encode_utf8(s@);
}

/// Joining puts exactly one slash between a path and a name: none is added
/// behind a path that ends in one, nor behind an empty path. Neither part
/// changes.
pub proof fn join_keeps_both_parts(path: Seq<u8>, name: Seq<u8>)
    ensures
        path.is_prefix_of(joined_path(path, name)),
        name.is_suffix_of(joined_path(path, name)),
        path.len() > 0 && path.last() != 47 ==> joined_path(path, name) == path + seq![47u8]
            + name,
        path.len() == 0 ==> joined_path(path, name) == name,
        path.len() > 0 && path.last() == 47 ==> joined_path(path, name).len() == path.len()
            + name.len(),
{
    assert(path.push(47) =~= path + seq![47u8]);
    assert(path.push(47) + name =~= path + seq![47u8] + name);
    let out = joined_path(path, name);
    assert(out.subrange(0, path.len() as int) =~= path);
    assert(out.subrange(out.len() - name.len(), out.len() as int) =~= name);
}

/// Whether `name` is one of the devices that every container sees.
pub open spec fn is_device_name(name: Seq<u8>) -> bool {
    ||| name == "null".spec_bytes()
    ||| name == "zero".spec_bytes()
    ||| name == "random".spec_bytes()
    ||| name == "urandom".spec_bytes()
    ||| name == "full".spec_bytes()
    ||| name == "tty".spec_bytes()
}

/// Whether step `k` of `plan` creates the file `at` and the step after it, still
/// before the root is changed, binds `source` there.
pub open spec fn binds_at(
    plan: Seq<RootAction>,
    k: int,
    source: Seq<u8>,
    at: Seq<u8>,
) -> bool {
    &&& 0 <= k
    &&& k + 1 < plan.len()
    &&& forall|j: int| 0 <= j <= k + 1 ==> !(#[trigger] plan[j] is Chroot)
    &&& plan[k] == RootAction::CreateFile(at)
    &&& plan[k + 1] == RootAction::Mount(Some(source), at, None, 4096)
}

/// Each of the six devices appears in the container as itself: the host's
/// `/dev/<name>` is bound at `<rootfs>/dev/<name>`, in a file created just
/// before, and all that before the root is changed.
pub proof fn every_device_is_its_own(rootfs: Seq<u8>, name: Seq<u8>)
    requires
        is_device_name(name),
    ensures
        rootfs.len() > 0 && rootfs.last() != 47 ==> exists|k: int|
            #[trigger] binds_at(
                root_plan(rootfs),
                k,
                "/dev/".spec_bytes() + name,
                rootfs + "/dev/".spec_bytes() + name,
            ),
        rootfs.len() == 0 || rootfs.last() == 47 ==> exists|k: int|
            #[trigger] binds_at(
                root_plan(rootfs),
                k,
                "/dev/".spec_bytes() + name,
                rootfs + "dev/".spec_bytes() + name,
            ),
{
    reveal_strlit("dev");
    reveal_strlit("/dev");
    reveal_strlit("dev/");
    reveal_strlit("/dev/");
    lemma_plain_bytes("dev");
    lemma_plain_bytes("/dev");
    lemma_plain_bytes("dev/");
    lemma_plain_bytes("/dev/");
    let plan = root_plan(rootfs);
    let dev = joined_path(rootfs, "dev".spec_bytes());
    let i: int = if name == "null".spec_bytes() {
        0
    } else if name == "zero".spec_bytes() {
        1
    } else if name == "random".spec_bytes() {
        2
    } else if name == "urandom".spec_bytes() {
        3
    } else if name == "full".spec_bytes() {
        4
    } else {
        5
    };
    assert(device(i) == name);
    lemma_device_steps(dev, 6);
    lemma_device_at(dev, 6, i);
    mounts_are_private_before_anything_else(rootfs);
    let k = 3 + 2 * i;
    assert(plan[k] == all_device_steps(dev, 6)[2 * i]);
    assert(plan[k + 1] == all_device_steps(dev, 6)[2 * i + 1]);
    let source = "/dev/".spec_bytes() + name;
    assert(joined_path("/dev".spec_bytes(), name) =~= source);
    if rootfs.len() > 0 && rootfs.last() != 47 {
        let at = rootfs + "/dev/".spec_bytes() + name;
        assert(joined_path(dev, name) =~= at);
        assert(binds_at(plan, k, source, at));
    } else {
        let at = rootfs + "dev/".spec_bytes() + name;
        assert(joined_path(dev, name) =~= at);
        assert(binds_at(plan, k, source, at));
    }
}

proof fn lemma_device_at(dev: Seq<u8>, n: nat, i: int)
    requires
        0 <= i < n,
    ensures
        all_device_steps(dev, n)[2 * i] == device_steps(dev, i)[0],
        all_device_steps(dev, n)[2 * i + 1] == device_steps(dev, i)[1],
    decreases n,
{
    let before = all_device_steps(dev, (n - 1) as nat);
    lemma_device_steps(dev, (n - 1) as nat);
    if i < n - 1 {
        lemma_device_at(dev, (n - 1) as nat, i);
    }
}

/// The root becomes a mount point of its own before anything is put below it,
/// its device directory exists before the first device file, and the last step
/// mounts proc at `/proc` inside the new root, which is then the working
/// directory.
pub proof fn root_is_complete(rootfs: Seq<u8>)
    ensures
        ({
            let plan = root_plan(rootfs);
            &&& plan.len() == 19
            &&& plan[0] == RootAction::Mount(None, "/".spec_bytes(), None, 16384u64 | 262144u64)
            &&& plan[1] == RootAction::Mount(Some(rootfs), rootfs, None, 4096u64 | 16384u64)
            &&& plan[2] matches RootAction::CreateDirs(dev) && forall|j: int|
                0 <= j < plan.len() && #[trigger] plan[j] is CreateFile ==> j > 2
                    && dev.is_prefix_of(plan[j]->CreateFile_0)
            &&& plan[17] == RootAction::Chdir("/".spec_bytes())
            &&& plan[18] == RootAction::Mount(
                Some("proc".spec_bytes()),
                "/proc".spec_bytes(),
                Some("proc".spec_bytes()),
                0,
            )
        }),
{
    let plan = root_plan(rootfs);
    let dev = joined_path(rootfs, "dev".spec_bytes());
    lemma_device_steps(dev, 6);
    assert forall|j: int| 0 <= j < plan.len() && #[trigger] plan[j] is CreateFile implies j > 2
        && dev.is_prefix_of(plan[j]->CreateFile_0) by {
        if 3 <= j < 15 {
            let i = (j - 3) / 2;
            lemma_device_at(dev, 6, i);
            assert(plan[j] == all_device_steps(dev, 6)[j - 3]);
            assert(j - 3 == 2 * i || j - 3 == 2 * i + 1);
            join_keeps_both_parts(dev, device(i));
        }
    }
}

/// The steps read as what they do: each in its place, with its own paths, file
/// system and flags.
pub proof fn steps_read_as_actions(
    steps: Seq<RootStep>,
    i: int,
    source: CString,
    target: CString,
    flags: u64,
)
    requires
        0 <= i < steps.len(),
    ensures
        actions(steps).len() == steps.len(),
        actions(steps)[i] == steps[i]@,
        (RootStep::Mount { source: Some(source), target, fstype: None, flags })@
            == RootAction::Mount(Some(source@), target@, None, flags),
        (RootStep::Mount { source: None, target, fstype: Some(source), flags })@
            == RootAction::Mount(None, target@, Some(source@), flags),
        (RootStep::Chdir { to: target })@ == RootAction::Chdir(target@),
        (RootStep::Chroot { to: target })@ == RootAction::Chroot(target@),
{
}

} // verus!
