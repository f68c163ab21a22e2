//! The namespaces that a service runs in, and the steps that set them up.

use crate::svmgr::config::service::{BindMount, NamespaceSection};
use crate::text::{cat, cat4, join, joined, owned, str_eq, texts};
use vstd::prelude::*;

verus! {

/// Which namespaces are new.
#[derive(Debug, Clone, Copy, PartialEq, Eq, Structural)]
pub struct NamespaceFlags {
    pub pid: bool,
    pub mount: bool,
    pub net: bool,
    pub uts: bool,
    pub ipc: bool,
    pub user: bool,
    pub cgroup: bool,
}

impl NamespaceFlags {
    /// No namespace is new.
    pub fn empty() -> (r: Self)
        ensures
            r == none_new(),
    {
        NamespaceFlags {
            pid: false,
            mount: false,
            net: false,
            uts: false,
            ipc: false,
            user: false,
            cgroup: false,
        }
    }

    /// Whether no namespace is new.
    pub fn is_empty(&self) -> (r: bool)
        ensures
            r == (*self == none_new()),
    {
        !(self.pid || self.mount || self.net || self.uts || self.ipc || self.user || self.cgroup)
    }
}

/// No namespace is new.
pub open spec fn none_new() -> NamespaceFlags {
    NamespaceFlags {
        pid: false,
        mount: false,
        net: false,
        uts: false,
        ipc: false,
        user: false,
        cgroup: false,
    }
}

/// The namespaces that a list of names stands for. Names that stand for none
/// are passed over.
pub open spec fn flags_of(names: Seq<Seq<char>>) -> NamespaceFlags {
    NamespaceFlags {
        pid: names.contains("pid"@),
        mount: names.contains("mnt"@) || names.contains("mount"@),
        net: names.contains("net"@) || names.contains("network"@),
        uts: names.contains("uts"@),
        ipc: names.contains("ipc"@),
        user: names.contains("user"@),
        cgroup: names.contains("cgroup"@),
    }
}

/// The namespaces that a list of names stands for.
pub fn parse_namespace_flags(namespaces: &Vec<String>) -> (r: NamespaceFlags)
    ensures
        r == flags_of(texts(namespaces@)),
{
    let mut f = NamespaceFlags::empty();
    let ghost o = texts(namespaces@);
    proof {
        lemma_names();
    }
    let mut i: usize = 0;
    while i < namespaces.len()
        invariant
            i <= namespaces.len(),
            o == texts(namespaces@),
            names_differ(),
            f == flags_of(o.take(i as int)),
        decreases namespaces.len() - i,
    {
        let ns = namespaces[i].as_str();
        proof {
            assert(o.take(i + 1) =~= o.take(i as int).push(ns@));
            let p = o.take(i as int);
            vstd::seq_lib::lemma_seq_contains_after_push(p, ns@, "pid"@);
            vstd::seq_lib::lemma_seq_contains_after_push(p, ns@, "mnt"@);
            vstd::seq_lib::lemma_seq_contains_after_push(p, ns@, "mount"@);
            vstd::seq_lib::lemma_seq_contains_after_push(p, ns@, "net"@);
            vstd::seq_lib::lemma_seq_contains_after_push(p, ns@, "network"@);
            vstd::seq_lib::lemma_seq_contains_after_push(p, ns@, "uts"@);
            vstd::seq_lib::lemma_seq_contains_after_push(p, ns@, "ipc"@);
            vstd::seq_lib::lemma_seq_contains_after_push(p, ns@, "user"@);
            vstd::seq_lib::lemma_seq_contains_after_push(p, ns@, "cgroup"@);
        }
        if str_eq(ns, "pid") {
            f.pid = true;
        } else if str_eq(ns, "mnt") || str_eq(ns, "mount") {
            f.mount = true;
        } else if str_eq(ns, "net") || str_eq(ns, "network") {
            f.net = true;
        } else if str_eq(ns, "uts") {
            f.uts = true;
        } else if str_eq(ns, "ipc") {
            f.ipc = true;
        } else if str_eq(ns, "user") {
            f.user = true;
        } else if str_eq(ns, "cgroup") {
            f.cgroup = true;
        }
        i += 1;
    }
    assert(o.take(o.len() as int) =~= o);
    f
}

/// What tells the names of namespaces apart.
spec fn names_differ() -> bool {
    &&& "pid"@.len() == 3 && "pid"@[0] == 'p'
    &&& "mnt"@.len() == 3 && "mnt"@[0] == 'm'
    &&& "mount"@.len() == 5
    &&& "net"@.len() == 3 && "net"@[0] == 'n'
    &&& "network"@.len() == 7
    &&& "uts"@.len() == 3 && "uts"@[0] == 'u'
    &&& "ipc"@.len() == 3 && "ipc"@[0] == 'i'
    &&& "user"@.len() == 4
    &&& "cgroup"@.len() == 6
}

proof fn lemma_names()
    ensures
        names_differ(),
{
    reveal_strlit("pid");
    reveal_strlit("mnt");
    reveal_strlit("mount");
    reveal_strlit("net");
    reveal_strlit("network");
    reveal_strlit("uts");
    reveal_strlit("ipc");
    reveal_strlit("user");
    reveal_strlit("cgroup");
}

/// A step in setting up namespaces.
#[derive(Debug, Clone)]
pub enum NamespaceStep {
    /// Enter new namespaces.
    Unshare(NamespaceFlags),
    /// Keep all mounts to this namespace.
    MakePrivate,
    /// Make the root file system read-only.
    ReadOnlyRoot,
    /// Make a directory read-only, where it exists; failure does not matter.
    ReadOnlyTree(String),
    /// Put an empty file system on `/tmp`.
    PrivateTmp,
    /// Make `source` visible at `target`, which is created where it is not
    /// there.
    Bind { source: String, target: String },
    /// Make a bound directory read-only.
    BindReadOnly { target: String },
    /// Mount `/proc` anew.
    RemountProc,
}

/// A `NamespaceStep` over texts.
pub enum Step {
    Unshare(NamespaceFlags),
    MakePrivate,
    ReadOnlyRoot,
    ReadOnlyTree(Seq<char>),
    PrivateTmp,
    Bind(Seq<char>, Seq<char>),
    BindReadOnly(Seq<char>),
    RemountProc,
}

impl NamespaceStep {
    /// The step over texts.
    pub open spec fn step(self) -> Step {
        match self {
            NamespaceStep::Unshare(f) => Step::Unshare(f),
            NamespaceStep::MakePrivate => Step::MakePrivate,
            NamespaceStep::ReadOnlyRoot => Step::ReadOnlyRoot,
            NamespaceStep::ReadOnlyTree(t) => Step::ReadOnlyTree(t@),
            NamespaceStep::PrivateTmp => Step::PrivateTmp,
            NamespaceStep::Bind { source, target } => Step::Bind(source@, target@),
            NamespaceStep::BindReadOnly { target } => Step::BindReadOnly(target@),
            NamespaceStep::RemountProc => Step::RemountProc,
        }
    }
}

/// Why namespaces could not be set up.
#[derive(Debug)]
pub enum NamespaceError {
    /// The namespaces could not be entered, for the reason given.
    Unshare(String),
    /// What could not be mounted, and why.
    Mount(String, String),
    /// The directory that could not be made, and why.
    Mkdir(String, String),
}

impl NamespaceError {
    /// The error in words.
    pub open spec fn text(self) -> Seq<char> {
        match self {
            NamespaceError::Unshare(why) => "unshare failed: "@ + why@,
            NamespaceError::Mount(what, why) => "mount failed for "@ + what@ + ": "@ + why@,
            NamespaceError::Mkdir(path, why) => "mkdir failed for "@ + path@ + ": "@ + why@,
        }
    }

    /// The error in words.
    pub fn message(&self) -> (r: String)
        ensures
            r@ == self.text(),
    {
        match self {
            NamespaceError::Unshare(why) => cat("unshare failed: ", why.as_str()),
            NamespaceError::Mount(what, why) => cat4(
                "mount failed for ",
                what.as_str(),
                ": ",
                why.as_str(),
            ),
            NamespaceError::Mkdir(path, why) => cat4(
                "mkdir failed for ",
                path.as_str(),
                ": ",
                why.as_str(),
            ),
        }
    }
}

/// What a step mounts, as its error names it; nothing where its failure does
/// not count as one of mounting.
pub open spec fn mounted_by(step: Step) -> Option<Seq<char>> {
    match step {
        Step::Unshare(_) => None,
        Step::MakePrivate => Some("/"@),
        Step::ReadOnlyRoot => Some("/ (read-only)"@),
        Step::ReadOnlyTree(_) => None,
        Step::PrivateTmp => Some("/tmp"@),
        Step::Bind(_, target) => Some(target),
        Step::BindReadOnly(target) => Some(target + " (readonly)"@),
        Step::RemountProc => Some("/proc"@),
    }
}

/// What becomes of a step that the kernel refused. To make a directory
/// read-only is allowed to fail.
pub fn step_refused(step: &NamespaceStep, why: String) -> (r: Result<(), NamespaceError>)
    ensures
        match step.step() {
            Step::Unshare(_) => r == Err::<(), NamespaceError>(NamespaceError::Unshare(why)),
            Step::ReadOnlyTree(_) => r is Ok,
            other => (r matches Err(NamespaceError::Mount(what, w)) && Some(what@) == mounted_by(
                other,
            ) && w == why),
        },
{
    let what = match step {
        NamespaceStep::Unshare(_) => {
            return Err(NamespaceError::Unshare(why));
        },
        NamespaceStep::ReadOnlyTree(_) => {
            return Ok(());
        },
        NamespaceStep::MakePrivate => owned("/"),
        NamespaceStep::ReadOnlyRoot => owned("/ (read-only)"),
        NamespaceStep::PrivateTmp => owned("/tmp"),
        NamespaceStep::Bind { source: _, target } => owned(target.as_str()),
        NamespaceStep::BindReadOnly { target } => cat(target.as_str(), " (readonly)"),
        NamespaceStep::RemountProc => owned("/proc"),
    };
    Err(NamespaceError::Mount(what, why))
}

/// The error where the directory that something is to be mounted at could not
/// be made: it names the directory, and says why.
pub fn mkdir_refused(target: &str, why: String) -> (r: NamespaceError)
    ensures
        r matches NamespaceError::Mkdir(path, reason) && path@ == target@ && reason == why,
{
    NamespaceError::Mkdir(owned(target), why)
}

/// The steps over texts.
pub open spec fn steps(v: Seq<NamespaceStep>) -> Seq<Step> {
    v.map_values(|s: NamespaceStep| s.step())
}

/// The steps for a protected system.
pub open spec fn protect_steps(protect: Option<Seq<char>>) -> Seq<Step> {
    if protect == Some("strict"@) {
        seq![Step::ReadOnlyRoot]
    } else if protect == Some("full"@) {
        seq![Step::ReadOnlyTree("/usr"@), Step::ReadOnlyTree("/boot"@)]
    } else {
        Seq::empty()
    }
}

/// The steps for the first `n` bind mounts.
pub open spec fn bind_steps(v: Seq<BindMount>, n: nat) -> Seq<Step>
    decreases n,
{
    if n == 0 {
        Seq::empty()
    } else {
        let b = v[n - 1];
        let bind = seq![Step::Bind(b.source@, b.target@)];
        bind_steps(v, (n - 1) as nat) + if b.writable {
            bind
        } else {
            bind.push(Step::BindReadOnly(b.target@))
        }
    }
}

/// The steps inside a new mount namespace.
pub open spec fn mount_steps(config: NamespaceSection) -> Seq<Step> {
    let tmp: Seq<Step> = if config.private_tmp {
        seq![Step::PrivateTmp]
    } else {
        Seq::empty()
    };
    seq![Step::MakePrivate] + protect_steps(crate::text::opt_text(config.protect_system)) + tmp
        + bind_steps(config.bind_mounts@, config.bind_mounts@.len())
}

/// All steps of a section.
pub open spec fn all_steps(config: NamespaceSection) -> Seq<Step> {
    let f = flags_of(texts(config.enable@));
    if f == none_new() {
        Seq::empty()
    } else {
        let mounts = if f.mount {
            mount_steps(config)
        } else {
            Seq::empty()
        };
        let proc: Seq<Step> = if f.pid && f.mount {
            seq![Step::RemountProc]
        } else {
            Seq::empty()
        };
        seq![Step::Unshare(f)] + mounts + proc
    }
}

fn push_step(v: &mut Vec<NamespaceStep>, s: NamespaceStep)
    ensures
        steps(final(v)@) == steps(old(v)@).push(s.step()),
{
    v.push(s);
    assert(steps(v@) =~= steps(old(v)@).push(s.step()));
}

/// The steps inside a new mount namespace.
pub fn setup_mount_namespace(config: &NamespaceSection) -> (r: Vec<NamespaceStep>)
    ensures
        steps(r@) == mount_steps(*config),
{
    let mut r: Vec<NamespaceStep> = Vec::new();
    assert(steps(r@) =~= Seq::<Step>::empty());
    push_step(&mut r, NamespaceStep::MakePrivate);
    proof {
        reveal_strlit("strict");
        reveal_strlit("full");
        assert("strict"@.len() == 6 && "full"@.len() == 4);
    }
    if let Some(protect) = &config.protect_system {
        if str_eq(protect.as_str(), "strict") {
            push_step(&mut r, NamespaceStep::ReadOnlyRoot);
        } else if str_eq(protect.as_str(), "full") {
            push_step(&mut r, NamespaceStep::ReadOnlyTree(owned("/usr")));
            push_step(&mut r, NamespaceStep::ReadOnlyTree(owned("/boot")));
        }
    }
    if config.private_tmp {
        push_step(&mut r, NamespaceStep::PrivateTmp);
    }
    let ghost head = steps(r@);
    let n = config.bind_mounts.len();
    let mut i: usize = 0;
    assert(steps(r@) =~= head + bind_steps(config.bind_mounts@, 0));
    while i < n
        invariant
            i <= n,
            n == config.bind_mounts@.len(),
            steps(r@) == head + bind_steps(config.bind_mounts@, i as nat),
        decreases n - i,
    {
        let b = &config.bind_mounts[i];
        push_step(
            &mut r,
            NamespaceStep::Bind { source: b.source.clone(), target: b.target.clone() },
        );
        if !b.writable {
            push_step(&mut r, NamespaceStep::BindReadOnly { target: b.target.clone() });
        }
        assert(steps(r@) =~= head + bind_steps(config.bind_mounts@, (i + 1) as nat));
        i += 1;
    }
    assert(steps(r@) =~= mount_steps(*config));
    r
}

/// All steps of a section, in order.
pub fn apply_namespaces(config: &NamespaceSection) -> (r: Vec<NamespaceStep>)
    ensures
        steps(r@) == all_steps(*config),
{
    let flags = parse_namespace_flags(&config.enable);
    let mut r: Vec<NamespaceStep> = Vec::new();
    assert(steps(r@) =~= Seq::<Step>::empty());
    if flags.is_empty() {
        return r;
    }
    push_step(&mut r, NamespaceStep::Unshare(flags));
    if flags.mount {
        let mut mounts = setup_mount_namespace(config);
        let ghost a = r@;
        let ghost b = mounts@;
        r.append(&mut mounts);
        assert(steps(r@) =~= steps(a) + steps(b));
    }
    if flags.pid {
        if flags.mount {
            push_step(&mut r, NamespaceStep::RemountProc);
        }
    }
    assert(steps(r@) =~= all_steps(*config));
    r
}

/// The namespaces of a section in words.
pub fn describe_namespaces(config: &NamespaceSection) -> (r: String)
    ensures
        r@ == if config.enable@.len() == 0 {
            "none"@
        } else {
            joined(texts(config.enable@), ", "@)
        },
{
    if config.enable.is_empty() {
        return owned("none");
    }
    join(&config.enable, ", ")
}

/// New namespaces come first, and nothing is done where there is none.
pub proof fn unshare_comes_first(config: NamespaceSection)
    ensures
        all_steps(config).len() > 0 <==> flags_of(texts(config.enable@)) != none_new(),
        all_steps(config).len() > 0 ==> all_steps(config)[0] == Step::Unshare(
            flags_of(texts(config.enable@)),
        ),
{
}

/// Each name makes its own namespace new, in its short or its long form, and no
/// other.
pub proof fn names_stand_for_their_namespaces(names: Seq<Seq<char>>)
    ensures
        flags_of(names).pid <==> names.contains("pid"@),
        flags_of(names).mount <==> names.contains("mnt"@) || names.contains("mount"@),
        flags_of(names).net <==> names.contains("net"@) || names.contains("network"@),
        flags_of(names).uts <==> names.contains("uts"@),
        flags_of(names).ipc <==> names.contains("ipc"@),
        flags_of(names).user <==> names.contains("user"@),
        flags_of(names).cgroup <==> names.contains("cgroup"@),
{
}

proof fn lemma_bind_steps(v: Seq<BindMount>, n: nat, k: int)
    requires
        n <= v.len(),
        0 <= k < n,
    ensures
        bind_steps(v, n).contains(Step::Bind(v[k].source@, v[k].target@)),
        !v[k].writable ==> bind_steps(v, n).contains(Step::BindReadOnly(v[k].target@)),
    decreases n,
{
    let m = (n - 1) as nat;
    let rest = bind_steps(v, m);
    let all = bind_steps(v, n);
    let bind = Step::Bind(v[k].source@, v[k].target@);
    let only = Step::BindReadOnly(v[k].target@);
    if k < m {
        lemma_bind_steps(v, m, k);
        let i = choose|i: int| 0 <= i < rest.len() && rest[i] == bind;
        assert(all[i] == bind);
        if !v[k].writable {
            let j = choose|j: int| 0 <= j < rest.len() && rest[j] == only;
            assert(all[j] == only);
        }
    } else {
        assert(all[rest.len() as int] == bind);
        if !v[k].writable {
            assert(all[rest.len() as int + 1] == only);
        }
    }
}

/// Whether a step is among those of a section.
pub open spec fn takes_step(config: NamespaceSection, s: Step) -> bool {
    all_steps(config).contains(s)
}

/// Where a section makes the mount namespace new, everything that it asks for
/// there is done: the mounts are made private, the system is protected in the
/// way that is asked for, a private directory for temporary files is made, and
/// each bind mount is made, read-only unless it is writable.
pub proof fn mount_namespace_is_set_up_as_asked(config: NamespaceSection, k: int)
    requires
        texts(config.enable@).contains("mnt"@) || texts(config.enable@).contains("mount"@),
    ensures
        takes_step(config, Step::MakePrivate),
        config.private_tmp ==> takes_step(config, Step::PrivateTmp),
        crate::text::opt_text(config.protect_system) == Some("strict"@) ==> takes_step(
            config,
            Step::ReadOnlyRoot,
        ),
        crate::text::opt_text(config.protect_system) == Some("full"@) ==> takes_step(
            config,
            Step::ReadOnlyTree("/usr"@),
        ) && takes_step(config, Step::ReadOnlyTree("/boot"@)),
        0 <= k < config.bind_mounts@.len() ==> {
            let b = config.bind_mounts@[k];
            &&& takes_step(config, Step::Bind(b.source@, b.target@))
            &&& !b.writable ==> takes_step(config, Step::BindReadOnly(b.target@))
        },
        texts(config.enable@).contains("pid"@) ==> takes_step(config, Step::RemountProc),
{
    let f = flags_of(texts(config.enable@));
    assert(f.mount);
    let all = all_steps(config);
    let mounts = mount_steps(config);
    let protect = protect_steps(crate::text::opt_text(config.protect_system));
    let tmp: Seq<Step> = if config.private_tmp {
        seq![Step::PrivateTmp]
    } else {
        Seq::empty()
    };
    let binds = bind_steps(config.bind_mounts@, config.bind_mounts@.len());
    let p: int = protect.len() as int;
    let t: int = tmp.len() as int;
    assert(mounts =~= seq![Step::MakePrivate] + protect + tmp + binds);
    assert forall|i: int| 0 <= i < mounts.len() implies all[i + 1] == #[trigger] mounts[i] by {}
    assert(all[1] == mounts[0]);
    assert(mounts[0] == Step::MakePrivate);
    if config.private_tmp {
        assert(mounts[1 + p] == Step::PrivateTmp);
        assert(all[2 + p] == Step::PrivateTmp);
    }
    if p > 0 {
        assert(mounts[1] == protect[0]);
        assert(all[2] == protect[0]);
    }
    if p > 1 {
        assert(mounts[2] == protect[1]);
        assert(all[3] == protect[1]);
    }
    reveal_strlit("strict");
    reveal_strlit("full");
    assert("strict"@.len() == 6 && "full"@.len() == 4);
    if 0 <= k < config.bind_mounts@.len() {
        let b = config.bind_mounts@[k];
        lemma_bind_steps(config.bind_mounts@, config.bind_mounts@.len(), k);
        let bind = Step::Bind(b.source@, b.target@);
        let i = choose|i: int| 0 <= i < binds.len() && binds[i] == bind;
        assert(mounts[1 + p + t + i] == bind);
        assert(all[2 + p + t + i] == bind);
        if !b.writable {
            let only = Step::BindReadOnly(b.target@);
            let j = choose|j: int| 0 <= j < binds.len() && binds[j] == only;
            assert(mounts[1 + p + t + j] == only);
            assert(all[2 + p + t + j] == only);
        }
    }
    if f.pid {
        assert(all[1 + mounts.len() as int] == Step::RemountProc);
    }
}

/// Nothing is mounted where the mount namespace is not new.
pub proof fn nothing_is_mounted_without_a_mount_namespace(config: NamespaceSection, s: Step)
    requires
        !texts(config.enable@).contains("mnt"@),
        !texts(config.enable@).contains("mount"@),
        takes_step(config, s),
    ensures
        s is Unshare,
{
    let all = all_steps(config);
    let i = choose|i: int| 0 <= i < all.len() && all[i] == s;
}

} // verus!
