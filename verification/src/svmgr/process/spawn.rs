//! What a service process is started with.

use crate::names::NameMap;
use crate::svmgr::cgroup::limits::opt_str;
use crate::svmgr::config::service::{ReadinessType, ServiceDef};
use crate::svmgr::process::readiness::{notify_path, notify_socket_for};
use crate::text::num::{
    dec, dec_int, i64_text, number_is_made_of_digits, parse_nat, parsed_nat,
    written_number_is_read_back,
};
use crate::text::scan::{
    deep, is_digit, is_white, lemma_find_is, lines, lines_of, split_once, split_pair, stripped,
    trim, white_space_around_is_taken_off,
};
use crate::text::{cat, cat3, cat4, chars_of, clone_strings, owned, string_of, texts};
use vstd::prelude::*;

verus! {

/// The socket of the log daemon.
pub const LOG_SOCKET_PATH: &'static str = "/run/dynamod/log.sock";

/// A process that was started.
#[derive(Debug)]
pub struct SpawnedProcess {
    pub pid: i32,
    pub pidfd: Option<i32>,
    /// The end of the readiness pipe to read from.
    pub ready_fd: Option<i32>,
}

/// Why a process could not be started.
#[derive(Debug)]
pub enum SpawnError {
    /// There is no command.
    EmptyExec,
    /// No process could be forked, for the reason given.
    Fork(String),
    /// The program could not be run, for the reason given.
    Exec(String),
    /// A word of the command holds a zero character.
    InvalidPath(String),
    /// No process descriptor could be opened, for the reason given.
    PidfdOpen(String),
}

impl SpawnError {
    /// The error in words.
    pub open spec fn text(self) -> Seq<char> {
        match self {
            SpawnError::EmptyExec => "exec command is empty"@,
            SpawnError::Fork(why) => "fork failed: "@ + why@,
            SpawnError::Exec(why) => "exec failed: "@ + why@,
            SpawnError::InvalidPath(path) => "invalid path: "@ + path@,
            SpawnError::PidfdOpen(why) => "pidfd_open failed: "@ + why@,
        }
    }

    /// The error in words.
    pub fn message(&self) -> (r: String)
        ensures
            r@ == self.text(),
    {
        match self {
            SpawnError::EmptyExec => owned("exec command is empty"),
            SpawnError::Fork(why) => cat("fork failed: ", why.as_str()),
            SpawnError::Exec(why) => cat("exec failed: ", why.as_str()),
            SpawnError::InvalidPath(path) => cat("invalid path: ", path.as_str()),
            SpawnError::PidfdOpen(why) => cat("pidfd_open failed: ", why.as_str()),
        }
    }
}

/// What a process is started with.
#[derive(Debug)]
pub struct SpawnPlan {
    /// The program and its arguments.
    pub args: Vec<String>,
    /// The environment, each variable with its value.
    pub env: Vec<String>,
}

/// The values of an environment as texts.
pub open spec fn env_view(m: NameMap<String>) -> Map<Seq<char>, Seq<char>> {
    m@.map_values(|s: String| s@)
}

/// The environment with what one line of a file adds.
pub open spec fn with_line(env: Map<Seq<char>, Seq<char>>, line: Seq<char>) -> Map<
    Seq<char>,
    Seq<char>,
> {
    let t = stripped(line);
    if t.len() == 0 || t[0] == '#' {
        env
    } else {
        match split_pair(t, '=') {
            Some((k, v)) => env.insert(stripped(k), stripped(v)),
            None => env,
        }
    }
}

/// The environment with what the lines of a file add.
pub open spec fn with_lines(env: Map<Seq<char>, Seq<char>>, ls: Seq<Seq<char>>) -> Map<
    Seq<char>,
    Seq<char>,
>
    decreases ls.len(),
{
    if ls.len() == 0 {
        env
    } else {
        with_line(with_lines(env, ls.drop_last()), ls.last())
    }
}

/// The environment of a service, from what the service manager has, what its
/// file holds and where it writes that it is ready.
pub open spec fn environment(
    def: ServiceDef,
    inherited: Map<Seq<char>, Seq<char>>,
    file: Option<Seq<char>>,
    ready_fd: Option<i32>,
) -> Map<Seq<char>, Seq<char>> {
    let kind = def.readiness.readiness_type;
    let a = match file {
        Some(c) if def.service.environment_file is Some => with_lines(inherited, lines_of(c)),
        _ => inherited,
    };
    let b = a.union_prefer_right(env_view(def.service.environment));
    let c = match ready_fd {
        Some(fd) if kind == ReadinessType::Fd => b.insert(
            "DYNAMOD_READY_FD"@,
            dec_int(fd as int),
        ),
        _ => b,
    };
    if kind == ReadinessType::Notify {
        c.insert("NOTIFY_SOCKET"@, notify_path(def.service.name@))
    } else {
        c
    }
}

/// The variables in `order` with their values, save for those that hold a
/// zero character.
pub open spec fn entries(env: Map<Seq<char>, Seq<char>>, order: Seq<Seq<char>>) -> Seq<Seq<char>>
    decreases order.len(),
{
    if order.len() == 0 {
        Seq::empty()
    } else {
        let rest = entries(env, order.drop_last());
        let e = order.last() + "="@ + env[order.last()];
        if e.contains('\0') {
            rest
        } else {
            rest.push(e)
        }
    }
}

/// Whether `list` holds the variables of `env`, in some order.
pub open spec fn lists_environment(env: Map<Seq<char>, Seq<char>>, list: Seq<Seq<char>>) -> bool {
    exists|order: Seq<Seq<char>>|
        {
            &&& order.no_duplicates()
            &&& order.to_set() == env.dom()
            &&& list == #[trigger] entries(env, order)
        }
}

fn holds_zero(s: &str) -> (r: bool)
    ensures
        r == s@.contains('\0'),
{
    let c = chars_of(s);
    let mut i: usize = 0;
    while i < c.len()
        invariant
            i <= c.len(),
            c@ == s@,
            forall|k: int| 0 <= k < i ==> c@[k] != '\0',
        decreases c.len() - i,
    {
        if c[i] == '\0' {
            return true;
        }
        i += 1;
    }
    false
}

/// Adds what the lines of a file hold.
fn add_file(env: &mut NameMap<String>, content: &str)
    requires
        old(env).wf(),
    ensures
        final(env).wf(),
        env_view(*final(env)) == with_lines(env_view(*old(env)), lines_of(content@)),
{
    let c = chars_of(content);
    let ls = lines(&c);
    let ghost all = deep(ls@);
    let ghost start = env_view(*env);
    let mut i: usize = 0;
    while i < ls.len()
        invariant
            i <= ls.len(),
            all == deep(ls@),
            env.wf(),
            env_view(*env) == with_lines(start, all.take(i as int)),
        decreases ls.len() - i,
    {
        let t = trim(&ls[i]);
        let ghost before = env_view(*env);
        proof {
            assert(all.take(i + 1).drop_last() =~= all.take(i as int));
            assert(all.take(i + 1).last() == ls@[i as int]@);
        }
        if t.len() > 0 && t[0] != '#' {
            match split_once(t, '=') {
                Some((k, v)) => {
                    let key = string_of(trim(k));
                    let value = string_of(trim(v));
                    env.insert(key, value);
                    assert(env_view(*env) =~= before.insert(key@, value@));
                },
                None => {},
            }
        }
        i += 1;
    }
    assert(all.take(all.len() as int) =~= all);
}

/// Adds the variables that a definition sets.
fn add_inline(env: &mut NameMap<String>, inline: &NameMap<String>)
    requires
        old(env).wf(),
        inline.wf(),
    ensures
        final(env).wf(),
        env_view(*final(env)) == env_view(*old(env)).union_prefer_right(env_view(*inline)),
{
    let n = inline.len();
    let ghost o = inline.order();
    let ghost start = env_view(*env);
    let ghost add = env_view(*inline);
    proof {
        inline.lemma_order();
        assert(env_view(*env) =~= start.union_prefer_right(add.restrict(o.take(0).to_set())));
    }
    let mut i: usize = 0;
    while i < n
        invariant
            i <= n,
            n == o.len(),
            o == inline.order(),
            o.no_duplicates(),
            inline.wf(),
            env.wf(),
            add == env_view(*inline),
            env_view(*env) == start.union_prefer_right(add.restrict(o.take(i as int).to_set())),
        decreases n - i,
    {
        let k = inline.key_at(i);
        let v = inline.value_at(i);
        let ghost before = env_view(*env);
        env.insert(k.clone(), v.clone());
        proof {
            crate::svmgr::dependency::graph::lemma_prefix(o, i as int);
            assert(env_view(*env) =~= before.insert(k@, v@));
            assert(env_view(*env) =~= start.union_prefer_right(
                add.restrict(o.take(i + 1).to_set()),
            ));
        }
        i += 1;
    }
    proof {
        assert(o.take(n as int) =~= o);
        assert(add.restrict(o.to_set()) =~= add);
    }
}

/// Lists the variables of an environment.
fn list_env(env: &NameMap<String>) -> (r: Vec<String>)
    requires
        env.wf(),
    ensures
        texts(r@) == entries(env_view(*env), env.order()),
{
    let mut r: Vec<String> = Vec::new();
    let n = env.len();
    let ghost o = env.order();
    assert(texts(r@) =~= Seq::<Seq<char>>::empty());
    let mut i: usize = 0;
    while i < n
        invariant
            i <= n,
            n == o.len(),
            o == env.order(),
            env.wf(),
            texts(r@) == entries(env_view(*env), o.take(i as int)),
        decreases n - i,
    {
        let k = env.key_at(i);
        let v = env.value_at(i);
        let e = cat3(k.as_str(), "=", v.as_str());
        let ghost before = texts(r@);
        proof {
            assert(o.take(i + 1).drop_last() =~= o.take(i as int));
            assert(o.take(i + 1).last() == k@);
            assert(env_view(*env)[k@] == v@);
        }
        if !holds_zero(e.as_str()) {
            r.push(e);
            assert(texts(r@) =~= before.push(e@));
        }
        i += 1;
    }
    assert(o.take(n as int) =~= o);
    r
}

/// The first word of a command that holds a zero character.
pub open spec fn first_invalid(words: Seq<Seq<char>>) -> Option<Seq<char>>
    decreases words.len(),
{
    if words.len() == 0 {
        None
    } else if words[0].contains('\0') {
        Some(words[0])
    } else {
        first_invalid(words.drop_first())
    }
}

/// What the process of a service is started with, or why it is not.
pub open spec fn spawn_planned(
    def: ServiceDef,
    inherited: NameMap<String>,
    env_file: Option<&str>,
    ready_fd: Option<i32>,
    r: Result<SpawnPlan, SpawnError>,
) -> bool {
    match r {
        Ok(plan) => {
            &&& def.service.command@.len() > 0
            &&& first_invalid(texts(def.service.command@)) is None
            &&& plan.args@ == def.service.command@
            &&& lists_environment(
                environment(
                    def,
                    env_view(inherited),
                    opt_str(env_file),
                    ready_fd,
                ),
                texts(plan.env@),
            )
        },
        Err(SpawnError::EmptyExec) => def.service.command@.len() == 0,
        Err(SpawnError::InvalidPath(p)) => first_invalid(texts(def.service.command@)) == Some(
            p@,
        ),
        Err(_) => false,
    }
}

/// What the process of a service is started with: its command as it is, and
/// its environment.
pub fn prepare_spawn(
    def: &ServiceDef,
    inherited: NameMap<String>,
    env_file: Option<&str>,
    ready_fd: Option<i32>,
) -> (r: Result<SpawnPlan, SpawnError>)
    requires
        inherited.wf(),
        def.service.environment.wf(),
    ensures
        spawn_planned(*def, inherited, env_file, ready_fd, r),
{
    if def.service.command.is_empty() {
        return Err(SpawnError::EmptyExec);
    }
    let ghost words = texts(def.service.command@);
    let mut i: usize = 0;
    assert(words.skip(0) =~= words);
    while i < def.service.command.len()
        invariant
            i <= def.service.command.len(),
            words == texts(def.service.command@),
            first_invalid(words) == first_invalid(words.skip(i as int)),
        decreases def.service.command.len() - i,
    {
        assert(words.skip(i as int)[0] == def.service.command@[i as int]@);
        assert(words.skip(i as int).drop_first() =~= words.skip(i + 1));
        if holds_zero(def.service.command[i].as_str()) {
            return Err(SpawnError::InvalidPath(def.service.command[i].clone()));
        }
        i += 1;
    }
    let mut env = inherited;
    let ghost e0 = env_view(env);
    if def.service.environment_file.is_some() {
        if let Some(content) = env_file {
            add_file(&mut env, content);
        }
    }
    add_inline(&mut env, &def.service.environment);
    let kind = def.readiness.readiness_type;
    let ghost e1 = env_view(env);
    if kind == ReadinessType::Fd {
        if let Some(fd) = ready_fd {
            let text = i64_text(fd as i64);
            env.insert(owned("DYNAMOD_READY_FD"), text);
            assert(env_view(env) =~= e1.insert("DYNAMOD_READY_FD"@, dec_int(fd as int)));
        }
    }
    let ghost e2 = env_view(env);
    if kind == ReadinessType::Notify {
        env.insert(owned("NOTIFY_SOCKET"), notify_socket_for(def.service.name.as_str()));
        assert(env_view(env) =~= e2.insert("NOTIFY_SOCKET"@, notify_path(def.service.name@)));
    }
    let list = list_env(&env);
    proof {
        env.lemma_order();
        assert(env_view(env).dom() =~= env@.dom());
        assert(lists_environment(env_view(env), texts(list@)));
    }
    Ok(SpawnPlan { args: clone_strings(&def.service.command), env: list })
}

/// What of a line of output goes to the log daemon.
pub open spec fn line_logged(
    service: Seq<char>,
    line: Seq<char>,
    r: Option<String>,
) -> bool {
    match r {
        Some(m) => line.len() > 0 && m@ == service + "\t"@ + line,
        None => line.len() == 0,
    }
}

/// The datagram that carries a line of output to the log daemon. Empty lines
/// are dropped.
pub fn log_datagram(service_name: &str, line: &str) -> (r: Option<String>)
    ensures
        line_logged(service_name@, line@, r),
{
    let c = chars_of(line);
    if c.len() == 0 {
        None
    } else {
        Some(cat3(service_name, "\t", line))
    }
}

/// What a name was found to stand for in the user or group database.
#[derive(Debug)]
pub enum Lookup {
    /// An identity, and for a user the group that belongs to it.
    Found { id: u32, group: Option<u32> },
    /// Nothing.
    Missing,
    /// It could not be looked up, for the reason given.
    Failed(String),
}

/// The identity that a name states as a number.
pub open spec fn number_of(name: Seq<char>) -> Option<nat> {
    parsed_nat(name, u32::MAX as nat)
}

/// The identity that a name states as a number. Other names have to be looked
/// up.
pub fn numeric_id(name: &str) -> (r: Option<u32>)
    ensures
        match r {
            Some(n) => number_of(name@) == Some(n as nat),
            None => number_of(name@) is None,
        },
{
    let c = chars_of(name);
    match parse_nat(&c, u32::MAX as u64) {
        Some(n) => Some(n as u32),
        None => None,
    }
}

/// Which user a name stands for.
pub open spec fn user_resolved(
    name: Seq<char>,
    found: Lookup,
    r: Result<(u32, Option<u32>), String>,
) -> bool {
    match number_of(name) {
        Some(n) => r matches Ok((id, g)) && id == n && g is None,
        None => match found {
            Lookup::Found { id, group } => r matches Ok((i, g)) && i == id && g == group,
            Lookup::Missing => r matches Err(e) && e@ == "unknown user: "@ + name,
            Lookup::Failed(why) => r matches Err(e) && e@ == "user lookup failed for '"@ + name
                + "': "@ + why@,
        },
    }
}

/// The user that a name stands for, with the group that belongs to it, from
/// the number that it states or else from what was found for it.
pub fn resolve_user(name: &str, found: Lookup) -> (r: Result<(u32, Option<u32>), String>)
    ensures
        user_resolved(name@, found, r),
{
    if let Some(n) = numeric_id(name) {
        return Ok((n, None));
    }
    match found {
        Lookup::Found { id, group } => Ok((id, group)),
        Lookup::Missing => Err(cat("unknown user: ", name)),
        Lookup::Failed(why) => Err(cat4("user lookup failed for '", name, "': ", why.as_str())),
    }
}

/// Which group a name stands for.
pub open spec fn group_resolved(
    name: Seq<char>,
    found: Lookup,
    supplementary: bool,
    r: Result<u32, String>,
) -> bool {
    match number_of(name) {
        Some(n) => r matches Ok(id) && id == n,
        None => match found {
            Lookup::Found { id, .. } => r matches Ok(i) && i == id,
            Lookup::Missing => r matches Err(e) && e@ == if supplementary {
                "unknown supplementary group: "@ + name
            } else {
                "unknown group: "@ + name
            },
            Lookup::Failed(why) => r matches Err(e) && e@ == "group lookup failed for '"@ + name
                + "': "@ + why@,
        },
    }
}

/// The group that a name stands for, from the number that it states or else
/// from what was found for it.
pub fn resolve_group(name: &str, found: Lookup, supplementary: bool) -> (r: Result<u32, String>)
    ensures
        group_resolved(name@, found, supplementary, r),
{
    if let Some(n) = numeric_id(name) {
        return Ok(n);
    }
    match found {
        Lookup::Found { id, .. } => Ok(id),
        Lookup::Missing => if supplementary {
            Err(cat("unknown supplementary group: ", name))
        } else {
            Err(cat("unknown group: ", name))
        },
        Lookup::Failed(why) => Err(cat4("group lookup failed for '", name, "': ", why.as_str())),
    }
}

/// A step in giving up privileges.
#[derive(Debug, Clone, PartialEq, Eq)]
pub enum PrivilegeStep {
    SetGroups(Vec<u32>),
    SetGid(u32),
    SetUid(u32),
}

/// The group to run under: the one that is named, or else the user's.
pub open spec fn group_wanted(group: Option<u32>, user: Option<(u32, Option<u32>)>) -> Option<u32> {
    match group {
        Some(g) => Some(g),
        None => match user {
            Some((_, g)) => g,
            None => None,
        },
    }
}

/// Whether `v` gives up privileges in the only order that works: the
/// supplementary groups, where there are any, then the group, then the user.
pub open spec fn drops(
    v: Seq<PrivilegeStep>,
    supplementary: Seq<u32>,
    gid: Option<u32>,
    uid: Option<u32>,
) -> bool {
    let a: int = if supplementary.len() > 0 {
        1
    } else {
        0
    };
    let b: int = if gid is Some {
        a + 1
    } else {
        a
    };
    &&& v.len() == if uid is Some {
        b + 1
    } else {
        b
    }
    &&& a > 0 ==> (v[0] matches PrivilegeStep::SetGroups(g) && g@ == supplementary)
    &&& gid matches Some(g) ==> v[a] == PrivilegeStep::SetGid(g)
    &&& uid matches Some(u) ==> v[b] == PrivilegeStep::SetUid(u)
}

/// Which steps give up privileges.
pub open spec fn privileges_dropped(
    supplementary: Seq<u32>,
    group: Option<u32>,
    user: Option<(u32, Option<u32>)>,
    r: Seq<PrivilegeStep>,
) -> bool {
    drops(
                r,
                supplementary,
                group_wanted(group, user),
                match user {
                    Some((u, _)) => Some(u),
                    None => None,
                },
            )
}

/// The steps that give up privileges, once all names are resolved.
pub fn drop_privileges(
    supplementary: Vec<u32>,
    group: Option<u32>,
    user: Option<(u32, Option<u32>)>,
) -> (r: Vec<PrivilegeStep>)
    ensures
        privileges_dropped(supplementary@, group, user, r@),
{
    let mut r: Vec<PrivilegeStep> = Vec::new();
    if supplementary.len() > 0 {
        r.push(PrivilegeStep::SetGroups(supplementary));
    }
    let gid = match group {
        Some(g) => Some(g),
        None => match user {
            Some((_, g)) => g,
            None => None,
        },
    };
    if let Some(g) = gid {
        r.push(PrivilegeStep::SetGid(g));
    }
    if let Some((u, _)) = user {
        r.push(PrivilegeStep::SetUid(u));
    }
    r
}

/// The user is given up last: nothing is changed after it.
pub proof fn user_is_set_last(
    v: Seq<PrivilegeStep>,
    supplementary: Seq<u32>,
    gid: Option<u32>,
    uid: Option<u32>,
    i: int,
)
    requires
        drops(v, supplementary, gid, uid),
        0 <= i < v.len(),
        v[i] is SetUid,
    ensures
        i == v.len() - 1,
        uid == Some(v[i]->SetUid_0),
{
}

/// A process is started just where its command has a word and no word holds a
/// zero character; it runs that command, word for word.
pub proof fn command_is_run_as_defined(
    def: ServiceDef,
    inherited: NameMap<String>,
    file: Option<&str>,
    fd: Option<i32>,
    r: Result<SpawnPlan, SpawnError>,
    i: int,
)
    requires
        spawn_planned(def, inherited, file, fd, r),
    ensures
        r matches Ok(p) ==> p.args@ == def.service.command@,
        r is Ok ==> def.service.command@.len() > 0,
        r is Ok && 0 <= i < def.service.command@.len() ==> !def.service.command@[i]@.contains('\0'),
        r is Err && def.service.command@.len() > 0 ==> exists|j: int|
            0 <= j < def.service.command@.len() && (
            #[trigger] def.service.command@[j])@.contains('\0'),
{
    let words = texts(def.service.command@);
    lemma_first_invalid(words);
    if r is Ok && 0 <= i < words.len() {
        assert(words[i] == def.service.command@[i]@);
        assert(!words[i].contains('\0'));
    }
    if r is Err && words.len() > 0 {
        let j = choose|j: int| 0 <= j < words.len() && (#[trigger] words[j]).contains('\0');
        assert(def.service.command@[j]@ == words[j]);
    }
}

proof fn lemma_first_invalid(words: Seq<Seq<char>>)
    ensures
        first_invalid(words) is None <==> forall|i: int|
            0 <= i < words.len() ==> !(#[trigger] words[i]).contains('\0'),
    decreases words.len(),
{
    if words.len() > 0 {
        let t = words.drop_first();
        lemma_first_invalid(t);
        if !words[0].contains('\0') {
            if first_invalid(t) is None {
                assert forall|i: int| 0 <= i < words.len() implies !(
                #[trigger] words[i]).contains('\0') by {
                    if i > 0 {
                        assert(t[i - 1] == words[i]);
                    }
                }
            } else {
                let i = choose|i: int| 0 <= i < t.len() && (#[trigger] t[i]).contains('\0');
                assert(words[i + 1] == t[i]);
            }
        }
    }
}

proof fn lemma_entries(env: Map<Seq<char>, Seq<char>>, order: Seq<Seq<char>>, e: Seq<char>)
    ensures
        entries(env, order).contains(e) <==> !e.contains('\0') && exists|k: int|
            0 <= k < order.len() && e == #[trigger] order[k] + "="@ + env[order[k]],
    decreases order.len(),
{
    let v = entries(env, order);
    if order.len() > 0 {
        let front = order.drop_last();
        let w = entries(env, front);
        lemma_entries(env, front, e);
        let own = order.last() + "="@ + env[order.last()];
        if v.contains(e) {
            let i = choose|i: int| 0 <= i < v.len() && v[i] == e;
            if i < w.len() {
                assert(w[i] == e);
                assert(w.contains(e));
                let k = choose|k: int|
                    0 <= k < front.len() && e == #[trigger] front[k] + "="@ + env[front[k]];
                assert(order[k] == front[k]);
            } else {
                assert(order[order.len() - 1] == order.last());
            }
        }
        if !e.contains('\0') && exists|k: int|
            0 <= k < order.len() && e == #[trigger] order[k] + "="@ + env[order[k]] {
            let k = choose|k: int|
                0 <= k < order.len() && e == #[trigger] order[k] + "="@ + env[order[k]];
            if k < front.len() {
                assert(front[k] == order[k]);
                assert(w.contains(e));
                let i = choose|i: int| 0 <= i < w.len() && w[i] == e;
                assert(v[i] == e);
            } else {
                assert(own == e);
                assert(v.last() == e);
            }
        }
    }
}

/// A process gets a variable just as its environment holds it, with its value
/// behind an equals sign; but none that holds a zero character.
pub proof fn process_gets_its_environment(
    def: ServiceDef,
    inherited: NameMap<String>,
    file: Option<&str>,
    fd: Option<i32>,
    plan: SpawnPlan,
    name: Seq<char>,
    e: Seq<char>,
)
    requires
        spawn_planned(def, inherited, file, fd, Ok(plan)),
    ensures
        ({
            let env = environment(def, env_view(inherited), opt_str(file), fd);
            &&& env.contains_key(name) && !(name + "="@ + env[name]).contains('\0') ==> texts(
                plan.env@,
            ).contains(name + "="@ + env[name])
            &&& texts(plan.env@).contains(e) ==> exists|k: Seq<char>| #[trigger]
                env.contains_key(k) && e == k + "="@ + env[k]
        }),
{
    let env = environment(def, env_view(inherited), opt_str(file), fd);
    let list = texts(plan.env@);
    let order = choose|order: Seq<Seq<char>>|
        {
            &&& order.no_duplicates()
            &&& order.to_set() == env.dom()
            &&& list == #[trigger] entries(env, order)
        };
    if env.contains_key(name) {
        assert(order.to_set().contains(name));
        assert(order.contains(name));
        let k = choose|k: int| 0 <= k < order.len() && order[k] == name;
        lemma_entries(env, order, order[k] + "="@ + env[order[k]]);
    }
    if list.contains(e) {
        lemma_entries(env, order, e);
        let k = choose|k: int|
            0 <= k < order.len() && e == #[trigger] order[k] + "="@ + env[order[k]];
        assert(order.contains(order[k]));
        assert(order.to_set().contains(order[k]));
        assert(env.contains_key(order[k]));
    }
}

/// What the definition of a service sets in its environment stands there, over
/// what its file holds, and that over what the service manager has; and a
/// service that announces its readiness is told where to.
pub proof fn environment_goes_by_rank(
    def: ServiceDef,
    inherited: Map<Seq<char>, Seq<char>>,
    file: Option<Seq<char>>,
    fd: Option<i32>,
    k: Seq<char>,
)
    ensures
        ({
            let env = environment(def, inherited, file, fd);
            let set = env_view(def.service.environment);
            let kind = def.readiness.readiness_type;
            let special = (kind is Notify && k == "NOTIFY_SOCKET"@) || (kind is Fd && fd is Some
                && k == "DYNAMOD_READY_FD"@);
            &&& !special && set.contains_key(k) ==> env.contains_key(k) && env[k] == set[k]
            &&& !special && !set.contains_key(k) && def.service.environment_file is None
                && inherited.contains_key(k) ==> env.contains_key(k) && env[k] == inherited[k]
            &&& !special && !set.contains_key(k) && file is None && inherited.contains_key(k)
                ==> env.contains_key(k) && env[k] == inherited[k]
            &&& !special && !set.contains_key(k) && def.service.environment_file is Some && file
                is Some && with_lines(inherited, lines_of(file->0)).contains_key(k)
                ==> env.contains_key(k) && env[k] == with_lines(inherited, lines_of(file->0))[k]
            &&& kind is Notify ==> env.contains_key("NOTIFY_SOCKET"@) && env["NOTIFY_SOCKET"@]
                == "/run/dynamod/notify-"@ + def.service.name@ + ".sock"@
            &&& kind is Fd && fd is Some ==> env.contains_key("DYNAMOD_READY_FD"@)
                && env["DYNAMOD_READY_FD"@] == dec_int(fd->0 as int)
        }),
{
}

/// A line of an environment file with a name and a value sets just that, over
/// what was there; an empty line and a remark set nothing.
pub proof fn line_sets_its_variable(
    env: Map<Seq<char>, Seq<char>>,
    ls: Seq<Seq<char>>,
    k: Seq<char>,
    v: Seq<char>,
)
    requires
        k.len() > 0,
        !k.contains('='),
        k[0] != '#',
        !is_white(k[0]),
        !is_white(k.last()),
        v.len() > 0,
        !is_white(v[0]),
        !is_white(v.last()),
    ensures
        with_lines(env, ls.push(k.push('=') + v)) == with_lines(env, ls).insert(k, v),
        with_lines(env, ls.push(seq!['#'] + v)) == with_lines(env, ls),
        with_lines(env, ls.push(Seq::empty())) == with_lines(env, ls),
{
    let e = Seq::<char>::empty();
    let line = k.push('=') + v;
    white_space_around_is_taken_off(e, line, e);
    white_space_around_is_taken_off(e, k, e);
    white_space_around_is_taken_off(e, v, e);
    assert forall|j: int| 0 <= j < k.len() implies line[j] != '=' by {
        assert(k.contains(k[j]));
    }
    lemma_find_is(line, '=', k.len() as int);
    assert(line.take(k.len() as int) =~= k);
    assert(line.skip(k.len() as int + 1) =~= v);
    assert(ls.push(line).drop_last() =~= ls);
    let remark = seq!['#'] + v;
    white_space_around_is_taken_off(e, remark, e);
    assert(ls.push(remark).drop_last() =~= ls);
    assert(ls.push(e).drop_last() =~= ls);
    assert(stripped(e) =~= e);
}

/// A line of output goes to the log with the name of its service before it,
/// unless it is empty.
pub proof fn line_carries_its_service(service: Seq<char>, line: Seq<char>, r: Option<String>)
    requires
        line_logged(service, line, r),
    ensures
        r is Some <==> line.len() > 0,
        r is Some ==> r->0@ == service.push('\t') + line,
{
    reveal_strlit("\t");
    assert(service + "\t"@ =~= service.push('\t'));
}

/// A name that is a number is that user or group; another one is what was found
/// for it, and where nothing was found there is none.
pub proof fn names_are_numbers_or_looked_up(
    n: u32,
    name: Seq<char>,
    found: Lookup,
    supplementary: bool,
    u: Result<(u32, Option<u32>), String>,
    g: Result<u32, String>,
)
    requires
        user_resolved(name, found, u),
        group_resolved(name, found, supplementary, g),
    ensures
        name == dec(n as nat) ==> u is Ok && u->Ok_0.0 == n && u->Ok_0.1 is None && g is Ok
            && g->Ok_0 == n,
        name.len() > 0 && !is_digit(name[0]) && name[0] != '+' && found is Found ==> u is Ok
            && u->Ok_0.0 == found->id && u->Ok_0.1 == found->group && g is Ok && g->Ok_0
            == found->id,
        name.len() > 0 && !is_digit(name[0]) && name[0] != '+' && !(found is Found) ==> u is Err
            && g is Err,
{
    written_number_is_read_back(n as nat, u32::MAX as nat);
    if name.len() > 0 && !is_digit(name[0]) && name[0] != '+' {
        if parsed_nat(name, u32::MAX as nat) is Some {
            number_is_made_of_digits(name, u32::MAX as nat, 0);
        }
    }
}

/// Privileges are given up for the groups, the group and the user that are
/// asked for: the groups first, and the group of the user where none is named.
pub proof fn privileges_go_to_those_asked_for(
    supplementary: Seq<u32>,
    group: Option<u32>,
    user: Option<(u32, Option<u32>)>,
    r: Seq<PrivilegeStep>,
)
    requires
        privileges_dropped(supplementary, group, user, r),
    ensures
        user matches Some(u) ==> r.len() > 0 && r.last() == PrivilegeStep::SetUid(u.0),
        user is None && group is None && supplementary.len() == 0 ==> r.len() == 0,
        group matches Some(g) ==> r.contains(PrivilegeStep::SetGid(g)),
        group is None && user is Some && (user->0).1 is Some ==> r.contains(
            PrivilegeStep::SetGid((user->0).1->0),
        ),
        supplementary.len() > 0 ==> r.len() > 0 && r[0] is SetGroups && r[0]->SetGroups_0@
            == supplementary,
{
    let a: int = if supplementary.len() > 0 {
        1
    } else {
        0
    };
    if group is Some {
        assert(r[a] == PrivilegeStep::SetGid(group->0));
    } else if user is Some && (user->0).1 is Some {
        assert(r[a] == PrivilegeStep::SetGid((user->0).1->0));
    }
}

} // verus!
