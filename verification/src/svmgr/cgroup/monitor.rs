//! What happens in the cgroups of services.

use crate::names::NameMap;
use crate::svmgr::cgroup::limits::{
    as_nat, field_in, number_in, opt_str, read_stat_field, read_u64,
};
use crate::text::num::{dec, parsed_nat, written_number_is_read_back};
use crate::text::scan::{lines_of, stripped, trim, white_space_around_is_taken_off};
use crate::text::{chars_of, opt_text, owned, same};
use vstd::prelude::*;

verus! {

/// Something that happened in the cgroup of a service.
#[derive(Debug, Clone)]
pub enum CgroupEvent {
    /// Processes were killed because memory ran out.
    OomKill { service_name: String, count: u64 },
    /// More memory is used than there should be.
    MemoryHigh { service_name: String, current_bytes: u64 },
}

/// A `CgroupEvent` over texts.
pub enum Happening {
    OomKill(Seq<char>, nat),
    MemoryHigh(Seq<char>, nat),
}

impl CgroupEvent {
    /// The event over texts.
    pub open spec fn happening(self) -> Happening {
        match self {
            CgroupEvent::OomKill { service_name, count } => {
                Happening::OomKill(service_name@, count as nat)
            },
            CgroupEvent::MemoryHigh { service_name, current_bytes } => {
                Happening::MemoryHigh(service_name@, current_bytes as nat)
            },
        }
    }
}

/// The events over texts.
pub open spec fn happenings(v: Seq<CgroupEvent>) -> Seq<Happening> {
    v.map_values(|e: CgroupEvent| e.happening())
}

/// The contents of the files of a cgroup, as far as they could be read.
#[derive(Debug, Clone)]
pub struct CgroupReading {
    pub memory_events: Option<String>,
    pub memory_current: Option<String>,
    pub memory_high: Option<String>,
}

/// A cgroup that is watched.
#[derive(Debug, Clone)]
pub struct Watch {
    pub path: String,
    /// The kills that are known.
    pub last_oom: u64,
}

/// The cgroups that are watched.
#[derive(Debug)]
pub struct CgroupMonitor {
    watched: NameMap<Watch>,
}

/// The kills that `memory.events` tells of.
pub open spec fn oom_kills(content: Option<Seq<char>>) -> nat {
    match content {
        Some(c) => match field_in(lines_of(c), "oom_kill "@) {
            Some(n) => n,
            None => 0,
        },
        None => 0,
    }
}

/// The limit in `memory.high`, where there is one.
pub open spec fn high_mark(content: Option<Seq<char>>) -> Option<nat> {
    match content {
        Some(c) => if stripped(c) == "max"@ {
            None
        } else {
            parsed_nat(stripped(c), u64::MAX as nat)
        },
        None => None,
    }
}

/// What a reading tells of a service of which `last` kills are known.
pub open spec fn told(name: Seq<char>, last: nat, reading: CgroupReading) -> Seq<Happening> {
    let oom = oom_kills(opt_text(reading.memory_events));
    let kills: Seq<Happening> = if oom > last {
        seq![Happening::OomKill(name, (oom - last) as nat)]
    } else {
        Seq::empty()
    };
    let pressure: Seq<Happening> = match (
        number_in(opt_text(reading.memory_current)),
        high_mark(opt_text(reading.memory_high)),
    ) {
        (Some(current), Some(high)) => if current > high {
            seq![Happening::MemoryHigh(name, current)]
        } else {
            Seq::empty()
        },
        _ => Seq::empty(),
    };
    kills + pressure
}

/// What the first `n` readings tell of the services in `order`.
pub open spec fn all_told(
    order: Seq<Seq<char>>,
    watched: Map<Seq<char>, Watch>,
    readings: Seq<CgroupReading>,
    n: nat,
) -> Seq<Happening>
    decreases n,
{
    if n == 0 {
        Seq::empty()
    } else {
        let k = (n - 1) as nat;
        all_told(order, watched, readings, k) + told(
            order[k as int],
            watched[order[k as int]].last_oom as nat,
            readings[k as int],
        )
    }
}

/// Reads the kills that `memory.events` tells of.
pub fn read_oom_kill_count(content: Option<&str>) -> (r: u64)
    ensures
        r == oom_kills(opt_str(content)),
{
    match read_stat_field(content, "oom_kill ") {
        Some(n) => n,
        None => 0,
    }
}

/// Reads the limit in `memory.high`.
pub fn read_memory_high(content: Option<&str>) -> (r: Option<u64>)
    ensures
        as_nat(r) == high_mark(opt_str(content)),
{
    match content {
        Some(c) => {
            let v = chars_of(c);
            let t = trim(&v);
            let max = chars_of("max");
            if same(t, &max) {
                None
            } else {
                crate::text::num::parse_nat(t, u64::MAX)
            }
        },
        None => None,
    }
}

fn as_str(s: &Option<String>) -> (r: Option<&str>)
    ensures
        opt_str(r) == opt_text(*s),
{
    match s {
        Some(t) => Some(t.as_str()),
        None => None,
    }
}

/// Whether `post` is `pre` with `name` watched, and all else as it was.
pub open spec fn watch_added(pre: CgroupMonitor, name: Seq<char>, post: CgroupMonitor) -> bool {
    &&& post.watches().dom() == pre.watches().dom().insert(name)
    &&& forall|k: Seq<char>| pre.watches().contains_key(k) && k != name
        ==> #[trigger] post.watches()[k] == pre.watches()[k]
    &&& post.order() == if pre.watches().contains_key(name) {
        pre.order()
    } else {
        pre.order().push(name)
    }
}

/// Whether `post` is `pre` with `name` not watched, and all else as it was.
pub open spec fn watch_dropped(pre: CgroupMonitor, name: Seq<char>, post: CgroupMonitor) -> bool {
    &&& post.watches() == pre.watches().remove(name)
    &&& post.order() == if pre.watches().contains_key(name) {
        pre.order().remove(pre.order().index_of(name))
    } else {
        pre.order()
    }
}

impl CgroupMonitor {
    /// The watched cgroups by service.
    pub closed spec fn watches(self) -> Map<Seq<char>, Watch> {
        self.watched@
    }

    /// The services in the order in which they were first watched.
    pub closed spec fn order(self) -> Seq<Seq<char>> {
        self.watched.order()
    }

    /// No service is watched twice.
    pub closed spec fn wf(self) -> bool {
        self.watched.wf()
    }

    /// The order holds each watched service once, and no others.
    pub proof fn lemma_order(self)
        requires
            self.wf(),
        ensures
            self.order().no_duplicates(),
            self.order().to_set() == self.watches().dom(),
    {
        self.watched.lemma_order();
    }

    /// A monitor that watches nothing.
    pub fn new() -> (r: Self)
        ensures
            r.wf(),
            r.watches() == Map::<Seq<char>, Watch>::empty(),
            r.order() == Seq::<Seq<char>>::empty(),
    {
        CgroupMonitor { watched: NameMap::new() }
    }

    /// Watches the cgroup of a service. The kills that its `memory.events`
    /// tells of already are not reported.
    pub fn watch(&mut self, service_name: &str, cgroup_path: &str, memory_events: Option<&str>)
        requires
            old(self).wf(),
        ensures
            final(self).wf(),
            watch_added(*old(self), service_name@, *final(self)),
            final(self).watches()[service_name@].path@ == cgroup_path@,
            final(self).watches()[service_name@].last_oom == oom_kills(opt_str(memory_events)),
    {
        let w = Watch { path: owned(cgroup_path), last_oom: read_oom_kill_count(memory_events) };
        self.watched.insert(owned(service_name), w);
        assert(self.watches().dom() =~= old(self).watches().dom().insert(service_name@));
    }

    /// Watches the cgroup of a service no longer.
    pub fn unwatch(&mut self, service_name: &str)
        requires
            old(self).wf(),
        ensures
            final(self).wf(),
            watch_dropped(*old(self), service_name@, *final(self)),
    {
        let gone = self.watched.remove(service_name);
    }

    /// The service and the cgroup at a place in the order.
    pub fn watched_at(&self, i: usize) -> (r: (&str, &str))
        requires
            self.wf(),
            i < self.order().len(),
        ensures
            r.0@ == self.order()[i as int],
            r.1@ == self.watches()[self.order()[i as int]].path@,
    {
        (self.watched.key_at(i).as_str(), self.watched.value_at(i).path.as_str())
    }

    /// What happened since the last time, from a reading of each watched
    /// cgroup, in order.
    pub fn poll(&mut self, readings: &Vec<CgroupReading>) -> (r: Vec<CgroupEvent>)
        requires
            old(self).wf(),
            readings@.len() == old(self).order().len(),
        ensures
            final(self).wf(),
            final(self).order() == old(self).order(),
            final(self).watches().dom() == old(self).watches().dom(),
            happenings(r@) == all_told(
                old(self).order(),
                old(self).watches(),
                readings@,
                readings@.len(),
            ),
            forall|i: int| 0 <= i < readings@.len() ==> {
                let k = #[trigger] old(self).order()[i];
                &&& final(self).watches()[k].path == old(self).watches()[k].path
                &&& final(self).watches()[k].last_oom == oom_kills(
                    opt_text(readings@[i].memory_events),
                )
            },
    {
        let mut events: Vec<CgroupEvent> = Vec::new();
        let n = self.watched.len();
        let ghost o = self.order();
        let ghost w0 = self.watches();
        let mut i: usize = 0;
        proof {
            self.watched.lemma_order();
            assert(happenings(events@) =~= Seq::<Happening>::empty());
        }
        while i < n
            invariant
                i <= n,
                n == o.len(),
                readings@.len() == n,
                o.no_duplicates(),
                self.wf(),
                self.order() == o,
                w0.dom() == o.to_set(),
                self.watches().dom() == w0.dom(),
                happenings(events@) == all_told(o, w0, readings@, i as nat),
                forall|j: int| 0 <= j < n ==> {
                    let k = #[trigger] o[j];
                    &&& self.watches()[k].path == w0[k].path
                    &&& self.watches()[k].last_oom == if j < i {
                        oom_kills(opt_text(readings@[j].memory_events))
                    } else {
                        w0[k].last_oom as nat
                    }
                },
            decreases n - i,
        {
            let reading = &readings[i];
            let name = self.watched.key_at(i).clone();
            let current_oom = read_oom_kill_count(as_str(&reading.memory_events));
            let ghost before = happenings(events@);
            let last_oom = self.watched.value_at(i).last_oom;
            assert(o[i as int] == name@);
            if current_oom > last_oom {
                events.push(
                    CgroupEvent::OomKill {
                        service_name: name.clone(),
                        count: current_oom - last_oom,
                    },
                );
            }
            let ghost pre = self.watches();
            if let Some(w) = self.watched.get_mut(name.as_str()) {
                w.last_oom = current_oom;
            }
            proof {
                assert(o.contains(name@));
                assert(self.watches().dom() =~= w0.dom());
                assert forall|j: int| 0 <= j < n implies {
                    let k = #[trigger] o[j];
                    &&& self.watches()[k].path == w0[k].path
                    &&& self.watches()[k].last_oom == if j < i + 1 {
                        oom_kills(opt_text(readings@[j].memory_events))
                    } else {
                        w0[k].last_oom as nat
                    }
                } by {
                    if j != i {
                        assert(o[j] != o[i as int]);
                        assert(self.watches()[o[j]] == pre[o[j]]);
                    }
                }
            }
            match (
                read_u64(as_str(&reading.memory_current)),
                read_memory_high(as_str(&reading.memory_high)),
            ) {
                (Some(current), Some(high)) => {
                    if current > high {
                        events.push(
                            CgroupEvent::MemoryHigh { service_name: name, current_bytes: current },
                        );
                    }
                },
                _ => {},
            }
            assert(happenings(events@) =~= before + told(
                o[i as int],
                w0[o[i as int]].last_oom as nat,
                readings@[i as int],
            ));
            i += 1;
        }
        events
    }

    /// How many cgroups are watched.
    pub fn count(&self) -> (r: usize)
        requires
            self.wf(),
        ensures
            r == self.order().len(),
            r == self.watches().len(),
    {
        self.watched.len()
    }
}

/// A kill is reported once: where `memory.events` still says what it said,
/// the next reading tells of none.
pub proof fn kill_is_reported_once(
    name: Seq<char>,
    reading: CgroupReading,
    next: CgroupReading,
    n: nat,
)
    requires
        opt_text(next.memory_events) == opt_text(reading.memory_events),
    ensures
        !told(name, oom_kills(opt_text(reading.memory_events)), next).contains(
            Happening::OomKill(name, n),
        ),
{
}

/// No kill is lost between two readings: each tells of those that came since
/// the one before it.
pub proof fn no_kill_is_lost(
    name: Seq<char>,
    last: nat,
    reading: CgroupReading,
    next: CgroupReading,
)
    requires
        last < oom_kills(opt_text(reading.memory_events)) < oom_kills(
            opt_text(next.memory_events),
        ),
    ensures
        ({
            let x = oom_kills(opt_text(reading.memory_events));
            let y = oom_kills(opt_text(next.memory_events));
            &&& told(name, last, reading).contains(Happening::OomKill(name, (x - last) as nat))
            &&& told(name, x, next).contains(Happening::OomKill(name, (y - x) as nat))
        }),
{
    let x = oom_kills(opt_text(reading.memory_events));
    let y = oom_kills(opt_text(next.memory_events));
    assert(told(name, last, reading)[0] == Happening::OomKill(name, (x - last) as nat));
    assert(told(name, x, next)[0] == Happening::OomKill(name, (y - x) as nat));
}

/// The service that something happened to.
pub open spec fn happened_to(h: Happening) -> Seq<char> {
    match h {
        Happening::OomKill(name, _) => name,
        Happening::MemoryHigh(name, _) => name,
    }
}

/// Nothing is told of a service that is not watched.
pub proof fn unwatched_service_is_not_told_of(
    monitor: CgroupMonitor,
    name: Seq<char>,
    readings: Seq<CgroupReading>,
    n: nat,
)
    requires
        monitor.wf(),
        !monitor.watches().contains_key(name),
        n <= monitor.order().len(),
    ensures
        forall|h: Happening| #[trigger]
            all_told(monitor.order(), monitor.watches(), readings, n).contains(h) ==> happened_to(h)
                != name,
    decreases n,
{
    if n > 0 {
        let k = (n - 1) as nat;
        let (order, watched) = (monitor.order(), monitor.watches());
        monitor.lemma_order();
        unwatched_service_is_not_told_of(monitor, name, readings, k);
        assert(order[k as int] != name) by {
            assert(order.contains(order[k as int]));
            assert(order.to_set().contains(order[k as int]));
        }
        let before = all_told(order, watched, readings, k);
        let last = told(
            order[k as int],
            watched[order[k as int]].last_oom as nat,
            readings[k as int],
        );
        assert forall|h: Happening| #[trigger]
            all_told(order, watched, readings, n).contains(h) implies happened_to(h) != name by {
            let i = choose|i: int| 0 <= i < (before + last).len() && (before + last)[i] == h;
            if i < before.len() {
                assert(before[i] == h);
                assert(before.contains(h));
            } else {
                assert(last[i - before.len()] == h);
            }
        }
    }
}

/// To watch a service that was not watched and then watch it no longer leaves
/// the monitor as it was.
pub proof fn unwatching_undoes_watching(
    pre: CgroupMonitor,
    name: Seq<char>,
    mid: CgroupMonitor,
    post: CgroupMonitor,
)
    requires
        pre.wf(),
        !pre.watches().contains_key(name),
        watch_added(pre, name, mid),
        watch_dropped(mid, name, post),
    ensures
        post.watches() == pre.watches(),
        post.order() == pre.order(),
{
    pre.lemma_order();
    assert(post.watches() =~= pre.watches());
    let o = pre.order();
    assert(!o.contains(name)) by {
        assert(!o.to_set().contains(name));
    }
    let i = o.push(name).index_of(name);
    assert(o.push(name)[o.len() as int] == name);
    assert(o.push(name).contains(name));
    assert(i == o.len()) by {
        if i < o.len() {
            assert(o[i] == name);
            assert(o.contains(name));
        }
    }
    assert(post.order() =~= o);
}

/// To watch a service no longer that is not watched changes nothing.
pub proof fn unwatching_the_unwatched_changes_nothing(
    pre: CgroupMonitor,
    name: Seq<char>,
    post: CgroupMonitor,
)
    requires
        !pre.watches().contains_key(name),
        watch_dropped(pre, name, post),
    ensures
        post.watches() == pre.watches(),
        post.order() == pre.order(),
{
    assert(post.watches() =~= pre.watches());
}

/// A reading tells of kills just where there are more than are known, and of as
/// many as are new; and of memory just where more is used than the limit that
/// is set, by what is used.
pub proof fn reading_tells_what_happened(
    name: Seq<char>,
    last: nat,
    reading: CgroupReading,
    other: Seq<char>,
    n: nat,
)
    ensures
        ({
            let kills = oom_kills(opt_text(reading.memory_events));
            let used = number_in(opt_text(reading.memory_current));
            let high = high_mark(opt_text(reading.memory_high));
            let t = told(name, last, reading);
            &&& t.contains(Happening::OomKill(other, n)) <==> other == name && kills > last && n
                == kills - last
            &&& t.contains(Happening::MemoryHigh(other, n)) <==> other == name && used == Some(n)
                && high is Some && n > high->0
        }),
{
    let kills = oom_kills(opt_text(reading.memory_events));
    let used = number_in(opt_text(reading.memory_current));
    let high = high_mark(opt_text(reading.memory_high));
    let t = told(name, last, reading);
    let k: int = if kills > last {
        1
    } else {
        0
    };
    if kills > last {
        assert(t[0] == Happening::OomKill(name, (kills - last) as nat));
    }
    if used is Some && high is Some && used->0 > high->0 {
        assert(t[k] == Happening::MemoryHigh(name, used->0));
    }
    if t.contains(Happening::OomKill(other, n)) {
        let i = choose|i: int| 0 <= i < t.len() && t[i] == Happening::OomKill(other, n);
    }
    if t.contains(Happening::MemoryHigh(other, n)) {
        let i = choose|i: int| 0 <= i < t.len() && t[i] == Happening::MemoryHigh(other, n);
    }
}

/// There is no limit to exceed where the file says that there is none, or
/// cannot be read; and the kills are those behind their field.
pub proof fn files_of_memory_are_read(n: nat, text: Seq<char>)
    requires
        n <= u64::MAX,
    ensures
        high_mark(None) is None,
        stripped(text) == "max"@ ==> high_mark(Some(text)) is None,
        high_mark(Some(dec(n).push('\n'))) == Some(n),
        oom_kills(None) == 0,
        field_in(lines_of(text), "oom_kill "@) == Some(n) ==> oom_kills(Some(text)) == n,
        field_in(lines_of(text), "oom_kill "@) is None ==> oom_kills(Some(text)) == 0,
{
    let e = Seq::<char>::empty();
    let nl = seq!['\n'];
    written_number_is_read_back(n, u64::MAX as nat);
    white_space_around_is_taken_off(e, dec(n), nl);
    assert(e + dec(n) + nl =~= dec(n).push('\n'));
    reveal_strlit("max");
    assert("max"@[0] == 'm');
}

} // verus!
