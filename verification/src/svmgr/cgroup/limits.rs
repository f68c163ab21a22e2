//! Limits on resources, and what is used of them.

use crate::fspath::{join_path, path_joined};
use crate::svmgr::cgroup::hierarchy::{write_refused, CgroupError, FileWrite};
use crate::svmgr::config::service::CgroupSection;
use crate::text::num::{dec, parse_nat, parsed_nat, u64_text, written_number_is_read_back};
use crate::text::scan::{
    deep, has_prefix, lines, lines_of, starts_with, stripped, trim,
    white_space_around_is_taken_off,
};
use crate::text::{cat, chars_of, opt_text, string_of};
use vstd::prelude::*;
use vstd::slice::slice_subrange;

verus! {

/// The factor that a suffix of a byte size stands for.
pub open spec fn unit_of(c: char) -> Option<nat> {
    if c == 'K' || c == 'k' {
        Some(1024nat)
    } else if c == 'M' || c == 'm' {
        Some(1048576nat)
    } else if c == 'G' || c == 'g' {
        Some(1073741824nat)
    } else {
        None
    }
}

/// The number of bytes that a size with a suffix stands for.
pub open spec fn byte_count(text: Seq<char>) -> Option<nat> {
    let s = stripped(text);
    if s.len() > 0 {
        match (unit_of(s.last()), parsed_nat(stripped(s.drop_last()), u64::MAX as nat)) {
            (Some(unit), Some(n)) => Some(n * unit),
            _ => None,
        }
    } else {
        None
    }
}

/// Whether the bytes of a size can be counted in 64 bits.
pub open spec fn bytes_fit(text: Seq<char>) -> bool {
    byte_count(text) matches Some(n) ==> n <= u64::MAX
}

/// A size as control files take it: bytes where there was a suffix, else the
/// text itself.
pub open spec fn bytes_text(text: Seq<char>) -> Seq<char> {
    match byte_count(text) {
        Some(n) => dec(n),
        None => stripped(text),
    }
}

fn unit(c: char) -> (r: Option<u64>)
    ensures
        match r {
            Some(u) => unit_of(c) == Some(u as nat) && u <= 1073741824,
            None => unit_of(c) is None,
        },
{
    if c == 'K' || c == 'k' {
        Some(1024)
    } else if c == 'M' || c == 'm' {
        Some(1048576)
    } else if c == 'G' || c == 'g' {
        Some(1073741824)
    } else {
        None
    }
}

/// The outer `None` says that the bytes cannot be counted in 64 bits.
fn count_bytes(s: &[char]) -> (r: Option<Option<u64>>)
    ensures
        match r {
            Some(Some(n)) => byte_count(s@) == Some(n as nat),
            Some(None) => byte_count(s@) is None,
            None => !bytes_fit(s@),
        },
        r is Some ==> bytes_fit(s@),
{
    let t = trim(s);
    if t.len() == 0 {
        return Some(None);
    }
    let head = slice_subrange(t, 0, t.len() - 1);
    assert(head@ == t@.drop_last());
    match (unit(t[t.len() - 1]), parse_nat(trim(head), u64::MAX)) {
        (Some(u), Some(n)) => {
            assert(n * u <= 0xffff_ffff_ffff_ffff * 1073741824) by (nonlinear_arith)
                requires
                    n <= 0xffff_ffff_ffff_ffff,
                    0 <= u <= 1073741824,
            ;
            let wide: u128 = n as u128 * u as u128;
            if wide > u64::MAX as u128 {
                None
            } else {
                Some(Some(wide as u64))
            }
        },
        _ => Some(None),
    }
}

/// Whether `parse_bytes` can hold the number for `s`.
pub fn bytes_in_range(s: &str) -> (r: bool)
    ensures
        r == bytes_fit(s@),
{
    let c = chars_of(s);
    count_bytes(&c).is_some()
}

/// Turns a size such as "512M", "2G" or "1024K" into what control files take.
pub fn parse_bytes(s: &str) -> (r: String)
    requires
        bytes_fit(s@),
    ensures
        r@ == bytes_text(s@),
{
    let c = chars_of(s);
    match count_bytes(&c) {
        Some(Some(n)) => u64_text(n),
        _ => string_of(trim(&c)),
    }
}

/// The sizes in a section can be counted.
pub open spec fn limits_fit(config: CgroupSection) -> bool {
    &&& config.memory_max matches Some(s) ==> bytes_fit(s@)
    &&& config.memory_high matches Some(s) ==> bytes_fit(s@)
}

/// Whether the sizes in a section can be counted.
pub fn limits_in_range(config: &CgroupSection) -> (r: bool)
    ensures
        r == limits_fit(*config),
{
    let a = match &config.memory_max {
        Some(s) => bytes_in_range(s.as_str()),
        None => true,
    };
    let b = match &config.memory_high {
        Some(s) => bytes_in_range(s.as_str()),
        None => true,
    };
    a && b
}

/// The files and values that set the limits of a section, in order.
pub open spec fn limit_values(config: CgroupSection) -> Seq<(Seq<char>, Seq<char>)> {
    let a: Seq<(Seq<char>, Seq<char>)> = match config.memory_max {
        Some(s) => seq![("memory.max"@, bytes_text(s@))],
        None => Seq::empty(),
    };
    let b: Seq<(Seq<char>, Seq<char>)> = match config.memory_high {
        Some(s) => seq![("memory.high"@, bytes_text(s@))],
        None => Seq::empty(),
    };
    let c: Seq<(Seq<char>, Seq<char>)> = match config.cpu_weight {
        Some(n) => seq![("cpu.weight"@, dec(n as nat))],
        None => Seq::empty(),
    };
    let d: Seq<(Seq<char>, Seq<char>)> = match config.cpu_max {
        Some(s) => seq![("cpu.max"@, s@)],
        None => Seq::empty(),
    };
    let e: Seq<(Seq<char>, Seq<char>)> = match config.pids_max {
        Some(n) => seq![("pids.max"@, dec(n as nat))],
        None => Seq::empty(),
    };
    let f: Seq<(Seq<char>, Seq<char>)> = match config.io_weight {
        Some(n) => seq![("io.weight"@, "default "@ + dec(n as nat))],
        None => Seq::empty(),
    };
    a + b + c + d + e + f
}

/// The writes as paths and values.
pub open spec fn write_pairs(v: Seq<FileWrite>) -> Seq<(Seq<char>, Seq<char>)> {
    v.map_values(|w: FileWrite| (w.path@, w.value@))
}

/// The files of a directory with their values.
pub open spec fn placed(dir: Seq<char>, v: Seq<(Seq<char>, Seq<char>)>) -> Seq<
    (Seq<char>, Seq<char>),
> {
    v.map_values(|w: (Seq<char>, Seq<char>)| (path_joined(dir, w.0), w.1))
}

fn push_write(v: &mut Vec<FileWrite>, dir: &str, file: &str, value: String)
    ensures
        write_pairs(final(v)@) == write_pairs(old(v)@).push(
            (path_joined(dir@, file@), value@),
        ),
{
    v.push(FileWrite { path: join_path(dir, file), value });
    assert(write_pairs(v@) =~= write_pairs(old(v)@).push((path_joined(dir@, file@), value@)));
}

/// What sets the limits of a section.
pub open spec fn limits_written(
    dir: Seq<char>,
    config: CgroupSection,
    r: Seq<FileWrite>,
) -> bool {
    write_pairs(r) == placed(dir, limit_values(config))
}

/// What sets the limits of a section on the cgroup at `cgroup_path`, in order.
pub fn apply_limits(cgroup_path: &str, config: &CgroupSection) -> (r: Vec<FileWrite>)
    requires
        limits_fit(*config),
    ensures
        limits_written(cgroup_path@, *config, r@),
{
    let mut r: Vec<FileWrite> = Vec::new();
    if let Some(limit) = &config.memory_max {
        push_write(&mut r, cgroup_path, "memory.max", parse_bytes(limit.as_str()));
    }
    if let Some(limit) = &config.memory_high {
        push_write(&mut r, cgroup_path, "memory.high", parse_bytes(limit.as_str()));
    }
    if let Some(weight) = config.cpu_weight {
        push_write(&mut r, cgroup_path, "cpu.weight", u64_text(weight as u64));
    }
    if let Some(max) = &config.cpu_max {
        push_write(&mut r, cgroup_path, "cpu.max", max.clone());
    }
    if let Some(max) = config.pids_max {
        push_write(&mut r, cgroup_path, "pids.max", u64_text(max as u64));
    }
    if let Some(weight) = config.io_weight {
        push_write(&mut r, cgroup_path, "io.weight", cat("default ", u64_text(weight as u64).as_str()));
    }
    assert(write_pairs(r@) =~= placed(cgroup_path@, limit_values(*config)));
    r
}

/// What comes next where a number of writes are made in order.
#[derive(Debug)]
pub enum WriteStep {
    /// Make the write at this place.
    Write(usize),
    /// All writes were made.
    Done,
    /// A write was refused, and no more are made.
    Failed(CgroupError),
}

/// A `WriteStep` over texts; a failure tells the file and the reason.
pub enum WriteStage {
    Write(nat),
    Done,
    Failed(Seq<char>, Seq<char>),
}

impl WriteStep {
    /// Whether the step is `stage`.
    pub open spec fn is_stage(self, stage: WriteStage) -> bool {
        match self {
            WriteStep::Write(i) => stage == WriteStage::Write(i as nat),
            WriteStep::Done => stage is Done,
            WriteStep::Failed(CgroupError::WriteFile(path, why)) => stage == WriteStage::Failed(
                path@,
                why@,
            ),
            WriteStep::Failed(_) => false,
        }
    }
}

/// What comes next of `n` writes once the first `made` were made.
pub open spec fn stage_at(n: nat, made: nat) -> WriteStage {
    if made < n {
        WriteStage::Write(made)
    } else {
        WriteStage::Done
    }
}

/// What comes next after the write at `i` was made, or was refused.
pub open spec fn stage_after(v: Seq<FileWrite>, i: nat, refusal: Option<Seq<char>>) -> WriteStage {
    match refusal {
        Some(why) => WriteStage::Failed(v[i as int].path@, why),
        None => stage_at(v.len(), i + 1),
    }
}

/// Says which write comes first.
pub fn first_write(v: &Vec<FileWrite>) -> (r: WriteStep)
    ensures
        r.is_stage(stage_at(v@.len(), 0)),
{
    if v.len() > 0 {
        WriteStep::Write(0)
    } else {
        WriteStep::Done
    }
}

/// Says what comes after the write at `i`, which was made, or was refused for
/// the reason in `refusal`.
pub fn after_write(v: &Vec<FileWrite>, i: usize, refusal: Option<String>) -> (r: WriteStep)
    requires
        i < v@.len(),
    ensures
        r.is_stage(stage_after(v@, i as nat, opt_text(refusal))),
{
    match refusal {
        Some(why) => WriteStep::Failed(write_refused(&v[i], why)),
        None => if i < v.len() - 1 {
            WriteStep::Write(i + 1)
        } else {
            WriteStep::Done
        },
    }
}

/// How many writes are tried, and how it ends, where the writes `v` are made in
/// order from the place `i` on and `refusals` says which would be refused.
pub open spec fn writes_end(v: Seq<FileWrite>, refusals: Seq<Option<Seq<char>>>, i: nat) -> (
    nat,
    WriteStage,
)
    decreases v.len() - i,
{
    if i >= v.len() {
        (i, WriteStage::Done)
    } else {
        match stage_after(v, i, refusals[i as int]) {
            WriteStage::Write(_) => writes_end(v, refusals, i + 1),
            other => (i + 1, other),
        }
    }
}

proof fn lemma_writes_go_on(
    v: Seq<FileWrite>,
    refusals: Seq<Option<Seq<char>>>,
    i: nat,
    k: nat,
)
    requires
        i <= k < v.len(),
        forall|j: int| i <= j < k ==> #[trigger] refusals[j] is None,
    ensures
        writes_end(v, refusals, i) == writes_end(v, refusals, k),
    decreases k - i,
{
    if i < k {
        assert(refusals[i as int] is None);
        lemma_writes_go_on(v, refusals, i + 1, k);
    }
}

/// The first write that is refused ends the list: none is tried after it, and
/// the failure names its file and the reason.
pub proof fn first_refused_write_ends_the_list(
    v: Seq<FileWrite>,
    refusals: Seq<Option<Seq<char>>>,
    k: nat,
    why: Seq<char>,
)
    requires
        k < v.len(),
        forall|j: int| 0 <= j < k ==> #[trigger] refusals[j] is None,
        refusals[k as int] == Some(why),
    ensures
        writes_end(v, refusals, 0) == (k + 1, WriteStage::Failed(v[k as int].path@, why)),
{
    lemma_writes_go_on(v, refusals, 0, k);
}

/// Where no write is refused, all are made, and nothing fails.
pub proof fn accepted_writes_are_all_made(v: Seq<FileWrite>, refusals: Seq<Option<Seq<char>>>)
    requires
        forall|j: int| 0 <= j < v.len() ==> #[trigger] refusals[j] is None,
    ensures
        writes_end(v, refusals, 0) == (v.len(), WriteStage::Done),
{
    if v.len() > 0 {
        lemma_writes_go_on(v, refusals, 0, (v.len() - 1) as nat);
        assert(refusals[v.len() - 1] is None);
        assert(writes_end(v, refusals, (v.len() - 1) as nat) == (v.len(), WriteStage::Done));
    }
}

/// What a cgroup uses.
#[derive(Debug, Clone)]
pub struct CgroupUsage {
    pub memory_current: Option<u64>,
    pub memory_max: Option<String>,
    pub pids_current: Option<u64>,
    pub cpu_usage_usec: Option<u64>,
}

/// The number that a control file holds.
pub open spec fn number_in(content: Option<Seq<char>>) -> Option<nat> {
    match content {
        Some(c) => parsed_nat(stripped(c), u64::MAX as nat),
        None => None,
    }
}

/// The number behind `field` on the first line that starts with it.
pub open spec fn field_in(ls: Seq<Seq<char>>, field: Seq<char>) -> Option<nat>
    decreases ls.len(),
{
    if ls.len() == 0 {
        None
    } else if has_prefix(ls[0], field) {
        parsed_nat(stripped(ls[0].skip(field.len() as int)), u64::MAX as nat)
    } else {
        field_in(ls.drop_first(), field)
    }
}

/// A machine integer as a natural number.
pub open spec fn as_nat(n: Option<u64>) -> Option<nat> {
    match n {
        Some(v) => Some(v as nat),
        None => None,
    }
}

/// The text of an optional string slice.
pub open spec fn opt_str(s: Option<&str>) -> Option<Seq<char>> {
    match s {
        Some(t) => Some(t@),
        None => None,
    }
}

/// Reads the number in a control file, where the file could be read.
pub fn read_u64(content: Option<&str>) -> (r: Option<u64>)
    ensures
        as_nat(r) == number_in(opt_str(content)),
{
    match content {
        Some(c) => {
            let v = chars_of(c);
            parse_nat(trim(&v), u64::MAX)
        },
        None => None,
    }
}

/// Reads the text in a control file, where the file could be read.
pub fn read_string(content: Option<&str>) -> (r: Option<String>)
    ensures
        match (content, r) {
            (Some(c), Some(s)) => s@ == stripped(c@),
            (None, None) => true,
            _ => false,
        },
{
    match content {
        Some(c) => {
            let v = chars_of(c);
            Some(string_of(trim(&v)))
        },
        None => None,
    }
}

/// Reads the number behind `field` in a control file, where the file could be
/// read.
pub fn read_stat_field(content: Option<&str>, field: &str) -> (r: Option<u64>)
    ensures
        as_nat(r) == match content {
            Some(c) => field_in(lines_of(c@), field@),
            None => None,
        },
{
    let text = match content {
        Some(c) => chars_of(c),
        None => {
            return None;
        },
    };
    let f = chars_of(field);
    let ls = lines(&text);
    let ghost all = deep(ls@);
    let mut i: usize = 0;
    assert(all.skip(0) =~= all);
    while i < ls.len()
        invariant
            i <= ls.len(),
            all == deep(ls@),
            content is Some,
            all == lines_of(content->0@),
            f@ == field@,
            field_in(all.skip(i as int), field@) == field_in(all, field@),
        decreases ls.len() - i,
    {
        let line = &ls[i];
        assert(all.skip(i as int)[0] == line@);
        if starts_with(line, &f) {
            let rest = slice_subrange(line, f.len(), line.len());
            assert(rest@ == line@.skip(f@.len() as int));
            return parse_nat(trim(rest), u64::MAX);
        }
        assert(all.skip(i as int).drop_first() =~= all.skip(i + 1));
        i += 1;
    }
    None
}

/// What files tell of the use of a cgroup.
pub open spec fn usage_read(
    memory_current: Option<&str>,
    memory_max: Option<&str>,
    pids_current: Option<&str>,
    cpu_stat: Option<&str>,
    r: CgroupUsage,
) -> bool {
    &&& as_nat(r.memory_current) == number_in(opt_str(memory_current))
    &&& match (memory_max, r.memory_max) {
            (Some(c), Some(s)) => s@ == stripped(c@),
            (None, None) => true,
            _ => false,
        }
    &&& as_nat(r.pids_current) == number_in(opt_str(pids_current))
    &&& as_nat(r.cpu_usage_usec) == match cpu_stat {
            Some(c) => field_in(lines_of(c@), "usage_usec"@),
            None => None,
        }
}

/// What a cgroup uses, from the contents of its files `memory.current`,
/// `memory.max`, `pids.current` and `cpu.stat`.
pub fn read_usage(
    memory_current: Option<&str>,
    memory_max: Option<&str>,
    pids_current: Option<&str>,
    cpu_stat: Option<&str>,
) -> (r: CgroupUsage)
    ensures
        usage_read(memory_current, memory_max, pids_current, cpu_stat, r),
{
    CgroupUsage {
        memory_current: read_u64(memory_current),
        memory_max: read_string(memory_max),
        pids_current: read_u64(pids_current),
        cpu_usage_usec: read_stat_field(cpu_stat, "usage_usec"),
    }
}

/// A size with a unit stands for that many times 1024, 1024 squared or 1024
/// cubed bytes, in capitals or in small letters; a text without a unit is taken
/// as it is, but for the white space around it.
pub proof fn size_goes_by_its_unit(n: nat, u: char)
    requires
        n <= u64::MAX,
    ensures
        u == 'K' || u == 'k' ==> bytes_text(dec(n).push(u)) == dec(1024 * n),
        u == 'M' || u == 'm' ==> bytes_text(dec(n).push(u)) == dec(1024 * 1024 * n),
        u == 'G' || u == 'g' ==> bytes_text(dec(n).push(u)) == dec(1024 * 1024 * 1024 * n),
        bytes_text(dec(n)) == dec(n),
        bytes_text("max"@) == "max"@,
{
    let e = Seq::<char>::empty();
    written_number_is_read_back(n, u64::MAX as nat);
    white_space_around_is_taken_off(e, dec(n), e);
    if u == 'K' || u == 'k' || u == 'M' || u == 'm' || u == 'G' || u == 'g' {
        let t = dec(n).push(u);
        white_space_around_is_taken_off(e, t, e);
        assert(t.drop_last() =~= dec(n));
        assert(byte_count(t) == Some(n * unit_of(u)->0));
        assert(n * 1024 == 1024 * n && n * 1048576 == 1024 * 1024 * n && n * 1073741824 == 1024
            * 1024 * 1024 * n) by (nonlinear_arith);
    }
    reveal_strlit("max");
    white_space_around_is_taken_off(e, "max"@, e);
    assert("max"@.last() == 'x');
}

/// Whether a write of that text to that file is among those made.
pub open spec fn writes_to(r: Seq<FileWrite>, dir: Seq<char>, file: Seq<char>, value: Seq<char>) -> bool {
    write_pairs(r).contains((path_joined(dir, file), value))
}

proof fn lemma_placed(
    dir: Seq<char>,
    v: Seq<(Seq<char>, Seq<char>)>,
    file: Seq<char>,
    value: Seq<char>,
    i: int,
)
    requires
        0 <= i < v.len(),
        v[i] == (file, value),
    ensures
        placed(dir, v).contains((path_joined(dir, file), value)),
{
    assert(placed(dir, v)[i] == (path_joined(dir, file), value));
}

/// Every limit that a section sets is written to its own file: the two for
/// memory in bytes, those for the processor and for input and output as they
/// stand, and the number of processes. As many files are written as limits are
/// set.
pub proof fn every_limit_is_written_to_its_file(
    dir: Seq<char>,
    config: CgroupSection,
    r: Seq<FileWrite>,
)
    requires
        limits_written(dir, config, r),
    ensures
        config.memory_max matches Some(s) ==> writes_to(r, dir, "memory.max"@, bytes_text(s@)),
        config.memory_high matches Some(s) ==> writes_to(r, dir, "memory.high"@, bytes_text(s@)),
        config.cpu_weight matches Some(n) ==> writes_to(r, dir, "cpu.weight"@, dec(n as nat)),
        config.cpu_max matches Some(s) ==> writes_to(r, dir, "cpu.max"@, s@),
        config.pids_max matches Some(n) ==> writes_to(r, dir, "pids.max"@, dec(n as nat)),
        config.io_weight matches Some(n) ==> writes_to(
            r,
            dir,
            "io.weight"@,
            "default "@ + dec(n as nat),
        ),
        r.len() == set_count(config),
{
    let v = limit_values(config);
    let a: int = if config.memory_max is Some {
        1
    } else {
        0
    };
    let b: int = if config.memory_high is Some {
        a + 1
    } else {
        a
    };
    let c: int = if config.cpu_weight is Some {
        b + 1
    } else {
        b
    };
    let d: int = if config.cpu_max is Some {
        c + 1
    } else {
        c
    };
    let e: int = if config.pids_max is Some {
        d + 1
    } else {
        d
    };
    if let Some(s) = config.memory_max {
        lemma_placed(dir, v, "memory.max"@, bytes_text(s@), 0);
    }
    if let Some(s) = config.memory_high {
        lemma_placed(dir, v, "memory.high"@, bytes_text(s@), a);
    }
    if let Some(n) = config.cpu_weight {
        lemma_placed(dir, v, "cpu.weight"@, dec(n as nat), b);
    }
    if let Some(s) = config.cpu_max {
        lemma_placed(dir, v, "cpu.max"@, s@, c);
    }
    if let Some(n) = config.pids_max {
        lemma_placed(dir, v, "pids.max"@, dec(n as nat), d);
    }
    if let Some(n) = config.io_weight {
        lemma_placed(dir, v, "io.weight"@, "default "@ + dec(n as nat), e);
    }
    assert(write_pairs(r).len() == r.len());
    assert(placed(dir, v).len() == v.len());
}

/// How many limits a section sets.
pub open spec fn set_count(config: CgroupSection) -> int {
    let a: int = if config.memory_max is Some { 1 } else { 0 };
    let b: int = if config.memory_high is Some { 1 } else { 0 };
    let c: int = if config.cpu_weight is Some { 1 } else { 0 };
    let d: int = if config.cpu_max is Some { 1 } else { 0 };
    let e: int = if config.pids_max is Some { 1 } else { 0 };
    let f: int = if config.io_weight is Some { 1 } else { 0 };
    a + b + c + d + e + f
}

/// A file that holds a number, with or without white space around it, tells
/// that number; and where a line of a file starts with a field, and none before
/// it does, the number behind the field is told.
pub proof fn numbers_in_files_are_told(
    n: nat,
    ls: Seq<Seq<char>>,
    field: Seq<char>,
    rest: Seq<Seq<char>>,
)
    requires
        n <= u64::MAX,
        forall|i: int| 0 <= i < ls.len() ==> !has_prefix(#[trigger] ls[i], field),
    ensures
        number_in(Some(dec(n).push('\n'))) == Some(n),
        number_in(None) is None,
        field_in(ls.push(field + dec(n)) + rest, field) == Some(n),
        field_in(ls, field) is None,
    decreases ls.len(),
{
    let e = Seq::<char>::empty();
    let nl = seq!['\n'];
    written_number_is_read_back(n, u64::MAX as nat);
    white_space_around_is_taken_off(e, dec(n), nl);
    assert(e + dec(n) + nl =~= dec(n).push('\n'));
    let all = ls.push(field + dec(n)) + rest;
    if ls.len() == 0 {
        assert(all[0] == field + dec(n));
        assert(all[0].take(field.len() as int) =~= field);
        assert(all[0].skip(field.len() as int) =~= dec(n));
    } else {
        let t = ls.drop_first();
        assert forall|i: int| 0 <= i < t.len() implies !has_prefix(#[trigger] t[i], field) by {
            assert(t[i] == ls[i + 1]);
        }
        numbers_in_files_are_told(n, t, field, rest);
        assert(all[0] == ls[0]);
        assert(all.drop_first() =~= t.push(field + dec(n)) + rest);
    }
}

/// What a cgroup uses is told by its files: memory and processes by a number,
/// the limit on memory by its text, and the time of the processor by the field
/// for it.
pub proof fn usage_is_told_by_the_files(
    m: Option<&str>,
    x: Option<&str>,
    p: Option<&str>,
    c: Option<&str>,
    r: CgroupUsage,
)
    requires
        usage_read(m, x, p, c, r),
    ensures
        as_nat(r.memory_current) == number_in(opt_str(m)),
        as_nat(r.pids_current) == number_in(opt_str(p)),
        x is None ==> r.memory_max is None,
        x matches Some(t) ==> r.memory_max is Some && r.memory_max->0@ == stripped(t@),
        c is None ==> r.cpu_usage_usec is None,
        c matches Some(t) ==> as_nat(r.cpu_usage_usec) == field_in(lines_of(t@), "usage_usec"@),
{
}

} // verus!
