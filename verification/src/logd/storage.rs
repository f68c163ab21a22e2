//! The log: lines in a file that is moved aside when it has grown too long,
//! and the latest of them in memory.

use crate::fspath::{join_path, path_joined};
use crate::text::num::{dec, dec_value, digit, lemma_dec, u64_text};
use crate::text::order::{sort_places, sorted_places};
use crate::text::scan::{
    ends_with, has_part, has_prefix, has_suffix, part_of_a_part_is_found, starts_with,
};
use crate::text::{cat, cat3, cat4, chars_of, owned, texts};
use crate::time::Duration;
use std::collections::VecDeque;
use vstd::prelude::*;

verus! {

/// How many entries are kept in memory.
pub const MAX_RECENT: usize = 1000;

/// How many files that were moved aside are kept.
pub const KEPT_FILES: usize = 5;

/// An entry of the log. The time is that since the epoch.
#[derive(Debug, Clone)]
pub struct LogEntry {
    pub timestamp: Duration,
    pub source: String,
    pub message: String,
}

/// An entry over text.
pub struct Entry {
    pub timestamp: Duration,
    pub source: Seq<char>,
    pub message: Seq<char>,
}

impl View for LogEntry {
    type V = Entry;

    open spec fn view(&self) -> Entry {
        Entry { timestamp: self.timestamp, source: self.source@, message: self.message@ }
    }
}

/// The log: where its files are, whether the current one is open, how long it
/// is and may become, and the latest entries, the oldest first.
#[derive(Debug)]
pub struct LogStorage {
    pub log_dir: String,
    pub file_open: bool,
    pub current_size: u64,
    pub max_size: u64,
    pub recent: VecDeque<LogEntry>,
}

/// The entries after one more: where there are as many as may be kept, the
/// oldest goes.
pub open spec fn appended(kept: Seq<Entry>, e: Entry) -> Seq<Entry> {
    if kept.len() >= MAX_RECENT {
        kept.drop_first().push(e)
    } else {
        kept.push(e)
    }
}

/// The last `n` of `s`, the last one first.
pub open spec fn newest(s: Seq<Entry>, n: nat) -> Seq<Entry> {
    let k = if n < s.len() {
        n
    } else {
        s.len()
    };
    Seq::new(k, |i: int| s[s.len() - 1 - i])
}

impl LogStorage {
    /// The entries in memory, the oldest first.
    pub open spec fn kept(self) -> Seq<Entry> {
        Seq::new(self.recent@.len(), |i: int| self.recent@[i]@)
    }

    /// No more entries are kept than may be.
    pub open spec fn wf(self) -> bool {
        self.kept().len() <= MAX_RECENT
    }

    /// A log in a directory. `opened` tells how long its file is, where it
    /// could be opened.
    pub fn new(log_dir: &str, max_size: u64, opened: Option<u64>) -> (r: Self)
        ensures
            r.wf(),
            r.kept() == Seq::<Entry>::empty(),
            r.log_dir@ == log_dir@,
            r.max_size == max_size,
            r.file_open == (opened is Some),
            r.current_size == match opened {
                Some(n) => n,
                None => 0,
            },
    {
        let (file_open, current_size) = match opened {
            Some(n) => (true, n),
            None => (false, 0),
        };
        let r = LogStorage {
            log_dir: owned(log_dir),
            file_open,
            current_size,
            max_size,
            recent: VecDeque::with_capacity(MAX_RECENT),
        };
        assert(r.kept() =~= Seq::<Entry>::empty());
        r
    }

    /// Takes down an entry, of which `written` bytes went to the file. Tells
    /// whether the file is to be moved aside.
    pub fn append(
        &mut self,
        source: &str,
        message: &str,
        now: Duration,
        written: Option<u64>,
    ) -> (r: bool)
        requires
            old(self).wf(),
            written matches Some(n) ==> old(self).current_size + n <= u64::MAX,
        ensures
            final(self).wf(),
            entry_taken_down(*old(self), *final(self), source@, message@, now, written, r),
    {
        let ghost before = self.kept();
        let mut rotate = false;
        if self.file_open {
            if let Some(n) = written {
                self.current_size = self.current_size + n;
            }
            rotate = self.current_size >= self.max_size;
        }
        let entry = LogEntry { timestamp: now, source: owned(source), message: owned(message) };
        if self.recent.len() >= MAX_RECENT {
            let _oldest = self.recent.pop_front();
        }
        self.recent.push_back(entry);
        assert(self.kept() =~= appended(
            before,
            Entry { timestamp: now, source: source@, message: message@ },
        ));
        rotate
    }

    /// The latest entries, the latest first.
    pub fn recent(&self, count: usize) -> (r: Vec<&LogEntry>)
        ensures
            r@.map_values(|e: &LogEntry| e@) == newest(self.kept(), count as nat),
    {
        let mut r: Vec<&LogEntry> = Vec::new();
        let mut left: usize = self.recent.len();
        while left > 0 && r.len() < count
            invariant
                left <= self.recent@.len(),
                r@.len() == self.recent@.len() - left,
                r@.len() <= count,
                forall|i: int|
                    0 <= i < r@.len() ==> *(#[trigger] r@[i]) == self.recent@[self.recent@.len() - 1
                        - i],
            decreases left,
        {
            left -= 1;
            r.push(&self.recent[left]);
        }
        assert(r@.map_values(|e: &LogEntry| e@) =~= newest(self.kept(), count as nat));
        r
    }

    /// The file that lines are written to.
    pub fn current_path(&self) -> (r: String)
        ensures
            r@ == path_joined(self.log_dir@, "current.log"@),
    {
        join_path(self.log_dir.as_str(), "current.log")
    }

    /// Closes the file. It is to be moved to the path that is given, which
    /// tells the time.
    pub fn rotate(&mut self, now: Duration) -> (r: String)
        requires
            old(self).wf(),
        ensures
            final(self).wf(),
            moved(*old(self), *final(self), now, r@),
    {
        self.file_open = false;
        self.current_size = 0;
        let n = u64_text(now.secs);
        let name = cat3("log-", n.as_str(), ".log");
        join_path(self.log_dir.as_str(), name.as_str())
    }

    /// Puts down whether the file could be opened again.
    pub fn reopened(&mut self, ok: bool)
        requires
            old(self).wf(),
        ensures
            final(self).wf(),
            final(self).kept() == old(self).kept(),
            final(self).log_dir == old(self).log_dir,
            final(self).max_size == old(self).max_size,
            final(self).current_size == old(self).current_size,
            final(self).file_open == ok,
    {
        self.file_open = ok;
    }
}

/// Whether a file is one that was moved aside.
pub open spec fn is_moved_aside(name: Seq<char>) -> bool {
    has_prefix(name, "log-"@) && has_suffix(name, ".log"@)
}

/// Those of `names` that were moved aside.
pub open spec fn moved_aside(names: Seq<Seq<char>>) -> Seq<Seq<char>>
    decreases names.len(),
{
    if names.len() == 0 {
        Seq::empty()
    } else if is_moved_aside(names.last()) {
        moved_aside(names.drop_last()).push(names.last())
    } else {
        moved_aside(names.drop_last())
    }
}

fn select_moved(names: &Vec<String>) -> (r: Vec<String>)
    ensures
        texts(r@) == moved_aside(texts(names@)),
{
    let ghost o = texts(names@);
    let start = chars_of("log-");
    let end = chars_of(".log");
    let mut r: Vec<String> = Vec::new();
    let mut i: usize = 0;
    assert(texts(r@) =~= moved_aside(o.take(0)));
    while i < names.len()
        invariant
            i <= names.len(),
            o == texts(names@),
            start@ == "log-"@,
            end@ == ".log"@,
            texts(r@) == moved_aside(o.take(i as int)),
        decreases names.len() - i,
    {
        let ghost before = texts(r@);
        proof {
            assert(o.take(i + 1).drop_last() =~= o.take(i as int));
            assert(o.take(i + 1).last() == names@[i as int]@);
        }
        let c = chars_of(names[i].as_str());
        if starts_with(&c, &start) && ends_with(&c, &end) {
            r.push(names[i].clone());
            assert(texts(r@) =~= before.push(names@[i as int]@));
        }
        i += 1;
    }
    assert(o.take(o.len() as int) =~= o);
    r
}

/// Whether `gone` are all but the last of the files that were moved aside, in
/// order of their names, with as many left as are kept.
pub open spec fn all_but_last(gone: Seq<Seq<char>>, files: Seq<Seq<char>>) -> bool {
    exists|p: Seq<usize>|
        {
            &&& #[trigger] sorted_places(files, p)
            &&& gone.len() == if files.len() > KEPT_FILES {
                files.len() - KEPT_FILES
            } else {
                0
            }
            &&& forall|i: int| 0 <= i < gone.len() ==> #[trigger] gone[i] == files[p[i] as int]
        }
}

/// The files that are to be removed: of those that were moved aside, by the
/// names in the directory, all but the last by name.
pub fn cleanup_old_logs(names: &Vec<String>) -> (r: Vec<String>)
    ensures
        all_but_last(texts(r@), moved_aside(texts(names@))),
{
    let files = select_moved(names);
    let ghost o = texts(files@);
    let p = sort_places(&files);
    let n: usize = if files.len() > KEPT_FILES {
        files.len() - KEPT_FILES
    } else {
        0
    };
    let mut r: Vec<String> = Vec::new();
    let mut i: usize = 0;
    while i < n
        invariant
            i <= n,
            n <= files.len(),
            o == texts(files@),
            sorted_places(o, p@),
            r@.len() == i,
            forall|k: int| 0 <= k < i ==> #[trigger] texts(r@)[k] == o[p@[k] as int],
        decreases n - i,
    {
        let ghost before = r@;
        let at = p[i];
        assert(p@[i as int] < o.len());
        r.push(files[at].clone());
        assert(r@ =~= before.push(r@[i as int]));
        assert forall|k: int| 0 <= k < i + 1 implies #[trigger] texts(r@)[k] == o[p@[k] as int] by {
            if k < i {
                assert(texts(before)[k] == o[p@[k] as int]);
            }
        }
        i += 1;
    }
    assert(sorted_places(o, p@));
    r
}

/// A number below a hundred, in two digits.
pub open spec fn two_digits(n: nat) -> Seq<char> {
    if n < 10 {
        "0"@ + dec(n)
    } else {
        dec(n)
    }
}

fn padded(n: u64) -> (r: String)
    ensures
        r@ == two_digits(n as nat),
{
    let t = u64_text(n);
    if n < 10 {
        cat("0", t.as_str())
    } else {
        t
    }
}

/// The time of day, by the time since the epoch: hours, minutes and seconds.
pub open spec fn time_of_day(secs: nat) -> Seq<char> {
    two_digits((secs % 86400) / 3600) + ":"@ + two_digits((secs % 3600) / 60) + ":"@ + two_digits(
        secs % 60,
    )
}

/// The time of day.
pub fn humantime(t: Duration) -> (r: String)
    ensures
        r@ == time_of_day(t.secs as nat),
{
    let h = padded((t.secs % 86400) / 3600);
    let m = padded((t.secs % 3600) / 60);
    let s = padded(t.secs % 60);
    let start = cat4(h.as_str(), ":", m.as_str(), ":");
    cat(start.as_str(), s.as_str())
}

/// The line that an entry is written as.
pub open spec fn written_as(
    source: Seq<char>,
    message: Seq<char>,
    now: Duration,
    r: Seq<char>,
) -> bool {
    r == time_of_day(now.secs as nat) + " ["@ + source + "] "@ + message + "\n"@
}

/// The line that an entry is written as.
pub fn log_line(source: &str, message: &str, now: Duration) -> (r: String)
    ensures
        written_as(source@, message@, now, r@),
{
    let t = humantime(now);
    let start = cat4(t.as_str(), " [", source, "] ");
    cat3(start.as_str(), message, "\n")
}

/// The entries after many more.
pub open spec fn all_appended(kept: Seq<Entry>, es: Seq<Entry>) -> Seq<Entry>
    decreases es.len(),
{
    if es.len() == 0 {
        kept
    } else {
        appended(all_appended(kept, es.drop_last()), es.last())
    }
}

proof fn lemma_all_appended(kept: Seq<Entry>, es: Seq<Entry>)
    requires
        es.len() <= MAX_RECENT,
    ensures
        all_appended(kept, es).len() >= es.len(),
        forall|i: int|
            0 <= i < es.len() ==> #[trigger] es[i] == all_appended(kept, es)[all_appended(
                kept,
                es,
            ).len() - es.len() + i],
    decreases es.len(),
{
    if es.len() > 0 {
        let t = es.drop_last();
        lemma_all_appended(kept, t);
        let r = all_appended(kept, t);
        let all = all_appended(kept, es);
        assert forall|i: int| 0 <= i < es.len() implies #[trigger] es[i] == all[all.len() - es.len()
            + i] by {
            if i < t.len() {
                assert(es[i] == t[i]);
                assert(t[i] == r[r.len() - t.len() + i]);
            }
        }
    }
}

/// What was taken down last comes back first: of as many entries as are kept,
/// taken down one after the other, all come back in reverse.
pub proof fn entries_come_back_in_reverse(kept: Seq<Entry>, es: Seq<Entry>)
    requires
        es.len() <= MAX_RECENT,
    ensures
        newest(all_appended(kept, es), es.len()) == es.reverse(),
{
    lemma_all_appended(kept, es);
    let all = all_appended(kept, es);
    let back = newest(all, es.len());
    assert(back.len() == es.len());
    assert forall|i: int| 0 <= i < es.len() implies #[trigger] back[i] == es.reverse()[i] by {
        assert(es[es.len() - 1 - i] == all[all.len() - es.len() + (es.len() - 1 - i)]);
    }
    assert(back =~= es.reverse());
}

/// What taking down an entry does and tells.
pub open spec fn entry_taken_down(
    pre: LogStorage,
    post: LogStorage,
    source: Seq<char>,
    message: Seq<char>,
    now: Duration,
    written: Option<u64>,
    r: bool,
) -> bool {
    &&& post.kept() == appended(
            pre.kept(),
            Entry { timestamp: now, source: source, message: message },
        )
    &&& post.log_dir == pre.log_dir
    &&& post.max_size == pre.max_size
    &&& post.file_open == pre.file_open
    &&& post.current_size == pre.current_size + match written {
            Some(n) if pre.file_open => n,
            _ => 0,
        }
    &&& r == (pre.file_open && post.current_size >= post.max_size)
}

/// What closing the file does, and where it is to be moved.
pub open spec fn moved(
    pre: LogStorage,
    post: LogStorage,
    now: Duration,
    r: Seq<char>,
) -> bool {
    &&& post.kept() == pre.kept()
    &&& post.log_dir == pre.log_dir
    &&& post.max_size == pre.max_size
    &&& !post.file_open
    &&& post.current_size == 0
    &&& r == path_joined(pre.log_dir@, "log-"@ + dec(now.secs as nat) + ".log"@)
}

/// An entry that is taken down is the latest one, with its source, its message
/// and its time. Up to a thousand are kept, and then the oldest goes. The file
/// has grown by what was written, and is to be moved aside just where it is
/// open and as long as it may be.
pub proof fn entry_is_the_latest(
    pre: LogStorage,
    post: LogStorage,
    source: Seq<char>,
    message: Seq<char>,
    now: Duration,
    written: Option<u64>,
    r: bool,
    i: int,
)
    requires
        entry_taken_down(pre, post, source, message, now, written, r),
        pre.wf(),
    ensures
        post.kept().len() > 0,
        post.kept().last().source == source,
        post.kept().last().message == message,
        post.kept().last().timestamp == now,
        pre.kept().len() < 1000 ==> post.kept().len() == pre.kept().len() + 1 && (0 <= i
            < pre.kept().len() ==> post.kept()[i] == pre.kept()[i]),
        pre.kept().len() == 1000 ==> post.kept().len() == 1000 && (0 < i < 1000 ==> post.kept()[i
            - 1] == pre.kept()[i]),
        pre.file_open && written is Some ==> post.current_size == pre.current_size + written->0,
        !pre.file_open || written is None ==> post.current_size == pre.current_size,
        r <==> pre.file_open && post.current_size >= pre.max_size,
{
}

/// The latest entries come back the latest first, as many as are asked for and
/// there are.
pub proof fn latest_entries_come_first(s: Seq<Entry>, n: nat, i: int)
    ensures
        n <= s.len() ==> newest(s, n).len() == n,
        n > s.len() ==> newest(s, n).len() == s.len(),
        0 <= i < newest(s, n).len() ==> newest(s, n)[i] == s[s.len() - 1 - i],
{
}

/// A file that is moved aside is closed, a new one starts from nothing, and its
/// name tells the time; no entry is lost.
pub proof fn moved_file_is_named_by_its_time(
    pre: LogStorage,
    post: LogStorage,
    now: Duration,
    r: Seq<char>,
)
    requires
        moved(pre, post, now, r),
    ensures
        !post.file_open,
        post.current_size == 0,
        post.kept() == pre.kept(),
        r == path_joined(pre.log_dir@, "log-"@ + dec(now.secs as nat) + ".log"@),
        is_moved_aside("log-"@ + dec(now.secs as nat) + ".log"@),
{
    reveal_strlit("log-");
    reveal_strlit(".log");
    let t = "log-"@ + dec(now.secs as nat) + ".log"@;
    assert(t.take(4) =~= "log-"@);
    assert(t.skip(t.len() - 4) =~= ".log"@);
}

/// The time of day tells hours, minutes and seconds, each in two digits.
pub proof fn time_of_day_is_told(d: nat, h: nat, m: nat, s: nat)
    requires
        h < 24,
        m < 60,
        s < 60,
    ensures
        time_of_day(86400 * d + 3600 * h + 60 * m + s) == two_digits(h) + ":"@ + two_digits(m)
            + ":"@ + two_digits(s),
        two_digits(m).len() == 2,
        dec_value(two_digits(m)) == m,
{
    let t = 86400 * d + 3600 * h + 60 * m + s;
    assert(t % 86400 == 3600 * h + 60 * m + s) by (nonlinear_arith)
        requires
            t == 86400 * d + 3600 * h + 60 * m + s,
            h < 24,
            m < 60,
            s < 60,
    ;
    assert((t % 86400) / 3600 == h);
    assert(t % 3600 == 60 * m + s) by (nonlinear_arith)
        requires
            t == 86400 * d + 3600 * h + 60 * m + s,
            h < 24,
            m < 60,
            s < 60,
    ;
    assert((t % 3600) / 60 == m);
    assert(t % 60 == s) by (nonlinear_arith)
        requires
            t == 86400 * d + 3600 * h + 60 * m + s,
            s < 60,
    ;
    lemma_dec(m);
    reveal_strlit("0");
    if m < 10 {
        assert(dec(m).len() == 1);
        let v = two_digits(m);
        assert(v.drop_last() =~= seq!['0']);
        assert(v.drop_last().drop_last() =~= Seq::<char>::empty());
        assert(dec_value(v.drop_last().drop_last()) == 0);
        assert(dec_value(v.drop_last()) == 0);
        assert(v.last() == dec(m)[0]);
        assert(dec(m).drop_last() =~= Seq::<char>::empty());
        assert(dec_value(dec(m).drop_last()) == 0);
    } else {
        assert(dec(m) == dec(m / 10).push(digit(m % 10)));
        assert(dec(m / 10).len() == 1);
    }
}

/// The line of an entry tells when, from whom, and what.
pub proof fn line_tells_when_who_and_what(
    source: Seq<char>,
    message: Seq<char>,
    now: Duration,
    r: Seq<char>,
)
    requires
        written_as(source, message, now, r),
    ensures
        r == time_of_day(now.secs as nat) + " ["@ + source + "] "@ + message + "\n"@,
        has_part(r, source),
        has_part(r, message),
{
    let a = time_of_day(now.secs as nat) + " ["@;
    let b = "] "@;
    let c = message + "\n"@;
    assert(source.skip(0) =~= source && source.take(source.len() as int) =~= source);
    assert(has_prefix(source.skip(0), source));
    part_of_a_part_is_found(a, source, b + c, source);
    assert(r =~= a + source + (b + c));
    assert(message.skip(0) =~= message && message.take(message.len() as int) =~= message);
    assert(has_prefix(message.skip(0), message));
    part_of_a_part_is_found(a + source + b, message, "\n"@, message);
    assert(r =~= a + source + b + message + "\n"@);
}

/// Of the files that were moved aside the last five by name are left, and all
/// before them go.
pub proof fn five_files_are_left(gone: Seq<Seq<char>>, files: Seq<Seq<char>>, i: int)
    requires
        all_but_last(gone, files),
    ensures
        files.len() <= 5 ==> gone.len() == 0,
        files.len() > 5 ==> gone.len() == files.len() - 5,
        0 <= i < gone.len() ==> files.contains(gone[i]),
{
    let p = choose|p: Seq<usize>|
        {
            &&& #[trigger] sorted_places(files, p)
            &&& forall|i: int| 0 <= i < gone.len() ==> #[trigger] gone[i] == files[p[i] as int]
        };
    if 0 <= i < gone.len() {
        assert(p[i] < files.len());
        assert(files[p[i] as int] == gone[i]);
    }
}

proof fn lemma_moved_aside(names: Seq<Seq<char>>, x: Seq<char>)
    ensures
        moved_aside(names).contains(x) <==> names.contains(x) && is_moved_aside(x),
    decreases names.len(),
{
    let v = moved_aside(names);
    if names.len() > 0 {
        let front = names.drop_last();
        let w = moved_aside(front);
        lemma_moved_aside(front, x);
        if v.contains(x) {
            let i = choose|i: int| 0 <= i < v.len() && v[i] == x;
            if i < w.len() {
                assert(w[i] == x);
                let j = choose|j: int| 0 <= j < front.len() && front[j] == x;
                assert(names[j] == x);
            } else {
                assert(names[names.len() - 1] == x);
            }
        }
        if names.contains(x) && is_moved_aside(x) {
            let j = choose|j: int| 0 <= j < names.len() && names[j] == x;
            if j < front.len() {
                assert(front[j] == x);
                let i = choose|i: int| 0 <= i < w.len() && w[i] == x;
                assert(v[i] == x);
            } else {
                assert(v.last() == x);
            }
        }
    }
}

/// Only files that were moved aside are counted, all of them, and by their
/// names: those that start with `log-` and end with `.log`.
pub proof fn moved_files_are_known_by_name(names: Seq<Seq<char>>, x: Seq<char>)
    ensures
        moved_aside(names).contains(x) <==> names.contains(x) && has_prefix(x, "log-"@)
            && has_suffix(x, ".log"@),
{
    lemma_moved_aside(names, x);
}

} // verus!
