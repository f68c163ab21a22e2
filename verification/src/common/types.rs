//! Names and statuses of services.

use crate::text::num::{dec_int, i64_text, lemma_dec, lemma_parse_dec_int, parse_int, parsed_int};
use crate::text::scan::{
    deep, ends_with, has_prefix, has_suffix, is_digit, lemma_find_behind, lemma_find_nowhere,
    parts_of, split_by, starts_with, trim_end, trimmed_end, Class,
};
use crate::text::{cat, chars_of, owned, str_eq};
use vstd::prelude::*;
use vstd::slice::slice_subrange;

verus! {

/// The name of a service, such as "postgresql" or "network.dhcpcd".
#[derive(Debug, Clone, Hash, Eq, PartialEq)]
pub struct ServiceName(pub String);

impl ServiceName {
    /// The name as text.
    pub fn to_string(&self) -> (r: String)
        ensures
            r == self.0,
    {
        self.0.clone()
    }
}

impl<'a> From<&'a str> for ServiceName {
    fn from(s: &'a str) -> (r: Self)
        ensures
            r.0@ == s@,
    {
        ServiceName(owned(s))
    }
}

impl<'a> vstd::std_specs::convert::FromSpecImpl<&'a str> for ServiceName {
    open spec fn obeys_from_spec() -> bool {
        false
    }

    open spec fn from_spec(s: &'a str) -> Self {
        arbitrary()
    }
}

impl From<String> for ServiceName {
    fn from(s: String) -> (r: Self) {
        ServiceName(s)
    }
}

impl vstd::std_specs::convert::FromSpecImpl<String> for ServiceName {
    open spec fn obeys_from_spec() -> bool {
        true
    }

    open spec fn from_spec(s: String) -> Self {
        ServiceName(s)
    }
}

/// The status of a service as the service manager sees it.
#[derive(Debug, Clone, Copy, PartialEq, Eq, Structural)]
pub enum ServiceStatus {
    Stopped,
    Starting,
    WaitingReady,
    Running,
    Stopping,
    Failed { exit_code: Option<i32>, signal: Option<i32> },
    Abandoned,
}

/// A number behind its label, or nothing.
pub open spec fn labelled(label: Seq<char>, n: Option<i32>) -> Seq<char> {
    match n {
        Some(v) => label + dec_int(v as int),
        None => Seq::empty(),
    }
}

impl ServiceStatus {
    /// The status as text.
    pub open spec fn text(self) -> Seq<char> {
        match self {
            ServiceStatus::Stopped => "stopped"@,
            ServiceStatus::Starting => "starting"@,
            ServiceStatus::WaitingReady => "waiting-ready"@,
            ServiceStatus::Running => "running"@,
            ServiceStatus::Stopping => "stopping"@,
            ServiceStatus::Failed { exit_code, signal } => {
                "failed("@ + labelled("exit="@, exit_code) + labelled("signal="@, signal) + ")"@
            },
            ServiceStatus::Abandoned => "abandoned"@,
        }
    }

    /// The status as text.
    pub fn to_string(&self) -> (r: String)
        ensures
            r@ == self.text(),
    {
        match self {
            ServiceStatus::Stopped => owned("stopped"),
            ServiceStatus::Starting => owned("starting"),
            ServiceStatus::WaitingReady => owned("waiting-ready"),
            ServiceStatus::Running => owned("running"),
            ServiceStatus::Stopping => owned("stopping"),
            ServiceStatus::Failed { exit_code, signal } => {
                let mut r = owned("failed(");
                if let Some(code) = exit_code {
                    r.append("exit=");
                    r.append(i64_text(*code as i64).as_str());
                }
                let ghost mid = r@;
                if let Some(sig) = signal {
                    r.append("signal=");
                    r.append(i64_text(*sig as i64).as_str());
                }
                r.append(")");
                assert(mid =~= "failed("@ + labelled("exit="@, *exit_code));
                assert(r@ =~= self.text());
                r
            },
            ServiceStatus::Abandoned => owned("abandoned"),
        }
    }

    /// The status that a text stands for: its own text, or, for a failure,
    /// anything that starts as one does.
    pub fn from_str(s: &str) -> (r: Result<Self, String>)
        ensures
            match r {
                Ok(status) => status_of(s@) == Some(status),
                Err(e) => status_of(s@) is None && e@ == "unknown service status: "@ + s@,
            },
    {
        if str_eq(s, "stopped") {
            Ok(ServiceStatus::Stopped)
        } else if str_eq(s, "starting") {
            Ok(ServiceStatus::Starting)
        } else if str_eq(s, "waiting-ready") {
            Ok(ServiceStatus::WaitingReady)
        } else if str_eq(s, "running") {
            Ok(ServiceStatus::Running)
        } else if str_eq(s, "stopping") {
            Ok(ServiceStatus::Stopping)
        } else if str_eq(s, "abandoned") {
            Ok(ServiceStatus::Abandoned)
        } else {
            let c = chars_of(s);
            let open = chars_of("failed(");
            if starts_with(&c, &open) {
                let rest = slice_subrange(&c, open.len(), c.len());
                let close = chars_of(")");
                let inner = if ends_with(rest, &close) {
                    slice_subrange(rest, 0, rest.len() - close.len())
                } else {
                    slice_subrange(rest, 0, 0)
                };
                proof {
                    assert(rest@ == s@.skip("failed("@.len() as int));
                    assert(inner@ == failure_inner(s@));
                }
                let (exit_code, signal) = failure_codes(inner);
                Ok(ServiceStatus::Failed { exit_code, signal })
            } else {
                Err(cat("unknown service status: ", s))
            }
        }
    }
}

impl std::str::FromStr for ServiceStatus {
    type Err = String;

    fn from_str(s: &str) -> Result<Self, String> {
        ServiceStatus::from_str(s)
    }
}

/// The text between the brackets of a failure, where both are there.
pub open spec fn failure_inner(s: Seq<char>) -> Seq<char> {
    let rest = s.skip("failed("@.len() as int);
    if has_suffix(rest, ")"@) {
        rest.take(rest.len() - ")"@.len())
    } else {
        Seq::empty()
    }
}

/// The number at the start of a text that may go on behind its last digit.
pub open spec fn leading_number(s: Seq<char>) -> Option<i32> {
    match parsed_int(trimmed_end(s, Class::NonDigit), i32::MIN as int, i32::MAX as int) {
        Some(n) => Some(n as i32),
        None => None,
    }
}

/// The exit code and the signal in the parts of a failure: a part that
/// starts with "exit=" gives the first, another that is not empty the second.
pub open spec fn codes_of(parts: Seq<Seq<char>>) -> (Option<i32>, Option<i32>)
    decreases parts.len(),
{
    if parts.len() == 0 {
        (None, None)
    } else {
        let (e, s) = codes_of(parts.drop_last());
        let part = parts.last();
        if has_prefix(part, "exit="@) {
            (leading_number(part.skip("exit="@.len() as int)), s)
        } else if part.len() > 0 {
            (e, leading_number(part))
        } else {
            (e, s)
        }
    }
}

/// The status that a text stands for.
pub open spec fn status_of(s: Seq<char>) -> Option<ServiceStatus> {
    if s == "stopped"@ {
        Some(ServiceStatus::Stopped)
    } else if s == "starting"@ {
        Some(ServiceStatus::Starting)
    } else if s == "waiting-ready"@ {
        Some(ServiceStatus::WaitingReady)
    } else if s == "running"@ {
        Some(ServiceStatus::Running)
    } else if s == "stopping"@ {
        Some(ServiceStatus::Stopping)
    } else if s == "abandoned"@ {
        Some(ServiceStatus::Abandoned)
    } else if has_prefix(s, "failed("@) {
        let (exit_code, signal) = codes_of(parts_of(failure_inner(s), "signal="@));
        Some(ServiceStatus::Failed { exit_code, signal })
    } else {
        None
    }
}

fn read_number(s: &[char]) -> (r: Option<i32>)
    ensures
        r == leading_number(s@),
{
    match parse_int(trim_end(s, Class::NonDigit), i32::MIN as i64, i32::MAX as i64) {
        Some(n) => Some(n as i32),
        None => None,
    }
}

fn failure_codes(inner: &[char]) -> (r: (Option<i32>, Option<i32>))
    ensures
        r == codes_of(parts_of(inner@, "signal="@)),
{
    let mark = chars_of("signal=");
    let label = chars_of("exit=");
    proof {
        reveal_strlit("signal=");
    }
    let parts = split_by(inner, &mark);
    let ghost all = deep(parts@);
    let mut exit_code: Option<i32> = None;
    let mut signal: Option<i32> = None;
    let mut i: usize = 0;
    while i < parts.len()
        invariant
            i <= parts.len(),
            all == deep(parts@),
            label@ == "exit="@,
            (exit_code, signal) == codes_of(all.take(i as int)),
        decreases parts.len() - i,
    {
        let part = &parts[i];
        proof {
            assert(all.take(i + 1).drop_last() =~= all.take(i as int));
            assert(all.take(i + 1).last() == part@);
        }
        if starts_with(part, &label) {
            let rest = slice_subrange(part, label.len(), part.len());
            assert(rest@ == part@.skip(label@.len() as int));
            exit_code = read_number(rest);
        } else if part.len() > 0 {
            signal = read_number(part);
        }
        i += 1;
    }
    assert(all.take(all.len() as int) =~= all);
    (exit_code, signal)
}

proof fn lemma_number_reads_back(n: i32)
    ensures
        leading_number(dec_int(n as int)) == Some(n),
        !dec_int(n as int).contains('s'),
        dec_int(n as int).len() > 0,
        dec_int(n as int)[0] != 'e',
{
    let t = dec_int(n as int);
    let m: nat = if n < 0 {
        (-n) as nat
    } else {
        n as nat
    };
    lemma_dec(m);
    let d = crate::text::num::dec(m);
    assert(is_digit(d[d.len() - 1]));
    assert(t.last() == d[d.len() - 1]);
    assert(trimmed_end(t, Class::NonDigit) == t);
    lemma_parse_dec_int(n as int, i32::MIN as int, i32::MAX as int);
    assert forall|i: int| 0 <= i < t.len() implies t[i] != 's' && t[i] != 'e' by {
        if n < 0 && i > 0 {
            assert(t[i] == d[i - 1]);
            assert(is_digit(d[i - 1]));
        } else if n >= 0 {
            assert(is_digit(d[i]));
        }
    }
}

/// Every status is read back from its text.
pub proof fn status_text_round_trip(status: ServiceStatus)
    ensures
        status_of(status.text()) == Some(status),
{
    reveal_strlit("stopped");
    reveal_strlit("starting");
    reveal_strlit("waiting-ready");
    reveal_strlit("running");
    reveal_strlit("stopping");
    reveal_strlit("abandoned");
    reveal_strlit("failed(");
    reveal_strlit(")");
    reveal_strlit("exit=");
    reveal_strlit("signal=");
    assert("stopped"@.len() == 7 && "stopped"@[0] == 's');
    assert("starting"@.len() == 8 && "starting"@[2] == 'a');
    assert("waiting-ready"@.len() == 13);
    assert("running"@.len() == 7 && "running"@[0] == 'r');
    assert("stopping"@.len() == 8 && "stopping"@[2] == 'o');
    assert("abandoned"@.len() == 9 && "abandoned"@[0] == 'a');
    if let ServiceStatus::Failed { exit_code, signal } = status {
        let a = labelled("exit="@, exit_code);
        let b = labelled("signal="@, signal);
        let s = status.text();
        assert(s[0] == 'f');
        assert("waiting-ready"@[0] == 'w' && "starting"@[0] == 's' && "stopping"@[0] == 's');
        assert(has_prefix(s, "failed("@)) by {
            assert(s.take(7) =~= "failed("@);
        }
        assert(failure_inner(s) =~= a + b) by {
            let rest = s.skip(7);
            assert(rest =~= a + b + ")"@);
            assert(rest.skip(rest.len() - 1) =~= ")"@);
            assert(rest.take(rest.len() - 1) =~= a + b);
        }
        if let Some(e) = exit_code {
            lemma_number_reads_back(e);
        }
        if let Some(g) = signal {
            lemma_number_reads_back(g);
        }
        assert(!a.contains('s')) by {
            if a.contains('s') {
                let k = choose|k: int| 0 <= k < a.len() && a[k] == 's';
                if k >= 5 {
                    assert(dec_int(exit_code->0 as int)[k - 5] == 's');
                    assert(dec_int(exit_code->0 as int).contains('s'));
                }
            }
        }
        if let Some(e) = exit_code {
            assert(has_prefix(a, "exit="@)) by {
                assert(a.take(5) =~= "exit="@);
            }
            assert(a.skip(5) =~= dec_int(e as int));
        }
        let first = codes_of(seq![a]);
        assert(seq![a].drop_last() =~= Seq::<Seq<char>>::empty());
        assert(codes_of(Seq::<Seq<char>>::empty()) == (None::<i32>, None::<i32>));
        assert(seq![a].last() == a);
        assert(first == (exit_code, None::<i32>)) by {
            match exit_code {
                Some(e) => {
                    assert(leading_number(a.skip("exit="@.len() as int)) == Some(e));
                },
                None => {
                    assert(a.len() == 0);
                },
            }
        }
        match signal {
            None => {
                assert(a + b =~= a);
                lemma_find_nowhere(a, "signal="@);
            },
            Some(g) => {
                let d = dec_int(g as int);
                assert(a + b =~= a + "signal="@ + d);
                lemma_find_behind(a, "signal="@, d);
                lemma_find_nowhere(d, "signal="@);
                let parts = seq![a] + seq![d];
                assert(parts.drop_last() =~= seq![a]);
                assert(parts.last() == d);
                assert(!has_prefix(d, "exit="@)) by {
                    if has_prefix(d, "exit="@) {
                        assert(d.take(5)[0] == 'e');
                    }
                }
            },
        }
    }
}

} // verus!
