//! Where the log daemon's entries come from.

use crate::text::scan::{lemma_find_is, split_once, split_pair};
use crate::text::{chars_of, owned, string_of};
use vstd::prelude::*;

verus! {

/// The socket on which entries come in.
pub const LOG_SOCK: &'static str = "/run/dynamod/log.sock";

/// The source of an entry that came in from the standard input.
pub const STDIN_SOURCE: &'static str = "stdin";

/// The source of an entry that came in on the socket without one.
pub const SOCKET_SOURCE: &'static str = "socket";

/// What a line from the standard input is taken as.
pub open spec fn line_collected(
    line: Seq<char>,
    r: Option<(String, String)>,
) -> bool {
    match r {
        Some(e) => line.len() > 0 && e.0@ == STDIN_SOURCE@ && e.1@ == line,
        None => line.len() == 0,
    }
}

/// The source and the message of a line from the standard input. Empty lines
/// are dropped.
pub fn collect_stdin(line: &str) -> (r: Option<(String, String)>)
    ensures
        line_collected(line@, r),
{
    let c = chars_of(line);
    if c.len() == 0 {
        None
    } else {
        Some((owned(STDIN_SOURCE), owned(line)))
    }
}

/// The source and the message of a datagram: what stands before the first
/// tab, and what stands behind it.
pub open spec fn datagram_entry(text: Seq<char>) -> (Seq<char>, Seq<char>) {
    match split_pair(text, '\t') {
        Some((source, message)) => (source, message),
        None => (SOCKET_SOURCE@, text),
    }
}

/// The source and the message of a datagram on the socket.
pub fn collect_socket(text: &str) -> (r: (String, String))
    ensures
        (r.0@, r.1@) == datagram_entry(text@),
{
    let c = chars_of(text);
    match split_once(&c, '\t') {
        Some((a, b)) => (string_of(a), string_of(b)),
        None => (owned(SOCKET_SOURCE), owned(text)),
    }
}

/// A line of output that the service manager sends on comes in as it was,
/// under the name of the service.
pub proof fn sent_line_comes_in(service: Seq<char>, line: Seq<char>)
    requires
        !service.contains('\t'),
    ensures
        datagram_entry(service + "\t"@ + line) == (service, line),
{
    reveal_strlit("\t");
    let m = service + "\t"@ + line;
    assert(m[service.len() as int] == '\t');
    assert forall|j: int| 0 <= j < service.len() implies m[j] != '\t' by {
        assert(m[j] == service[j]);
        assert(service.contains(service[j]));
    }
    crate::text::scan::lemma_find_is(m, '\t', service.len() as int);
    assert(m.take(service.len() as int) =~= service);
    assert(m.skip(service.len() as int + 1) =~= line);
}

/// A line from the standard input that is not empty is a message from there. A
/// datagram without a tab is a message from the socket.
pub proof fn lines_come_in_as_they_are(line: Seq<char>, r: Option<(String, String)>)
    requires
        line_collected(line, r),
    ensures
        r is Some <==> line.len() > 0,
        r is Some ==> (r->0).0@ == "stdin"@ && (r->0).1@ == line,
        !line.contains('\t') ==> datagram_entry(line) == ("socket"@, line),
{
    if !line.contains('\t') {
        assert forall|j: int| 0 <= j < line.len() implies line[j] != '\t' by {
            assert(line.contains(line[j]));
        }
        lemma_find_is(line, '\t', line.len() as int);
    }
}

} // verus!
