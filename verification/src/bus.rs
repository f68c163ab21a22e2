//! Object paths and errors on the message bus.

use crate::text::num::{hex_digit_value, hex_value};
use crate::text::owned;
use crate::text::scan::is_digit;
use vstd::prelude::*;
use vstd::utf8::{encode_utf8, encode_utf8_decode_utf8};

verus! {

/// An error that is sent back to a caller on the bus.
#[derive(Debug, PartialEq, Eq)]
pub enum BusError {
    Failed(String),
    InvalidArgs(String),
}

impl BusError {
    /// Whether the error is a failure with this text.
    pub open spec fn failed_with(self, text: Seq<char>) -> bool {
        self matches BusError::Failed(m) && m@ == text
    }

    /// Whether the error is about an argument, with this text.
    pub open spec fn invalid_with(self, text: Seq<char>) -> bool {
        self matches BusError::InvalidArgs(m) && m@ == text
    }
}

/// The characters of the names on an object path.
pub open spec fn is_path_char(c: char) -> bool {
    'a' <= c <= 'z' || 'A' <= c <= 'Z' || '0' <= c <= '9' || c == '_'
}

/// Whether a text is an object path: it starts with a slash, ends in none
/// unless it is one, has no two in a row, and consists of slashes, letters,
/// digits and underscores.
pub open spec fn valid_object_path(s: Seq<char>) -> bool {
    &&& s.len() > 0
    &&& s[0] == '/'
    &&& s.len() == 1 || s.last() != '/'
    &&& forall|i: int| 0 <= i < s.len() ==> is_path_char(#[trigger] s[i]) || s[i] == '/'
    &&& forall|i: int, j: int|
        0 <= i && j == i + 1 && j < s.len() ==> !(#[trigger] s[i] == '/' && #[trigger] s[j] == '/')
}

/// `OwnedObjectPath::try_from` of the crate `zvariant`, which `zbus` hands on:
/// takes a text for an object path just where it is one, and leaves it as it
/// is. The error of any other text reads "Invalid object path".
#[verifier::external_body]
fn checked_path(path: String) -> (r: Result<String, String>)
    ensures
        match r {
            Ok(p) => valid_object_path(path@) && p@ == path@,
            Err(e) => !valid_object_path(path@) && e@ == "Invalid object path"@,
        },
{
    match zbus::zvariant::OwnedObjectPath::try_from(path) {
        Ok(p) => Ok(p.as_str().to_string()),
        Err(e) => Err(e.to_string()),
    }
}

/// A text as an object path.
pub fn object_path(path: String) -> (r: Result<String, BusError>)
    ensures
        match r {
            Ok(p) => valid_object_path(path@) && p@ == path@,
            Err(e) => !valid_object_path(path@) && e.failed_with("Invalid object path"@),
        },
{
    match checked_path(path) {
        Ok(p) => Ok(p),
        Err(e) => Err(BusError::Failed(e)),
    }
}

/// The hexadecimal digit with the value `d`.
pub open spec fn hex_digit(d: int) -> char {
    if d < 10 {
        (d + 48) as u8 as char
    } else {
        (d + 87) as u8 as char
    }
}

/// An underscore and the two hexadecimal digits of a byte.
pub open spec fn hex_escape(b: u8) -> Seq<char> {
    seq!['_', hex_digit(b as int / 16), hex_digit(b as int % 16)]
}

/// The bytes of `b`, each as an escape.
pub open spec fn all_escaped(b: Seq<u8>) -> Seq<char>
    decreases b.len(),
{
    if b.len() == 0 {
        Seq::empty()
    } else {
        all_escaped(b.drop_last()) + hex_escape(b.last())
    }
}

/// Whether a byte is an ASCII letter or digit, or an underscore.
pub open spec fn is_label_byte(b: u8) -> bool {
    97 <= b <= 122 || 65 <= b <= 90 || 48 <= b <= 57 || b == 95
}

/// The bytes of `b`: letters, digits and underscores as they are, all others
/// as escapes.
pub open spec fn some_escaped(b: Seq<u8>) -> Seq<char>
    decreases b.len(),
{
    if b.len() == 0 {
        Seq::empty()
    } else {
        some_escaped(b.drop_last()) + if is_label_byte(b.last()) {
            seq![b.last() as char]
        } else {
            hex_escape(b.last())
        }
    }
}

/// A text with every byte as an escape; an underscore for the empty text.
pub open spec fn fully_escaped(s: Seq<char>) -> Seq<char> {
    if s.len() == 0 {
        "_"@
    } else {
        all_escaped(encode_utf8(s))
    }
}

/// A text with every byte but letters, digits and underscores as an escape;
/// an underscore for the empty text.
pub open spec fn lightly_escaped(s: Seq<char>) -> Seq<char> {
    if s.len() == 0 {
        "_"@
    } else {
        some_escaped(encode_utf8(s))
    }
}

fn hex_char(d: u8) -> (c: char)
    requires
        d < 16,
    ensures
        c == hex_digit(d as int),
{
    if d < 10 {
        (d + 48) as char
    } else {
        (d + 87) as char
    }
}

fn push_escape(out: &mut String, b: u8)
    ensures
        final(out)@ == old(out)@ + hex_escape(b),
{
    out.push('_');
    out.push(hex_char(b / 16));
    out.push(hex_char(b % 16));
    assert(out@ =~= old(out)@ + hex_escape(b));
}

proof fn lemma_empty_bytes(s: Seq<char>)
    ensures
        s.len() == 0 <==> encode_utf8(s).len() == 0,
{
    encode_utf8_decode_utf8(s);
}

/// Escapes every byte of a text.
pub fn escape_fully(s: &str) -> (r: String)
    ensures
        r@ == fully_escaped(s@),
{
    proof {
        lemma_empty_bytes(s@);
    }
    let b = s.as_bytes();
    if b.len() == 0 {
        return owned("_");
    }
    let mut out = String::new();
    let mut i: usize = 0;
    while i < b.len()
        invariant
            i <= b.len(),
            out@ == all_escaped(b@.take(i as int)),
        decreases b.len() - i,
    {
        assert(b@.take(i + 1).drop_last() =~= b@.take(i as int));
        push_escape(&mut out, b[i]);
        i += 1;
    }
    assert(b@.take(b@.len() as int) =~= b@);
    out
}

/// Escapes every byte of a text but letters, digits and underscores.
pub fn escape_lightly(s: &str) -> (r: String)
    ensures
        r@ == lightly_escaped(s@),
{
    proof {
        lemma_empty_bytes(s@);
    }
    let b = s.as_bytes();
    if b.len() == 0 {
        return owned("_");
    }
    let mut out = String::new();
    let mut i: usize = 0;
    while i < b.len()
        invariant
            i <= b.len(),
            out@ == some_escaped(b@.take(i as int)),
        decreases b.len() - i,
    {
        assert(b@.take(i + 1).drop_last() =~= b@.take(i as int));
        let c = b[i];
        let ghost before = out@;
        if (97 <= c && c <= 122) || (65 <= c && c <= 90) || (48 <= c && c <= 57) || c == 95 {
            out.push(c as char);
            assert(out@ =~= before + seq![c as char]);
        } else {
            push_escape(&mut out, c);
        }
        i += 1;
    }
    assert(b@.take(b@.len() as int) =~= b@);
    out
}

/// Whether a text can be a name on an object path.
pub open spec fn is_path_name(s: Seq<char>) -> bool {
    s.len() > 0 && forall|i: int| 0 <= i < s.len() ==> is_path_char(#[trigger] s[i])
}

proof fn lemma_hex_digit(d: int)
    requires
        0 <= d < 16,
    ensures
        is_path_char(hex_digit(d)),
        hex_digit(d) as int == if d < 10 {
            d + 48
        } else {
            d + 87
        },
{
}

proof fn lemma_escape_chars(b: u8)
    ensures
        forall|i: int| 0 <= i < 3 ==> is_path_char(#[trigger] hex_escape(b)[i]),
        is_label_byte(b) ==> is_path_char(b as char),
{
    lemma_hex_digit(b as int / 16);
    lemma_hex_digit(b as int % 16);
}

proof fn lemma_all_escaped(b: Seq<u8>)
    ensures
        all_escaped(b).len() == 3 * b.len(),
        forall|i: int| 0 <= i < all_escaped(b).len() ==> is_path_char(#[trigger] all_escaped(b)[i]),
    decreases b.len(),
{
    if b.len() > 0 {
        lemma_all_escaped(b.drop_last());
        lemma_escape_chars(b.last());
        let p = all_escaped(b.drop_last());
        assert forall|i: int| 0 <= i < all_escaped(b).len() implies is_path_char(
            #[trigger] all_escaped(b)[i],
        ) by {
            if i < p.len() {
                assert(all_escaped(b)[i] == p[i]);
            } else {
                assert(all_escaped(b)[i] == hex_escape(b.last())[i - p.len()]);
            }
        }
    }
}

proof fn lemma_some_escaped(b: Seq<u8>)
    ensures
        some_escaped(b).len() >= b.len(),
        forall|i: int| 0 <= i < some_escaped(b).len() ==> is_path_char(#[trigger] some_escaped(b)[i]),
    decreases b.len(),
{
    if b.len() > 0 {
        lemma_some_escaped(b.drop_last());
        lemma_escape_chars(b.last());
        let p = some_escaped(b.drop_last());
        assert forall|i: int| 0 <= i < some_escaped(b).len() implies is_path_char(
            #[trigger] some_escaped(b)[i],
        ) by {
            if i < p.len() {
                assert(some_escaped(b)[i] == p[i]);
            } else if !is_label_byte(b.last()) {
                assert(some_escaped(b)[i] == hex_escape(b.last())[i - p.len()]);
            }
        }
    }
}

/// Whatever is escaped can be a name on an object path.
pub proof fn escapes_are_path_names(s: Seq<char>)
    ensures
        is_path_name(fully_escaped(s)),
        is_path_name(lightly_escaped(s)),
{
    lemma_empty_bytes(s);
    reveal_strlit("_");
    if s.len() > 0 {
        lemma_all_escaped(encode_utf8(s));
        lemma_some_escaped(encode_utf8(s));
    }
}

/// A name below an object path that ends in a slash makes an object path.
pub proof fn lemma_path_below(base: Seq<char>, name: Seq<char>)
    requires
        base.len() > 2,
        base.last() == '/',
        valid_object_path(base.drop_last()),
        is_path_name(name),
    ensures
        valid_object_path(base + name),
{
    let s = base + name;
    let n = base.len() as int;
    let b = base.drop_last();
    assert(s.last() == name[name.len() - 1]);
    assert(s[0] == b[0]);
    assert forall|i: int| 0 <= i < s.len() implies is_path_char(#[trigger] s[i]) || s[i] == '/' by {
        if i < n - 1 {
            assert(s[i] == b[i]);
        } else if i >= n {
            assert(s[i] == name[i - n]);
        }
    }
    assert forall|i: int, j: int| 0 <= i && j == i + 1 && j < s.len() implies !(#[trigger] s[i] == '/'
        && #[trigger] s[j] == '/') by {
        if j < n - 1 {
            assert(s[i] == b[i] && s[j] == b[j]);
        } else if j == n - 1 {
            assert(s[i] == b[i]);
            assert(b.last() == b[n - 2]);
        } else {
            assert(s[j] == name[j - n]);
        }
    }
}

proof fn lemma_all_escaped_injective(a: Seq<u8>, b: Seq<u8>)
    requires
        all_escaped(a) == all_escaped(b),
    ensures
        a == b,
    decreases a.len(),
{
    lemma_all_escaped(a);
    lemma_all_escaped(b);
    if a.len() > 0 {
        let n = all_escaped(a).len() as int;
        let x = a.last() as int;
        let y = b.last() as int;
        let pa = all_escaped(a.drop_last());
        let pb = all_escaped(b.drop_last());
        lemma_all_escaped(a.drop_last());
        lemma_all_escaped(b.drop_last());
        assert(all_escaped(a)[n - 1] == hex_digit(x % 16));
        assert(all_escaped(b)[n - 1] == hex_digit(y % 16));
        assert(all_escaped(a)[n - 2] == hex_digit(x / 16));
        assert(all_escaped(b)[n - 2] == hex_digit(y / 16));
        lemma_hex_digit(x % 16);
        lemma_hex_digit(y % 16);
        lemma_hex_digit(x / 16);
        lemma_hex_digit(y / 16);
        assert(x == y);
        assert(pa =~= all_escaped(a).take(n - 3));
        assert(pb =~= all_escaped(b).take(n - 3));
        lemma_all_escaped_injective(a.drop_last(), b.drop_last());
        assert(a =~= a.drop_last().push(a.last()));
        assert(b =~= b.drop_last().push(b.last()));
    } else {
        assert(a =~= b);
    }
}

/// Different texts have different full escapes.
pub proof fn full_escape_is_injective(s: Seq<char>, t: Seq<char>)
    requires
        fully_escaped(s) == fully_escaped(t),
    ensures
        s == t,
{
    lemma_empty_bytes(s);
    lemma_empty_bytes(t);
    reveal_strlit("_");
    lemma_all_escaped(encode_utf8(s));
    lemma_all_escaped(encode_utf8(t));
    if s.len() == 0 || t.len() == 0 {
        assert("_"@.len() == 1);
        assert(s =~= t);
    } else {
        lemma_all_escaped_injective(encode_utf8(s), encode_utf8(t));
        encode_utf8_decode_utf8(s);
        encode_utf8_decode_utf8(t);
    }
}

/// Where the sessions are found.
pub const SESSION_BASE: &'static str = "/org/freedesktop/login1/session/";

/// Where the seats are found.
pub const SEAT_BASE: &'static str = "/org/freedesktop/login1/seat/";

/// Where the users are found.
pub const USER_BASE: &'static str = "/org/freedesktop/login1/user/";

/// Where the units are found.
pub const UNIT_BASE: &'static str = "/org/freedesktop/systemd1/unit/";

/// Whether names put behind `s` make object paths.
pub open spec fn is_base(s: Seq<char>) -> bool {
    s.len() > 2 && s.last() == '/' && valid_object_path(s.drop_last())
}

proof fn lemma_session_base()
    ensures
        is_base(SESSION_BASE@),
{
    reveal_strlit("/org/freedesktop/login1/session/");
    let s = SESSION_BASE@.drop_last();
    assert forall|i: int| 0 <= i < s.len() implies is_path_char(#[trigger] s[i]) || s[i] == '/' by {}
    assert forall|i: int, j: int| 0 <= i && j == i + 1 && j < s.len() implies !(#[trigger] s[i] == '/'
        && #[trigger] s[j] == '/') by {}
}

proof fn lemma_seat_base()
    ensures
        is_base(SEAT_BASE@),
{
    reveal_strlit("/org/freedesktop/login1/seat/");
    let s = SEAT_BASE@.drop_last();
    assert forall|i: int| 0 <= i < s.len() implies is_path_char(#[trigger] s[i]) || s[i] == '/' by {}
    assert forall|i: int, j: int| 0 <= i && j == i + 1 && j < s.len() implies !(#[trigger] s[i] == '/'
        && #[trigger] s[j] == '/') by {}
}

proof fn lemma_user_base()
    ensures
        is_base(USER_BASE@),
{
    reveal_strlit("/org/freedesktop/login1/user/");
    let s = USER_BASE@.drop_last();
    assert forall|i: int| 0 <= i < s.len() implies is_path_char(#[trigger] s[i]) || s[i] == '/' by {}
    assert forall|i: int, j: int| 0 <= i && j == i + 1 && j < s.len() implies !(#[trigger] s[i] == '/'
        && #[trigger] s[j] == '/') by {}
}

proof fn lemma_unit_base()
    ensures
        is_base(UNIT_BASE@),
{
    reveal_strlit("/org/freedesktop/systemd1/unit/");
    let s = UNIT_BASE@.drop_last();
    assert forall|i: int| 0 <= i < s.len() implies is_path_char(#[trigger] s[i]) || s[i] == '/' by {}
    assert forall|i: int, j: int| 0 <= i && j == i + 1 && j < s.len() implies !(#[trigger] s[i] == '/'
        && #[trigger] s[j] == '/') by {}
}

/// Every session, seat, user and unit has an object path, whatever its name.
pub proof fn object_paths_are_valid(s: Seq<char>)
    ensures
        valid_object_path(SESSION_BASE@ + fully_escaped(s)),
        valid_object_path(SEAT_BASE@ + lightly_escaped(s)),
        valid_object_path(USER_BASE@ + fully_escaped(s)),
        valid_object_path(UNIT_BASE@ + lightly_escaped(s)),
{
    lemma_session_base();
    lemma_seat_base();
    lemma_user_base();
    lemma_unit_base();
    escapes_are_path_names(s);
    lemma_path_below(SESSION_BASE@, fully_escaped(s));
    lemma_path_below(SEAT_BASE@, lightly_escaped(s));
    lemma_path_below(USER_BASE@, fully_escaped(s));
    lemma_path_below(UNIT_BASE@, lightly_escaped(s));
}

/// The objects of sessions, seats, users and units lie below their own places.
pub proof fn objects_lie_below_their_places()
    ensures
        SESSION_BASE@ == "/org/freedesktop/login1/session/"@,
        SEAT_BASE@ == "/org/freedesktop/login1/seat/"@,
        USER_BASE@ == "/org/freedesktop/login1/user/"@,
        UNIT_BASE@ == "/org/freedesktop/systemd1/unit/"@,
{
}

/// The escape of a byte is an underscore and two digits, which read back as the
/// byte in base sixteen; letters are small.
pub proof fn escape_is_the_byte_in_hexadecimal(b: u8)
    ensures
        hex_escape(b).len() == 3,
        hex_escape(b)[0] == '_',
        hex_value(hex_escape(b).skip(1)) == Some(b as nat),
        forall|i: int| 1 <= i < 3 ==> is_digit(#[trigger] hex_escape(b)[i]) || 'a' <= hex_escape(
            b,
        )[i] <= 'f',
{
    let e = hex_escape(b);
    let (h, l) = (b as int / 16, b as int % 16);
    lemma_hex_digit_reads(h);
    lemma_hex_digit_reads(l);
    let s = e.skip(1);
    assert(s =~= seq![hex_digit(h), hex_digit(l)]);
    let t = s.drop_last();
    assert(t =~= seq![hex_digit(h)]);
    assert(t.drop_last() =~= Seq::<char>::empty());
    assert(hex_value(t.drop_last()) == Some(0nat));
    assert(hex_value(t) == Some(h as nat));
    assert(hex_value(s) == Some((16 * h + l) as nat));
}

proof fn lemma_hex_digit_reads(d: int)
    requires
        0 <= d < 16,
    ensures
        hex_digit_value(hex_digit(d)) == Some(d as nat),
        is_digit(hex_digit(d)) || 'a' <= hex_digit(d) <= 'f',
{
}

} // verus!
