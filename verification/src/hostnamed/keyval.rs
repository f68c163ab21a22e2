//! Files of keys and values: on each line a key, an equals sign and a value,
//! which may stand in quotes.

use crate::text::file::{
    each_on_one_line, lemma_joined_is_terminated, lemma_lines_are_lines, lines_of_terminated,
    on_one_line,
};
use crate::text::scan::{
    deep, has_prefix, lines, lines_of, starts_with, trim_by, trimmed, trimmed_end, trimmed_start,
    without_cr, Class,
};
use crate::text::{cat, cat4, chars_of, join, joined, opt_text, string_of, texts};
use vstd::prelude::*;
use vstd::slice::slice_subrange;

verus! {

/// A value without the quotes around it.
pub open spec fn unquoted(s: Seq<char>) -> Seq<char> {
    trimmed(s, Class::Only('"'))
}

/// The start of a line with a key.
pub open spec fn key_start(key: Seq<char>) -> Seq<char> {
    key + "="@
}

/// The value of a key: on the first line that has it.
pub open spec fn field_of(ls: Seq<Seq<char>>, key: Seq<char>) -> Option<Seq<char>>
    decreases ls.len(),
{
    if ls.len() == 0 {
        None
    } else if has_prefix(ls[0], key_start(key)) {
        Some(unquoted(ls[0].skip(key_start(key).len() as int)))
    } else {
        field_of(ls.drop_first(), key)
    }
}

/// The first line that has a key.
pub open spec fn line_of(ls: Seq<Seq<char>>, key: Seq<char>) -> Option<Seq<char>>
    decreases ls.len(),
{
    if ls.len() == 0 {
        None
    } else if has_prefix(ls[0], key_start(key)) {
        Some(ls[0])
    } else {
        line_of(ls.drop_first(), key)
    }
}

/// The value of a key in a file, if the file is there and has the key.
pub open spec fn file_field(content: Option<&str>, key: Seq<char>) -> Option<Seq<char>> {
    match content {
        Some(c) => field_of(lines_of(c@), key),
        None => None,
    }
}

/// The value of a key in a file, if the file is there and has the key.
pub fn read_field(content: Option<&str>, key: &str) -> (r: Option<String>)
    ensures
        opt_text(r) == file_field(content, key@),
{
    let text = match content {
        Some(c) => chars_of(c),
        None => {
            return None;
        },
    };
    let start = chars_of(cat(key, "=").as_str());
    let ls = lines(&text);
    let ghost all = lines_of(text@);
    let mut i: usize = 0;
    assert(all.skip(0) =~= all);
    while i < ls.len()
        invariant
            i <= ls.len(),
            start@ == key_start(key@),
            deep(ls@) == all,
            field_of(all.skip(i as int), key@) == file_field(content, key@),
        decreases ls.len() - i,
    {
        proof {
            assert(all[i as int] == ls@[i as int]@);
            assert(all.skip(i as int)[0] == all[i as int]);
            assert(all.skip(i as int).drop_first() =~= all.skip(i + 1));
        }
        let line = &ls[i];
        if starts_with(line, &start) {
            let rest = slice_subrange(line.as_slice(), start.len(), line.len());
            assert(rest@ =~= all[i as int].skip(start@.len() as int));
            let value = trim_by(rest, Class::Only('"'));
            return Some(string_of(value));
        }
        i += 1;
    }
    None
}

/// The lines that do not start with `p`.
pub open spec fn lines_without(ls: Seq<Seq<char>>, p: Seq<char>) -> Seq<Seq<char>>
    decreases ls.len(),
{
    if ls.len() == 0 {
        Seq::empty()
    } else if has_prefix(ls.last(), p) {
        lines_without(ls.drop_last(), p)
    } else {
        lines_without(ls.drop_last(), p).push(ls.last())
    }
}

/// The line of a key and a value in quotes.
pub open spec fn quoted_line(key: Seq<char>, value: Seq<char>) -> Seq<char> {
    key_start(key) + "\""@ + value + "\""@
}

/// The lines of a file after a key was given a value, or none where the value
/// is empty.
pub open spec fn updated_lines(
    ls: Seq<Seq<char>>,
    key: Seq<char>,
    value: Seq<char>,
) -> Seq<Seq<char>> {
    let rest = lines_without(ls, key_start(key));
    if value.len() > 0 {
        rest.push(quoted_line(key, value))
    } else {
        rest
    }
}

/// A file after a key was given a value.
pub open spec fn updated(content: Seq<char>, key: Seq<char>, value: Seq<char>) -> Seq<char> {
    joined(updated_lines(lines_of(content), key, value), "\n"@) + "\n"@
}

/// A file after a key was given a value; a file that is not there is empty.
pub fn update(content: Option<&str>, key: &str, value: &str) -> (r: String)
    ensures
        r@ == updated(
            match content {
                Some(c) => c@,
                None => Seq::empty(),
            },
            key@,
            value@,
        ),
{
    let text = match content {
        Some(c) => chars_of(c),
        None => Vec::new(),
    };
    let start = chars_of(cat(key, "=").as_str());
    let ls = lines(&text);
    let ghost all = lines_of(text@);
    let mut kept: Vec<String> = Vec::new();
    let mut i: usize = 0;
    assert(texts(kept@) =~= lines_without(all.take(0), start@));
    while i < ls.len()
        invariant
            i <= ls.len(),
            start@ == key_start(key@),
            deep(ls@) == all,
            texts(kept@) == lines_without(all.take(i as int), start@),
        decreases ls.len() - i,
    {
        let ghost before = texts(kept@);
        proof {
            assert(all.take(i + 1).drop_last() =~= all.take(i as int));
            assert(all.take(i + 1).last() == ls@[i as int]@);
        }
        if !starts_with(&ls[i], &start) {
            kept.push(string_of(&ls[i]));
            assert(texts(kept@) =~= before.push(ls@[i as int]@));
        }
        i += 1;
    }
    assert(all.take(all.len() as int) =~= all);
    if chars_of(value).len() > 0 {
        let ghost before = texts(kept@);
        let line = cat4(key, "=\"", value, "\"");
        proof {
            reveal_strlit("=\"");
            reveal_strlit("=");
            reveal_strlit("\"");
            assert("=\""@ =~= "="@ + "\""@);
            assert(line@ =~= quoted_line(key@, value@));
        }
        kept.push(line);
        assert(texts(kept@) =~= before.push(quoted_line(key@, value@)));
    }
    let body = join(&kept, "\n");
    cat(body.as_str(), "\n")
}

proof fn lemma_lines_without(ls: Seq<Seq<char>>, p: Seq<char>)
    requires
        each_on_one_line(ls),
    ensures
        each_on_one_line(lines_without(ls, p)),
        forall|i: int|
            0 <= i < lines_without(ls, p).len() ==> !has_prefix(
                #[trigger] lines_without(ls, p)[i],
                p,
            ),
        forall|i: int|
            0 <= i < lines_without(ls, p).len() ==> ls.contains(#[trigger] lines_without(ls, p)[i]),
    decreases ls.len(),
{
    if ls.len() > 0 {
        let t = ls.drop_last();
        assert forall|i: int| 0 <= i < t.len() implies on_one_line(#[trigger] t[i]) by {
            assert(t[i] == ls[i]);
        }
        lemma_lines_without(t, p);
        let w = lines_without(t, p);
        let v = lines_without(ls, p);
        assert(on_one_line(ls[ls.len() - 1]));
        assert forall|i: int| 0 <= i < v.len() implies on_one_line(#[trigger] v[i]) && !has_prefix(
            v[i],
            p,
        ) && ls.contains(v[i]) by {
            if i < w.len() {
                assert(v[i] == w[i]);
                let k = choose|k: int| 0 <= k < t.len() && t[k] == w[i];
                assert(ls[k] == v[i]);
            } else {
                assert(v[i] == ls.last());
                assert(ls[ls.len() - 1] == v[i]);
            }
        }
    }
}

proof fn lemma_prefix_without_cr(l: Seq<char>, p: Seq<char>)
    requires
        !has_prefix(l, p),
    ensures
        !has_prefix(without_cr(l), p),
{
    let m = without_cr(l);
    if has_prefix(m, p) {
        assert(l.take(p.len() as int) =~= m.take(p.len() as int));
    }
}

/// A field that only the last of the lines has.
proof fn lemma_field_last(ls: Seq<Seq<char>>, key: Seq<char>)
    requires
        ls.len() > 0,
        forall|i: int| 0 <= i < ls.len() - 1 ==> !has_prefix(#[trigger] ls[i], key_start(key)),
        has_prefix(ls.last(), key_start(key)),
    ensures
        field_of(ls, key) == Some(unquoted(ls.last().skip(key_start(key).len() as int))),
    decreases ls.len(),
{
    if ls.len() > 1 {
        let t = ls.drop_first();
        assert forall|i: int| 0 <= i < t.len() - 1 implies !has_prefix(
            #[trigger] t[i],
            key_start(key),
        ) by {
            assert(t[i] == ls[i + 1]);
        }
        lemma_field_last(t, key);
        assert(!has_prefix(ls[0], key_start(key)));
    }
}

proof fn lemma_field_nowhere(ls: Seq<Seq<char>>, key: Seq<char>)
    requires
        forall|i: int| 0 <= i < ls.len() ==> !has_prefix(#[trigger] ls[i], key_start(key)),
    ensures
        field_of(ls, key) is None,
    decreases ls.len(),
{
    if ls.len() > 0 {
        let t = ls.drop_first();
        assert forall|i: int| 0 <= i < t.len() implies !has_prefix(
            #[trigger] t[i],
            key_start(key),
        ) by {
            assert(t[i] == ls[i + 1]);
        }
        lemma_field_nowhere(t, key);
        assert(!has_prefix(ls[0], key_start(key)));
    }
}

/// Quotes put around a value that neither starts nor ends with one come off
/// again.
pub proof fn lemma_unquoted(value: Seq<char>)
    requires
        value.len() > 0,
        value[0] != '"',
        value.last() != '"',
    ensures
        unquoted("\""@ + value + "\""@) == value,
{
    reveal_strlit("\"");
    let k = Class::Only('"');
    let s = "\""@ + value + "\""@;
    let t = value + "\""@;
    assert(s.drop_first() =~= t);
    assert(s[0] == '"');
    assert(t[0] == value[0]);
    assert(trimmed_start(t, k) == t);
    assert(trimmed_start(s, k) == t);
    assert(t.last() == '"');
    assert(t.drop_last() =~= value);
    assert(trimmed_end(value, k) == value);
    assert(trimmed_end(t, k) == value);
}

/// The lines of a file after a key was given a value.
proof fn lemma_lines_of_updated(content: Seq<char>, key: Seq<char>, value: Seq<char>)
    requires
        on_one_line(key),
        on_one_line(value),
    ensures
        each_on_one_line(updated_lines(lines_of(content), key, value)),
        updated_lines(lines_of(content), key, value).len() > 0 ==> lines_of(
            updated(content, key, value),
        ) == updated_lines(lines_of(content), key, value).map_values(
            |l: Seq<char>| without_cr(l),
        ),
        updated_lines(lines_of(content), key, value).len() == 0 ==> lines_of(
            updated(content, key, value),
        ) == seq![Seq::<char>::empty()],
{
    let ls = updated_lines(lines_of(content), key, value);
    lemma_lines_are_lines(content);
    lemma_lines_without(lines_of(content), key_start(key));
    let line = quoted_line(key, value);
    reveal_strlit("=");
    reveal_strlit("\"");
    reveal_strlit("\n");
    assert(on_one_line(line)) by {
        if line.contains('\n') {
            let k = choose|k: int| 0 <= k < line.len() && line[k] == '\n';
            if k < key.len() {
                assert(key[k] == '\n');
            } else if k >= key.len() + 2 && k < key.len() + 2 + value.len() {
                assert(value[k - key.len() - 2] == '\n');
            }
        }
    }
    assert(each_on_one_line(ls)) by {
        let rest = lines_without(lines_of(content), key_start(key));
        assert forall|i: int| 0 <= i < ls.len() implies on_one_line(#[trigger] ls[i]) by {
            if i < rest.len() {
                assert(ls[i] == rest[i]);
            }
        }
    }
    if ls.len() > 0 {
        lemma_joined_is_terminated(ls);
        lines_of_terminated(ls);
    } else {
        let s = joined(ls, "\n"@) + "\n"@;
        assert(s =~= seq!['\n']);
        crate::text::scan::lemma_find_is(s, '\n', 0);
        assert(s.take(0) =~= Seq::<char>::empty());
        assert(s.skip(1) =~= Seq::<char>::empty());
        assert(lines_of(s.skip(1)) =~= Seq::<Seq<char>>::empty());
        assert(lines_of(s) =~= seq![Seq::<char>::empty()]);
    }
}

/// A value that was written is read back, unless it has line feeds in it or
/// quotes at its ends.
pub proof fn written_value_is_read_back(content: Seq<char>, key: Seq<char>, value: Seq<char>)
    requires
        on_one_line(key),
        on_one_line(value),
        value.len() > 0,
        value[0] != '"',
        value.last() != '"',
    ensures
        field_of(lines_of(updated(content, key, value)), key) == Some(value),
{
    let p = key_start(key);
    let rest = lines_without(lines_of(content), p);
    let line = quoted_line(key, value);
    let ls = rest.push(line);
    let f = |l: Seq<char>| without_cr(l);
    let out = ls.map_values(f);
    lemma_lines_are_lines(content);
    lemma_lines_without(lines_of(content), p);
    lemma_lines_of_updated(content, key, value);
    assert(lines_of(updated(content, key, value)) == out);
    reveal_strlit("\"");
    assert(line.last() == '"');
    assert(out.last() == line);
    assert(line.take(p.len() as int) =~= p);
    assert(line.skip(p.len() as int) =~= "\""@ + value + "\""@);
    assert forall|i: int| 0 <= i < out.len() - 1 implies !has_prefix(#[trigger] out[i], p) by {
        assert(out[i] == without_cr(rest[i]));
        lemma_prefix_without_cr(rest[i], p);
    }
    lemma_field_last(out, key);
    lemma_unquoted(value);
}

/// A key that was given no value is no longer there.
pub proof fn cleared_key_is_gone(content: Seq<char>, key: Seq<char>)
    requires
        on_one_line(key),
    ensures
        field_of(lines_of(updated(content, key, Seq::empty())), key) is None,
{
    let p = key_start(key);
    let rest = lines_without(lines_of(content), p);
    let f = |l: Seq<char>| without_cr(l);
    let out = rest.map_values(f);
    let value = Seq::<char>::empty();
    lemma_lines_are_lines(content);
    lemma_lines_without(lines_of(content), p);
    lemma_lines_of_updated(content, key, value);
    reveal_strlit("=");
    let all = lines_of(updated(content, key, value));
    assert forall|i: int| 0 <= i < all.len() implies !has_prefix(#[trigger] all[i], p) by {
        if rest.len() > 0 {
            assert(all[i] == without_cr(rest[i]));
            lemma_prefix_without_cr(rest[i], p);
        } else {
            assert(all[i].len() == 0);
            assert(p.len() > 0);
        }
    }
    lemma_field_nowhere(all, key);
}

/// A line with one key does not have another.
proof fn lemma_one_key(l: Seq<char>, key: Seq<char>, other: Seq<char>)
    requires
        has_prefix(l, key_start(key)),
        has_prefix(l, key_start(other)),
        !key.contains('='),
        !other.contains('='),
    ensures
        key == other,
{
    reveal_strlit("=");
    let p = key_start(key);
    let q = key_start(other);
    assert(forall|i: int| 0 <= i < p.len() ==> p[i] == l[i]) by {
        assert forall|i: int| 0 <= i < p.len() implies p[i] == l[i] by {
            assert(l.take(p.len() as int)[i] == l[i]);
        }
    }
    assert(forall|i: int| 0 <= i < q.len() ==> q[i] == l[i]) by {
        assert forall|i: int| 0 <= i < q.len() implies q[i] == l[i] by {
            assert(l.take(q.len() as int)[i] == l[i]);
        }
    }
    assert(p[key.len() as int] == '=');
    assert(q[other.len() as int] == '=');
    if key.len() < other.len() {
        assert(other[key.len() as int] == q[key.len() as int]);
        assert(other.contains('='));
    } else if other.len() < key.len() {
        assert(key[other.len() as int] == p[other.len() as int]);
        assert(key.contains('='));
    } else {
        assert forall|i: int| 0 <= i < key.len() implies key[i] == other[i] by {
            assert(p[i] == key[i] && q[i] == other[i]);
        }
        assert(key =~= other);
    }
}

proof fn lemma_line_push(ls: Seq<Seq<char>>, l: Seq<char>, key: Seq<char>)
    ensures
        line_of(ls.push(l), key) == match line_of(ls, key) {
            Some(v) => Some(v),
            None => if has_prefix(l, key_start(key)) {
                Some(l)
            } else {
                None
            },
        },
    decreases ls.len(),
{
    let all = ls.push(l);
    if ls.len() == 0 {
        assert(all.drop_first() =~= Seq::<Seq<char>>::empty());
        assert(line_of(all.drop_first(), key) is None);
    } else {
        assert(all.drop_first() =~= ls.drop_first().push(l));
        lemma_line_push(ls.drop_first(), l, key);
    }
}

proof fn lemma_line_without(ls: Seq<Seq<char>>, key: Seq<char>, other: Seq<char>)
    requires
        key != other,
        !key.contains('='),
        !other.contains('='),
    ensures
        line_of(lines_without(ls, key_start(key)), other) == line_of(ls, other),
    decreases ls.len(),
{
    if ls.len() > 0 {
        let t = ls.drop_last();
        lemma_line_without(t, key, other);
        assert(t.push(ls.last()) =~= ls);
        lemma_line_push(t, ls.last(), other);
        lemma_line_push(lines_without(t, key_start(key)), ls.last(), other);
        if has_prefix(ls.last(), key_start(key)) && has_prefix(ls.last(), key_start(other)) {
            lemma_one_key(ls.last(), key, other);
        }
    }
}

/// The line of a key is one of the lines, and starts with the key.
pub proof fn lemma_line_is_there(ls: Seq<Seq<char>>, key: Seq<char>)
    ensures
        line_of(ls, key) matches Some(l) ==> ls.contains(l) && has_prefix(l, key_start(key)),
        line_of(ls, key) is None ==> forall|i: int|
            0 <= i < ls.len() ==> !has_prefix(#[trigger] ls[i], key_start(key)),
    decreases ls.len(),
{
    if ls.len() > 0 {
        let t = ls.drop_first();
        lemma_line_is_there(t, key);
        if has_prefix(ls[0], key_start(key)) {
            assert(ls.contains(ls[0]));
        } else if line_of(t, key) is Some {
            let i = choose|i: int| 0 <= i < t.len() && t[i] == line_of(t, key)->0;
            assert(ls[i + 1] == t[i]);
        } else {
            assert forall|i: int| 0 <= i < ls.len() implies !has_prefix(
                #[trigger] ls[i],
                key_start(key),
            ) by {
                if i > 0 {
                    assert(t[i - 1] == ls[i]);
                }
            }
        }
    }
}

/// A key is read from the first line that has it.
proof fn lemma_field_of_line(ls: Seq<Seq<char>>, key: Seq<char>)
    ensures
        field_of(ls, key) == match line_of(ls, key) {
            Some(l) => Some(unquoted(l.skip(key_start(key).len() as int))),
            None => None,
        },
    decreases ls.len(),
{
    if ls.len() > 0 {
        lemma_field_of_line(ls.drop_first(), key);
    }
}

/// A key whose line does not end in a carriage return is read as well where
/// such ends are taken off.
proof fn lemma_field_without_cr(ls: Seq<Seq<char>>, key: Seq<char>)
    requires
        line_of(ls, key) matches Some(l) ==> without_cr(l) == l,
    ensures
        field_of(ls.map_values(|l: Seq<char>| without_cr(l)), key) == field_of(ls, key),
    decreases ls.len(),
{
    let f = |l: Seq<char>| without_cr(l);
    let out = ls.map_values(f);
    if ls.len() > 0 {
        assert(out[0] == without_cr(ls[0]));
        assert(out.drop_first() =~= ls.drop_first().map_values(f));
        if !has_prefix(ls[0], key_start(key)) {
            lemma_prefix_without_cr(ls[0], key_start(key));
            lemma_field_without_cr(ls.drop_first(), key);
        }
    }
}

/// Giving a key a value leaves every other key as it was, unless the line of
/// that other key still ends in a carriage return once the file is split into
/// lines.
pub proof fn other_keys_are_kept(
    content: Seq<char>,
    key: Seq<char>,
    value: Seq<char>,
    other: Seq<char>,
)
    requires
        on_one_line(key),
        on_one_line(value),
        key != other,
        !key.contains('='),
        !other.contains('='),
        line_of(lines_of(content), other) matches Some(l) ==> without_cr(l) == l,
    ensures
        field_of(lines_of(updated(content, key, value)), other) == field_of(
            lines_of(content),
            other,
        ),
{
    let all = lines_of(content);
    let rest = lines_without(all, key_start(key));
    let line = quoted_line(key, value);
    let ls = updated_lines(all, key, value);
    lemma_lines_of_updated(content, key, value);
    lemma_line_without(all, key, other);
    lemma_field_of_line(all, other);
    reveal_strlit("=");
    assert(has_prefix(line, key_start(key))) by {
        assert(line.take(key_start(key).len() as int) =~= key_start(key));
    }
    if ls.len() > 0 {
        if value.len() > 0 {
            lemma_line_push(rest, line, other);
            if has_prefix(line, key_start(other)) {
                lemma_one_key(line, key, other);
            }
        }
        assert(line_of(ls, other) == line_of(all, other));
        lemma_field_of_line(ls, other);
        lemma_field_without_cr(ls, other);
    } else {
        let one = seq![Seq::<char>::empty()];
        assert(line_of(rest, other) is None);
        assert(!has_prefix(one[0], key_start(other)));
        assert(one.drop_first() =~= Seq::<Seq<char>>::empty());
        assert(field_of(one.drop_first(), other) is None);
        assert(field_of(one, other) is None);
    }
}

} // verus!
