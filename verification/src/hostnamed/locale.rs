//! The language and the keyboard.

use crate::hostnamed::keyval::{field_of, file_field, key_start, read_field, unquoted};
use crate::text::file::{
    each_on_one_line, lines_of_terminated, on_one_line, terminate, terminated,
};
use crate::text::scan::{
    contains, deep, has_part, has_prefix, lemma_find_is, lines, lines_of, pieces, split,
    starts_with, stripped, trim, trimmed_end, trimmed_start, without_cr, Class,
};
use crate::text::{cat, cat3, chars_of, opt_text, owned, string_of, texts};
use vstd::prelude::*;

verus! {

/// Whether a line holds a setting: it is neither empty nor a comment.
pub open spec fn is_setting(line: Seq<char>) -> bool {
    line.len() > 0 && line[0] != '#'
}

/// The lines that hold settings.
pub open spec fn settings_of(ls: Seq<Seq<char>>) -> Seq<Seq<char>>
    decreases ls.len(),
{
    if ls.len() == 0 {
        Seq::empty()
    } else if is_setting(ls.last()) {
        settings_of(ls.drop_last()).push(ls.last())
    } else {
        settings_of(ls.drop_last())
    }
}

/// The language settings that a file tells.
pub open spec fn locale_read(
    content: Option<&str>,
    r: Seq<Seq<char>>,
) -> bool {
    r == match content {
        Some(c) => settings_of(lines_of(c@)),
        None => Seq::empty(),
    }
}

/// The language settings in a file; none where there is no file.
pub fn read_locale_conf(content: Option<&str>) -> (r: Vec<String>)
    ensures
        locale_read(content, texts(r@)),
{
    let mut r: Vec<String> = Vec::new();
    assert(texts(r@) =~= Seq::<Seq<char>>::empty());
    let text = match content {
        Some(c) => chars_of(c),
        None => {
            return r;
        },
    };
    let ls = lines(&text);
    let ghost all = lines_of(text@);
    let mut i: usize = 0;
    assert(texts(r@) =~= settings_of(all.take(0)));
    while i < ls.len()
        invariant
            i <= ls.len(),
            deep(ls@) == all,
            texts(r@) == settings_of(all.take(i as int)),
        decreases ls.len() - i,
    {
        let ghost before = texts(r@);
        proof {
            assert(all.take(i + 1).drop_last() =~= all.take(i as int));
            assert(all.take(i + 1).last() == ls@[i as int]@);
        }
        let line = &ls[i];
        if line.len() > 0 && line[0] != '#' {
            r.push(string_of(line));
            assert(texts(r@) =~= before.push(ls@[i as int]@));
        }
        i += 1;
    }
    assert(all.take(all.len() as int) =~= all);
    r
}

/// Whether a setting can be written on a line and read back.
pub open spec fn is_writable(s: Seq<char>) -> bool {
    is_setting(s) && on_one_line(s) && s.last() != '\r'
}

proof fn lemma_all_settings(ls: Seq<Seq<char>>)
    requires
        forall|i: int| 0 <= i < ls.len() ==> is_setting(#[trigger] ls[i]),
    ensures
        settings_of(ls) == ls,
    decreases ls.len(),
{
    if ls.len() > 0 {
        let t = ls.drop_last();
        assert forall|i: int| 0 <= i < t.len() implies is_setting(#[trigger] t[i]) by {
            assert(t[i] == ls[i]);
        }
        lemma_all_settings(t);
        assert(is_setting(ls[ls.len() - 1]));
        assert(t.push(ls.last()) =~= ls);
    } else {
        assert(ls =~= Seq::<Seq<char>>::empty());
    }
}

/// Language settings that were written are read back.
pub proof fn written_locale_is_read_back(ls: Seq<Seq<char>>)
    requires
        forall|i: int| 0 <= i < ls.len() ==> is_writable(#[trigger] ls[i]),
    ensures
        settings_of(lines_of(terminated(ls))) == ls,
{
    assert(each_on_one_line(ls)) by {
        assert forall|i: int| 0 <= i < ls.len() implies on_one_line(#[trigger] ls[i]) by {
            assert(is_writable(ls[i]));
        }
    }
    lines_of_terminated(ls);
    assert(ls.map_values(|l: Seq<char>| without_cr(l)) =~= ls) by {
        assert forall|i: int| 0 <= i < ls.len() implies without_cr(#[trigger] ls[i]) == ls[i] by {
            assert(is_writable(ls[i]));
        }
    }
    assert forall|i: int| 0 <= i < ls.len() implies is_setting(#[trigger] ls[i]) by {
        assert(is_writable(ls[i]));
    }
    lemma_all_settings(ls);
}

/// The lines of the file with the keyboard of the console.
pub open spec fn console_lines(keymap: Seq<char>, toggle: Seq<char>) -> Seq<Seq<char>> {
    if toggle.len() > 0 {
        seq!["KEYMAP="@ + keymap, "KEYMAP_TOGGLE="@ + toggle]
    } else {
        seq!["KEYMAP="@ + keymap]
    }
}

/// A field of the file with the keyboard of the console.
pub fn read_vconsole_field(content: Option<&str>, key: &str) -> (r: Option<String>)
    ensures
        opt_text(r) == file_field(content, key@),
{
    read_field(content, key)
}

/// Whether a value can be written behind a key and read back.
pub open spec fn is_bare(s: Seq<char>) -> bool {
    on_one_line(s) && (s.len() > 0 ==> s[0] != '"' && s.last() != '"' && s.last() != '\r')
}

proof fn lemma_bare_stays(s: Seq<char>)
    requires
        is_bare(s),
    ensures
        unquoted(s) == s,
{
    assert(trimmed_start(s, Class::Only('"')) == s);
    assert(trimmed_end(s, Class::Only('"')) == s);
}

/// The keyboard of the console that was written is read back.
pub proof fn written_console_is_read_back(keymap: Seq<char>, toggle: Seq<char>)
    requires
        is_bare(keymap),
        toggle.len() > 0 ==> is_bare(toggle),
    ensures
        field_of(lines_of(terminated(console_lines(keymap, toggle))), "KEYMAP"@) == Some(keymap),
        field_of(lines_of(terminated(console_lines(keymap, toggle))), "KEYMAP_TOGGLE"@) == if toggle.len()
            > 0 {
            Some(toggle)
        } else {
            None
        },
{
    reveal_strlit("KEYMAP=");
    reveal_strlit("KEYMAP_TOGGLE=");
    reveal_strlit("KEYMAP");
    reveal_strlit("KEYMAP_TOGGLE");
    reveal_strlit("=");
    let ls = console_lines(keymap, toggle);
    let a = "KEYMAP="@ + keymap;
    let b = "KEYMAP_TOGGLE="@ + toggle;
    assert(key_start("KEYMAP"@) =~= "KEYMAP="@);
    assert(key_start("KEYMAP_TOGGLE"@) =~= "KEYMAP_TOGGLE="@);
    assert(on_one_line(a)) by {
        if a.contains('\n') {
            let k = choose|k: int| 0 <= k < a.len() && a[k] == '\n';
            if k >= 7 {
                assert(keymap[k - 7] == '\n');
            }
        }
    }
    assert(a.last() == if keymap.len() > 0 {
        keymap.last()
    } else {
        '='
    });
    assert(a.take(7) =~= "KEYMAP="@);
    assert(a.skip(7) =~= keymap);
    lemma_bare_stays(keymap);
    if toggle.len() > 0 {
        assert(on_one_line(b)) by {
            if b.contains('\n') {
                let k = choose|k: int| 0 <= k < b.len() && b[k] == '\n';
                if k >= 14 {
                    assert(toggle[k - 14] == '\n');
                }
            }
        }
        assert(b.last() == toggle.last());
        assert(b.take(14) =~= "KEYMAP_TOGGLE="@);
        assert(b.skip(14) =~= toggle);
        lemma_bare_stays(toggle);
    }
    assert(each_on_one_line(ls));
    lines_of_terminated(ls);
    assert(ls.map_values(|l: Seq<char>| without_cr(l)) =~= ls);
    assert(ls[0] == a);
    assert(a[6] == '=');
    assert(!has_prefix(a, "KEYMAP_TOGGLE="@)) by {
        if has_prefix(a, "KEYMAP_TOGGLE="@) {
            assert(a.take(14)[6] == a[6]);
        }
    }
    if toggle.len() > 0 {
        assert(ls.drop_first() =~= seq![b]);
        assert(ls.drop_first()[0] == b);
    } else {
        assert(ls.drop_first() =~= Seq::<Seq<char>>::empty());
        assert(field_of(ls.drop_first(), "KEYMAP_TOGGLE"@) is None);
    }
}

/// A line with an option for the keyboard.
pub open spec fn option_line(key: Seq<char>, value: Seq<char>) -> Seq<char> {
    "    Option \""@ + key + "\" \""@ + value + "\""@
}

/// The lines of the file with the keyboard of the window system.
pub open spec fn x11_lines(
    layout: Seq<char>,
    model: Seq<char>,
    variant: Seq<char>,
    options: Seq<char>,
) -> Seq<Seq<char>> {
    seq![
        "# Written by dynamod-hostnamed"@,
        "Section \"InputClass\""@,
        "    Identifier \"keyboard-all\""@,
        "    MatchIsKeyboard \"on\""@,
        option_line("XkbLayout"@, layout),
        option_line("XkbModel"@, model),
        option_line("XkbVariant"@, variant),
        option_line("XkbOptions"@, options),
        "EndSection"@,
    ]
}

fn option_text(key: &str, value: &str) -> (r: String)
    ensures
        r@ == option_line(key@, value@),
{
    let start = cat3("    Option \"", key, "\" \"");
    cat3(start.as_str(), value, "\"")
}

/// The value of an option on a line: the second text in quotes.
pub open spec fn option_on(line: Seq<char>, key: Seq<char>) -> Option<Seq<char>> {
    let t = stripped(line);
    let parts = pieces(t, '"');
    if has_prefix(t, "Option"@) && has_part(t, key) && parts.len() >= 4 {
        Some(parts[3])
    } else {
        None
    }
}

/// The value of an option, on the first line that has it.
pub open spec fn option_in(ls: Seq<Seq<char>>, key: Seq<char>) -> Option<Seq<char>>
    decreases ls.len(),
{
    if ls.len() == 0 {
        None
    } else if let Some(v) = option_on(ls[0], key) {
        Some(v)
    } else {
        option_in(ls.drop_first(), key)
    }
}

/// The option that a file tells.
pub open spec fn x11_read(
    content: Option<&str>,
    key: Seq<char>,
    r: Option<Seq<char>>,
) -> bool {
    r == match content {
        Some(c) => option_in(lines_of(c@), key),
        None => None,
    }
}

/// The value of an option in the file with the keyboard of the window system.
pub fn read_x11_keyboard_field(content: Option<&str>, key: &str) -> (r: Option<String>)
    ensures
        x11_read(content, key@, opt_text(r)),
{
    let text = match content {
        Some(c) => chars_of(c),
        None => {
            return None;
        },
    };
    let word = chars_of("Option");
    let k = chars_of(key);
    let ls = lines(&text);
    let ghost all = lines_of(text@);
    let mut i: usize = 0;
    assert(all.skip(0) =~= all);
    while i < ls.len()
        invariant
            i <= ls.len(),
            word@ == "Option"@,
            k@ == key@,
            deep(ls@) == all,
            all == lines_of(text@),
            content matches Some(c) && c@ == text@,
            option_in(all.skip(i as int), key@) == option_in(all, key@),
        decreases ls.len() - i,
    {
        proof {
            assert(all[i as int] == ls@[i as int]@);
            assert(all.skip(i as int)[0] == all[i as int]);
            assert(all.skip(i as int).drop_first() =~= all.skip(i + 1));
        }
        let line = trim(&ls[i]);
        if starts_with(line, &word) && contains(line, &k) {
            let parts = split(line, '"');
            assert(deep(parts@).len() == parts@.len());
            if parts.len() >= 4 {
                assert(deep(parts@)[3] == parts@[3]@);
                return Some(string_of(&parts[3]));
            }
        }
        i += 1;
    }
    None
}

/// What an option line is without the space before it.
spec fn bare_option(key: Seq<char>, value: Seq<char>) -> Seq<char> {
    "Option "@ + "\""@ + key + "\""@ + " "@ + "\""@ + value + "\""@
}

proof fn lemma_option_stripped(key: Seq<char>, value: Seq<char>)
    ensures
        stripped(option_line(key, value)) == bare_option(key, value),
{
    reveal_strlit("    Option \"");
    reveal_strlit("\" \"");
    reveal_strlit("\"");
    reveal_strlit("Option ");
    reveal_strlit(" ");
    let s = option_line(key, value);
    let t = bare_option(key, value);
    let k = Class::White;
    assert(s =~= seq![' ', ' ', ' ', ' '] + t);
    let s1 = seq![' ', ' ', ' '] + t;
    let s2 = seq![' ', ' '] + t;
    let s3 = seq![' '] + t;
    assert(s.drop_first() =~= s1);
    assert(s1.drop_first() =~= s2);
    assert(s2.drop_first() =~= s3);
    assert(s3.drop_first() =~= t);
    assert(k.has(' '));
    assert(t[0] == 'O');
    assert(!k.has('O'));
    assert(trimmed_start(t, k) == t);
    assert(trimmed_start(s3, k) == t);
    assert(trimmed_start(s2, k) == t);
    assert(trimmed_start(s1, k) == t);
    assert(trimmed_start(s, k) == t);
    assert(t.last() == '"');
    assert(!k.has('"'));
    assert(trimmed_end(t, k) == t);
}

proof fn lemma_piece(a: Seq<char>, b: Seq<char>)
    requires
        !a.contains('"'),
    ensures
        pieces(a + "\""@ + b, '"') == seq![a] + pieces(b, '"'),
{
    reveal_strlit("\"");
    let s = a + "\""@ + b;
    assert forall|j: int| 0 <= j < a.len() implies s[j] != '"' by {
        assert(s[j] == a[j]);
        assert(a.contains(a[j]));
    }
    assert(s[a.len() as int] == '"');
    lemma_find_is(s, '"', a.len() as int);
    assert(s.take(a.len() as int) =~= a);
    assert(s.skip(a.len() as int + 1) =~= b);
}

proof fn lemma_option_pieces(key: Seq<char>, value: Seq<char>)
    requires
        !key.contains('"'),
        !value.contains('"'),
    ensures
        pieces(bare_option(key, value), '"').len() >= 4,
        pieces(bare_option(key, value), '"')[3] == value,
{
    reveal_strlit("\"");
    reveal_strlit("Option ");
    reveal_strlit(" ");
    let e = Seq::<char>::empty();
    let r3 = value + "\""@ + e;
    let r2 = " "@ + "\""@ + r3;
    let r1 = key + "\""@ + r2;
    let r0 = "Option "@ + "\""@ + r1;
    assert(bare_option(key, value) =~= r0);
    lemma_piece("Option "@, r1);
    lemma_piece(key, r2);
    lemma_piece(" "@, r3);
    lemma_piece(value, e);
}

/// A text without quotes that stands in `a`, a quote and `b` stands in one of
/// the two.
proof fn lemma_part_beside_quote(a: Seq<char>, b: Seq<char>, p: Seq<char>)
    requires
        p.len() > 0,
        !p.contains('"'),
        has_part(a + "\""@ + b, p),
    ensures
        has_part(a, p) || has_part(b, p),
{
    reveal_strlit("\"");
    let s = a + "\""@ + b;
    let i = choose|i: int| 0 <= i <= s.len() && #[trigger] has_prefix(s.skip(i), p);
    let n = a.len();
    assert(forall|k: int| 0 <= k < p.len() ==> p[k] == s[i + k]) by {
        assert forall|k: int| 0 <= k < p.len() implies p[k] == s[i + k] by {
            assert(s.skip(i).take(p.len() as int)[k] == s[i + k]);
        }
    }
    if i <= n && n < i + p.len() {
        assert(s[n as int] == '"');
        assert(p[n - i] == '"');
        assert(p.contains('"'));
    } else if i + p.len() <= n {
        assert(a.skip(i).take(p.len() as int) =~= p) by {
            assert forall|k: int| 0 <= k < p.len() implies a.skip(i)[k] == p[k] by {
                assert(s[i + k] == a[i + k]);
            }
        }
        assert(has_prefix(a.skip(i), p));
    } else {
        let j = i - n - 1;
        assert(b.skip(j).take(p.len() as int) =~= p) by {
            assert forall|k: int| 0 <= k < p.len() implies b.skip(j)[k] == p[k] by {
                assert(s[i + k] == b[j + k]);
            }
        }
        assert(has_prefix(b.skip(j), p));
    }
}

/// Whether a text is like the name of an option: it has an `X` at its start
/// and nowhere else.
spec fn like_key(s: Seq<char>) -> bool {
    &&& s.len() > 3
    &&& s[0] == 'X'
    &&& forall|i: int| 1 <= i < s.len() ==> s[i] != 'X'
    &&& !s.contains('"')
}

proof fn lemma_keys_apart(s: Seq<char>, p: Seq<char>)
    requires
        like_key(s),
        like_key(p),
        s[3] != p[3],
    ensures
        !has_part(s, p),
{
    if has_part(s, p) {
        let i = choose|i: int| 0 <= i <= s.len() && #[trigger] has_prefix(s.skip(i), p);
        assert(s.skip(i).take(p.len() as int)[0] == s[i]);
        assert(s.skip(i).take(p.len() as int)[3] == s[i + 3]);
    }
}

/// An option is not on the line of another, unless the other's value has its
/// name in it.
proof fn lemma_option_elsewhere(key: Seq<char>, value: Seq<char>, other: Seq<char>)
    requires
        like_key(key),
        like_key(other),
        key[3] != other[3],
        !has_part(value, other),
    ensures
        option_on(option_line(key, value), other) is None,
{
    reveal_strlit("\"");
    reveal_strlit("Option ");
    reveal_strlit(" ");
    lemma_option_stripped(key, value);
    let e = Seq::<char>::empty();
    let r3 = value + "\""@ + e;
    let r2 = " "@ + "\""@ + r3;
    let r1 = key + "\""@ + r2;
    let r0 = "Option "@ + "\""@ + r1;
    assert(bare_option(key, value) =~= r0);
    lemma_keys_apart(key, other);
    assert(!has_part(e, other)) by {
        if has_part(e, other) {
            let i = choose|i: int| 0 <= i <= e.len() && #[trigger] has_prefix(e.skip(i), other);
        }
    }
    assert(!has_part(" "@, other)) by {
        if has_part(" "@, other) {
            let i = choose|i: int|
                0 <= i <= " "@.len() && #[trigger] has_prefix(" "@.skip(i), other);
        }
    }
    assert(!has_part("Option "@, other)) by {
        if has_part("Option "@, other) {
            let w = "Option "@;
            let i = choose|i: int| 0 <= i <= w.len() && #[trigger] has_prefix(w.skip(i), other);
            assert(w.skip(i).take(other.len() as int)[0] == w[i]);
        }
    }
    if has_part(r0, other) {
        lemma_part_beside_quote("Option "@, r1, other);
        lemma_part_beside_quote(key, r2, other);
        lemma_part_beside_quote(" "@, r3, other);
        lemma_part_beside_quote(value, e, other);
    }
}

/// An option is on its own line.
proof fn lemma_option_here(key: Seq<char>, value: Seq<char>)
    requires
        like_key(key),
        !value.contains('"'),
    ensures
        option_on(option_line(key, value), key) == Some(value),
{
    reveal_strlit("\"");
    reveal_strlit("Option ");
    reveal_strlit("Option");
    reveal_strlit(" ");
    lemma_option_stripped(key, value);
    lemma_option_pieces(key, value);
    let t = bare_option(key, value);
    assert(t.take(6) =~= "Option"@);
    assert(t.skip(8).take(key.len() as int) =~= key);
    assert(has_prefix(t.skip(8), key));
}

proof fn lemma_no_option(line: Seq<char>, key: Seq<char>, first: char)
    requires
        first != 'O',
        stripped(line).len() > 0,
        stripped(line)[0] == first,
    ensures
        option_on(line, key) is None,
{
    reveal_strlit("Option");
    let t = stripped(line);
    if has_prefix(t, "Option"@) {
        assert(t.take(6)[0] == t[0]);
    }
}

proof fn lemma_fixed_lines(ls: Seq<Seq<char>>, key: Seq<char>)
    requires
        ls.len() >= 4,
        ls[0] == "# Written by dynamod-hostnamed"@,
        ls[1] == "Section \"InputClass\""@,
        ls[2] == "    Identifier \"keyboard-all\""@,
        ls[3] == "    MatchIsKeyboard \"on\""@,
    ensures
        option_in(ls, key) == option_in(ls.skip(4), key),
{
    reveal_strlit("# Written by dynamod-hostnamed");
    reveal_strlit("Section \"InputClass\"");
    reveal_strlit("    Identifier \"keyboard-all\"");
    reveal_strlit("    MatchIsKeyboard \"on\"");
    let k = Class::White;
    let a = ls[0];
    let b = ls[1];
    assert(a[0] == '#' && !k.has('#') && a.last() == 'd' && !k.has('d'));
    assert(stripped(a) == a);
    lemma_no_option(a, key, '#');
    assert(b[0] == 'S' && !k.has('S') && b.last() == '"' && !k.has('"'));
    assert(stripped(b) == b);
    lemma_no_option(b, key, 'S');
    lemma_indented(ls[2]);
    lemma_no_option(ls[2], key, 'I');
    lemma_indented(ls[3]);
    lemma_no_option(ls[3], key, 'M');
    assert(ls.skip(0) =~= ls);
    assert(ls.drop_first() =~= ls.skip(1));
    assert(ls.skip(1).drop_first() =~= ls.skip(2));
    assert(ls.skip(2).drop_first() =~= ls.skip(3));
    assert(ls.skip(3).drop_first() =~= ls.skip(4));
    assert(option_in(ls.skip(3), key) == option_in(ls.skip(4), key));
    assert(option_in(ls.skip(2), key) == option_in(ls.skip(3), key));
    assert(option_in(ls.skip(1), key) == option_in(ls.skip(2), key));
}

proof fn lemma_indented(l: Seq<char>)
    requires
        l.len() > 4,
        l[0] == ' ',
        l[1] == ' ',
        l[2] == ' ',
        l[3] == ' ',
        !Class::White.has(l[4]),
        !Class::White.has(l.last()),
    ensures
        stripped(l) == l.skip(4),
{
    let k = Class::White;
    assert(l.skip(0) =~= l);
    assert(l.drop_first() =~= l.skip(1));
    assert(l.skip(1).drop_first() =~= l.skip(2));
    assert(l.skip(2).drop_first() =~= l.skip(3));
    assert(l.skip(3).drop_first() =~= l.skip(4));
    assert(trimmed_start(l.skip(4), k) == l.skip(4));
    assert(trimmed_start(l.skip(3), k) == l.skip(4));
    assert(trimmed_start(l.skip(2), k) == l.skip(4));
    assert(trimmed_start(l.skip(1), k) == l.skip(4));
    assert(trimmed_start(l, k) == l.skip(4));
    assert(l.skip(4).last() == l.last());
}

proof fn lemma_option_line_is_line(key: Seq<char>, value: Seq<char>)
    requires
        on_one_line(key),
        on_one_line(value),
    ensures
        on_one_line(option_line(key, value)),
        without_cr(option_line(key, value)) == option_line(key, value),
{
    reveal_strlit("    Option \"");
    reveal_strlit("\" \"");
    reveal_strlit("\"");
    let l = option_line(key, value);
    assert(l.last() == '"');
    if l.contains('\n') {
        let i = choose|i: int| 0 <= i < l.len() && l[i] == '\n';
        if 12 <= i < 12 + key.len() {
            assert(key[i - 12] == '\n');
        } else if 15 + key.len() <= i < 15 + key.len() + value.len() {
            assert(value[i - 15 - key.len()] == '\n');
        }
    }
}

/// Whether a value can be written as an option.
pub open spec fn is_option_value(s: Seq<char>) -> bool {
    on_one_line(s) && !s.contains('"')
}

proof fn lemma_option_keys()
    ensures
        like_key("XkbLayout"@),
        like_key("XkbModel"@),
        like_key("XkbVariant"@),
        like_key("XkbOptions"@),
        "XkbLayout"@[3] == 'L',
        "XkbModel"@[3] == 'M',
        "XkbVariant"@[3] == 'V',
        "XkbOptions"@[3] == 'O',
        on_one_line("XkbLayout"@),
        on_one_line("XkbModel"@),
        on_one_line("XkbVariant"@),
        on_one_line("XkbOptions"@),
{
    reveal_strlit("XkbLayout");
    reveal_strlit("XkbModel");
    reveal_strlit("XkbVariant");
    reveal_strlit("XkbOptions");
}

proof fn lemma_x11_lines(
    layout: Seq<char>,
    model: Seq<char>,
    variant: Seq<char>,
    options: Seq<char>,
)
    requires
        is_option_value(layout),
        is_option_value(model),
        is_option_value(variant),
        is_option_value(options),
    ensures
        lines_of(terminated(x11_lines(layout, model, variant, options))) == x11_lines(
            layout,
            model,
            variant,
            options,
        ),
{
    let ls = x11_lines(layout, model, variant, options);
    lemma_option_keys();
    lemma_option_line_is_line("XkbLayout"@, layout);
    lemma_option_line_is_line("XkbModel"@, model);
    lemma_option_line_is_line("XkbVariant"@, variant);
    lemma_option_line_is_line("XkbOptions"@, options);
    reveal_strlit("# Written by dynamod-hostnamed");
    reveal_strlit("Section \"InputClass\"");
    reveal_strlit("    Identifier \"keyboard-all\"");
    reveal_strlit("    MatchIsKeyboard \"on\"");
    reveal_strlit("EndSection");
    assert(each_on_one_line(ls));
    lines_of_terminated(ls);
    assert(ls.map_values(|l: Seq<char>| without_cr(l)) =~= ls);
}

/// The keyboard of the window system that was written is read back, unless a
/// value has quotes or line feeds in it, or the name of an option that stands
/// behind it.
pub proof fn written_keyboard_is_read_back(
    layout: Seq<char>,
    model: Seq<char>,
    variant: Seq<char>,
    options: Seq<char>,
)
    requires
        is_option_value(layout),
        is_option_value(model),
        is_option_value(variant),
        is_option_value(options),
    ensures
        ({
            let ls = lines_of(terminated(x11_lines(layout, model, variant, options)));
            &&& option_in(ls, "XkbLayout"@) == Some(layout)
            &&& !has_part(layout, "XkbModel"@) ==> option_in(ls, "XkbModel"@) == Some(model)
            &&& !has_part(layout, "XkbVariant"@) && !has_part(model, "XkbVariant"@) ==> option_in(
                ls,
                "XkbVariant"@,
            ) == Some(variant)
            &&& !has_part(layout, "XkbOptions"@) && !has_part(model, "XkbOptions"@) && !has_part(
                variant,
                "XkbOptions"@,
            ) ==> option_in(ls, "XkbOptions"@) == Some(options)
        }),
{
    let ls = x11_lines(layout, model, variant, options);
    lemma_x11_lines(layout, model, variant, options);
    lemma_option_keys();
    lemma_fixed_lines(ls, "XkbLayout"@);
    lemma_fixed_lines(ls, "XkbModel"@);
    lemma_fixed_lines(ls, "XkbVariant"@);
    lemma_fixed_lines(ls, "XkbOptions"@);
    assert(ls.skip(4)[0] == option_line("XkbLayout"@, layout));
    assert(ls.skip(4).drop_first() =~= ls.skip(5));
    assert(ls.skip(5)[0] == option_line("XkbModel"@, model));
    assert(ls.skip(5).drop_first() =~= ls.skip(6));
    assert(ls.skip(6)[0] == option_line("XkbVariant"@, variant));
    assert(ls.skip(6).drop_first() =~= ls.skip(7));
    assert(ls.skip(7)[0] == option_line("XkbOptions"@, options));
    lemma_option_here("XkbLayout"@, layout);
    lemma_option_here("XkbModel"@, model);
    lemma_option_here("XkbVariant"@, variant);
    lemma_option_here("XkbOptions"@, options);
    assert(option_in(ls.skip(4), "XkbLayout"@) == Some(layout));
    if !has_part(layout, "XkbModel"@) {
        lemma_option_elsewhere("XkbLayout"@, layout, "XkbModel"@);
        assert(option_in(ls.skip(5), "XkbModel"@) == Some(model));
    }
    if !has_part(layout, "XkbVariant"@) && !has_part(model, "XkbVariant"@) {
        lemma_option_elsewhere("XkbLayout"@, layout, "XkbVariant"@);
        lemma_option_elsewhere("XkbModel"@, model, "XkbVariant"@);
        assert(option_in(ls.skip(6), "XkbVariant"@) == Some(variant));
        assert(option_in(ls.skip(5), "XkbVariant"@) == Some(variant));
    }
    if !has_part(layout, "XkbOptions"@) && !has_part(model, "XkbOptions"@) && !has_part(
        variant,
        "XkbOptions"@,
    ) {
        lemma_option_elsewhere("XkbLayout"@, layout, "XkbOptions"@);
        lemma_option_elsewhere("XkbModel"@, model, "XkbOptions"@);
        lemma_option_elsewhere("XkbVariant"@, variant, "XkbOptions"@);
        assert(option_in(ls.skip(7), "XkbOptions"@) == Some(options));
        assert(option_in(ls.skip(6), "XkbOptions"@) == Some(options));
        assert(option_in(ls.skip(5), "XkbOptions"@) == Some(options));
    }
}

/// What is told and set about the language and the keyboard.
#[derive(Debug, Clone, Copy)]
pub struct LocaleService;

impl LocaleService {
    /// The file with the language settings: one on each line.
    pub fn set_locale(&self, locale: &Vec<String>) -> (r: String)
        ensures
            locale_file(texts(locale@), r@),
    {
        terminate(locale)
    }

    /// The file with the keyboard of the console.
    pub fn set_vc_console_keyboard(&self, keymap: &str, keymap_toggle: &str) -> (r: String)
        ensures
            console_file(keymap@, keymap_toggle@, r@),
    {
        let mut ls: Vec<String> = Vec::new();
        ls.push(cat("KEYMAP=", keymap));
        if chars_of(keymap_toggle).len() > 0 {
            ls.push(cat("KEYMAP_TOGGLE=", keymap_toggle));
        }
        assert(texts(ls@) =~= console_lines(keymap@, keymap_toggle@));
        terminate(&ls)
    }

    /// The file with the keyboard of the window system.
    pub fn set_x11_keyboard(
        &self,
        layout: &str,
        model: &str,
        variant: &str,
        options: &str,
    ) -> (r: String)
        ensures
            x11_file(layout@, model@, variant@, options@, r@),
    {
        let mut ls: Vec<String> = Vec::new();
        ls.push(owned("# Written by dynamod-hostnamed"));
        ls.push(owned("Section \"InputClass\""));
        ls.push(owned("    Identifier \"keyboard-all\""));
        ls.push(owned("    MatchIsKeyboard \"on\""));
        ls.push(option_text("XkbLayout", layout));
        ls.push(option_text("XkbModel", model));
        ls.push(option_text("XkbVariant", variant));
        ls.push(option_text("XkbOptions", options));
        ls.push(owned("EndSection"));
        assert(texts(ls@) =~= x11_lines(layout@, model@, variant@, options@));
        terminate(&ls)
    }
}

/// What the file with the language settings holds.
pub open spec fn locale_file(
    locale: Seq<Seq<char>>,
    r: Seq<char>,
) -> bool {
    r == terminated(locale)
}

/// What the file with the keyboard of the console holds.
pub open spec fn console_file(
    keymap: Seq<char>,
    toggle: Seq<char>,
    r: Seq<char>,
) -> bool {
    r == terminated(console_lines(keymap, toggle))
}

/// What the file with the keyboard of the window system holds.
pub open spec fn x11_file(
    layout: Seq<char>,
    model: Seq<char>,
    variant: Seq<char>,
    options: Seq<char>,
    r: Seq<char>,
) -> bool {
    r == terminated(x11_lines(layout, model, variant, options))
}

/// Language settings that are set are the ones that are told, and where there is
/// no file there are none.
pub proof fn set_locale_is_told(locale: Seq<Seq<char>>, file: &str, r: Seq<Seq<char>>, none: Seq<Seq<char>>)
    requires
        forall|i: int| 0 <= i < locale.len() ==> is_writable(#[trigger] locale[i]),
        locale_file(locale, file@),
        locale_read(Some(file), r),
        locale_read(None, none),
    ensures
        r == locale,
        none.len() == 0,
{
    written_locale_is_read_back(locale);
}

/// The keyboard of the console that is set is the one that is told.
pub proof fn set_console_keyboard_is_told(keymap: Seq<char>, toggle: Seq<char>, file: &str)
    requires
        is_bare(keymap),
        toggle.len() > 0 ==> is_bare(toggle),
        console_file(keymap, toggle, file@),
    ensures
        file_field(Some(file), "KEYMAP"@) == Some(keymap),
        toggle.len() > 0 ==> file_field(Some(file), "KEYMAP_TOGGLE"@) == Some(toggle),
        toggle.len() == 0 ==> file_field(Some(file), "KEYMAP_TOGGLE"@) is None,
{
    written_console_is_read_back(keymap, toggle);
}

/// The keyboard of the window system that is set is the one that is told.
pub proof fn set_x11_keyboard_is_told(
    layout: Seq<char>,
    model: Seq<char>,
    variant: Seq<char>,
    options: Seq<char>,
    file: &str,
    a: Option<Seq<char>>,
    b: Option<Seq<char>>,
    c: Option<Seq<char>>,
    d: Option<Seq<char>>,
)
    requires
        is_option_value(layout),
        is_option_value(model),
        is_option_value(variant),
        is_option_value(options),
        x11_file(layout, model, variant, options, file@),
        x11_read(Some(file), "XkbLayout"@, a),
        x11_read(Some(file), "XkbModel"@, b),
        x11_read(Some(file), "XkbVariant"@, c),
        x11_read(Some(file), "XkbOptions"@, d),
    ensures
        a == Some(layout),
        !has_part(layout, "XkbModel"@) ==> b == Some(model),
        !has_part(layout, "XkbVariant"@) && !has_part(model, "XkbVariant"@) ==> c == Some(variant),
        !has_part(layout, "XkbOptions"@) && !has_part(model, "XkbOptions"@) && !has_part(
            variant,
            "XkbOptions"@,
        ) ==> d == Some(options),
{
    written_keyboard_is_read_back(layout, model, variant, options);
}

} // verus!
