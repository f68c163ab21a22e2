//! Text files as lines.

use crate::text::scan::{find, lemma_find, lemma_find_is, lines_of, without_cr};
use crate::text::{joined, texts};
use vstd::prelude::*;

verus! {

/// The text in which every one of the lines ends in a line feed.
pub open spec fn terminated(ls: Seq<Seq<char>>) -> Seq<char>
    decreases ls.len(),
{
    if ls.len() == 0 {
        Seq::empty()
    } else {
        ls[0] + "\n"@ + terminated(ls.drop_first())
    }
}

/// Whether a text stays on one line.
pub open spec fn on_one_line(s: Seq<char>) -> bool {
    !s.contains('\n')
}

/// Whether each of the texts stays on one line.
pub open spec fn each_on_one_line(ls: Seq<Seq<char>>) -> bool {
    forall|i: int| 0 <= i < ls.len() ==> on_one_line(#[trigger] ls[i])
}

/// Lines that are written out one after the other are read back, each without
/// the carriage return that ends it.
pub proof fn lines_of_terminated(ls: Seq<Seq<char>>)
    requires
        each_on_one_line(ls),
    ensures
        lines_of(terminated(ls)) == ls.map_values(|l: Seq<char>| without_cr(l)),
    decreases ls.len(),
{
    let f = |l: Seq<char>| without_cr(l);
    if ls.len() == 0 {
        assert(ls.map_values(f) =~= Seq::<Seq<char>>::empty());
    } else {
        reveal_strlit("\n");
        let l = ls[0];
        let rest = terminated(ls.drop_first());
        let s = l + "\n"@ + rest;
        assert(s == terminated(ls));
        assert(s[l.len() as int] == '\n');
        assert forall|j: int| 0 <= j < l.len() implies s[j] != '\n' by {
            assert(s[j] == l[j]);
            assert(l.contains(l[j]));
        }
        lemma_find_is(s, '\n', l.len() as int);
        assert(s.take(l.len() as int) =~= l);
        assert(s.skip(l.len() as int + 1) =~= rest);
        assert(each_on_one_line(ls.drop_first())) by {
            assert forall|i: int| 0 <= i < ls.drop_first().len() implies on_one_line(
                #[trigger] ls.drop_first()[i],
            ) by {
                assert(ls.drop_first()[i] == ls[i + 1]);
            }
        }
        lines_of_terminated(ls.drop_first());
        assert(ls.map_values(f) =~= seq![without_cr(l)] + ls.drop_first().map_values(f));
    }
}

proof fn lemma_terminated_push(ls: Seq<Seq<char>>, l: Seq<char>)
    ensures
        terminated(ls.push(l)) == terminated(ls) + l + "\n"@,
    decreases ls.len(),
{
    let all = ls.push(l);
    if ls.len() == 0 {
        assert(all.drop_first() =~= Seq::<Seq<char>>::empty());
        assert(terminated(all.drop_first()) =~= Seq::<char>::empty());
        assert(terminated(all) =~= l + "\n"@);
    } else {
        assert(all.drop_first() =~= ls.drop_first().push(l));
        lemma_terminated_push(ls.drop_first(), l);
        assert(terminated(all) =~= terminated(ls) + l + "\n"@);
    }
}

/// Writes lines out one after the other.
pub fn terminate(ls: &Vec<String>) -> (r: String)
    ensures
        r@ == terminated(texts(ls@)),
{
    let ghost o = texts(ls@);
    let mut r = String::new();
    let mut i: usize = 0;
    assert(o.take(0) =~= Seq::<Seq<char>>::empty());
    while i < ls.len()
        invariant
            i <= ls.len(),
            o == texts(ls@),
            r@ == terminated(o.take(i as int)),
        decreases ls.len() - i,
    {
        proof {
            lemma_terminated_push(o.take(i as int), o[i as int]);
            assert(o.take(i as int).push(o[i as int]) =~= o.take(i + 1));
            assert(o[i as int] == ls@[i as int]@);
        }
        r.append(ls[i].as_str());
        r.append("\n");
        i += 1;
    }
    assert(o.take(o.len() as int) =~= o);
    r
}

/// Lines with line feeds between them and one behind them are lines that
/// each end in one.
pub proof fn lemma_joined_is_terminated(ls: Seq<Seq<char>>)
    requires
        ls.len() > 0,
    ensures
        joined(ls, "\n"@) + "\n"@ == terminated(ls),
    decreases ls.len(),
{
    let t = ls.drop_last();
    lemma_terminated_push(t, ls.last());
    assert(t.push(ls.last()) =~= ls);
    if ls.len() == 1 {
        assert(terminated(t) =~= Seq::<char>::empty());
        assert(joined(ls, "\n"@) + "\n"@ =~= terminated(ls));
    } else {
        lemma_joined_is_terminated(t);
        assert(joined(ls, "\n"@) + "\n"@ =~= terminated(ls));
    }
}

/// Every line stays on one line.
pub proof fn lemma_lines_are_lines(s: Seq<char>)
    ensures
        each_on_one_line(lines_of(s)),
        !s.contains('\r') ==> forall|i: int|
            0 <= i < lines_of(s).len() ==> !(#[trigger] lines_of(s)[i]).contains('\r'),
    decreases s.len(),
{
    let i = find(s, '\n');
    lemma_find(s, '\n');
    if s.len() == 0 {
    } else if i < s.len() {
        let rest = s.skip(i + 1);
        lemma_lines_are_lines(rest);
        let l = without_cr(s.take(i));
        assert forall|k: int| 0 <= k < l.len() implies l[k] == s[k] by {}
        assert(on_one_line(l)) by {
            if l.contains('\n') {
                let k = choose|k: int| 0 <= k < l.len() && l[k] == '\n';
                assert(s[k] == '\n');
            }
        }
        if !s.contains('\r') {
            assert(!rest.contains('\r')) by {
                if rest.contains('\r') {
                    let k = choose|k: int| 0 <= k < rest.len() && rest[k] == '\r';
                    assert(s[k + i + 1] == '\r');
                }
            }
            assert(!l.contains('\r')) by {
                if l.contains('\r') {
                    let k = choose|k: int| 0 <= k < l.len() && l[k] == '\r';
                    assert(s[k] == '\r');
                }
            }
        }
        assert(lines_of(s) == seq![l] + lines_of(rest));
        assert forall|k: int| 0 <= k < lines_of(s).len() implies on_one_line(
            #[trigger] lines_of(s)[k],
        ) && (!s.contains('\r') ==> !lines_of(s)[k].contains('\r')) by {
            if k > 0 {
                assert(lines_of(s)[k] == lines_of(rest)[k - 1]);
            }
        }
    } else {
        assert(lines_of(s) == seq![s]);
        assert(on_one_line(s)) by {
            if s.contains('\n') {
                let k = choose|k: int| 0 <= k < s.len() && s[k] == '\n';
                assert(false);
            }
        }
    }
}

} // verus!
