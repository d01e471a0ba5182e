//! What dedenting leaves behind: no indentation common to all non-blank
//! lines, so that a second pass changes nothing.

use vstd::prelude::*;

use crate::eject::{dedent_line, dedented, drop_bytes, indent_bytes, join_lines, min_indent};
use crate::text::{
    find_char_from, is_blank, is_white_space, lemma_find_char_from,
    lemma_skip_white_space, lemma_utf8_len_concat, lemma_utf8_len_single, skip_white_space,
    strip_cr, text_lines, utf8_len,
};

verus! {

broadcast use vstd::seq_lib::group_seq_properties;

/// `l` holds no `\n`.
pub open spec fn newline_free(l: Seq<char>) -> bool {
    forall|x: int| 0 <= x < l.len() ==> #[trigger] l[x] != '\n'
}

/// The lines that `text_lines` gives hold no `\n`.
proof fn lemma_text_lines_newline_free(cs: Seq<char>)
    ensures
        forall|q: int| 0 <= q < text_lines(cs).len() ==> newline_free(#[trigger] text_lines(cs)[q]),
    decreases cs.len(),
{
    if cs.len() > 0 {
        lemma_find_char_from(cs, 0, '\n');
        match find_char_from(cs, 0, '\n') {
            Some(i) => {
                let rest = cs.skip(i + 1);
                lemma_text_lines_newline_free(rest);
                let first = strip_cr(cs.take(i));
                assert forall|x: int| 0 <= x < first.len() implies #[trigger] first[x] != '\n' by {
                    assert(first[x] == cs[x]);
                }
                assert(text_lines(cs) == seq![first] + text_lines(rest));
                assert forall|q: int| 0 <= q < text_lines(cs).len() implies newline_free(
                    #[trigger] text_lines(cs)[q],
                ) by {
                    if q > 0 {
                        assert(text_lines(cs)[q] == text_lines(rest)[q - 1]);
                    }
                }
            },
            None => {
                assert(text_lines(cs) == seq![cs]);
                assert forall|x: int| 0 <= x < cs.len() implies #[trigger] cs[x] != '\n' by {}
                assert(newline_free(text_lines(cs)[0]));
            },
        }
    }
}

/// From a line start `p`, the lines of the rest are the last lines of the
/// whole; the result says from which line on.
proof fn lemma_text_lines_from(cs: Seq<char>, p: int) -> (q: int)
    requires
        0 <= p < cs.len(),
        p == 0 || cs[p - 1] == '\n',
    ensures
        0 <= q < text_lines(cs).len(),
        text_lines(cs).skip(q) == text_lines(cs.skip(p)),
    decreases p,
{
    lemma_find_char_from(cs, 0, '\n');
    if p == 0 {
        assert(cs.skip(0) =~= cs);
        0
    } else {
        assert(cs[p - 1] == '\n');
        let i = find_char_from(cs, 0, '\n')->Some_0;
        assert(i <= p - 1);
        let rest = cs.skip(i + 1);
        assert(text_lines(cs) == seq![strip_cr(cs.take(i))] + text_lines(rest));
        assert(p - i - 1 == 0 || rest[p - i - 2] == cs[p - 1]);
        let q2 = lemma_text_lines_from(rest, p - i - 1);
        assert(rest.skip(p - i - 1) =~= cs.skip(p));
        assert(text_lines(cs).skip(q2 + 1) =~= text_lines(rest).skip(q2));
        q2 + 1
    }
}

/// The first line of text that starts with the `\n`-free `l`, followed by
/// a `\n` or by the end.
proof fn lemma_text_lines_first(r: Seq<char>, l: Seq<char>)
    requires
        newline_free(l),
        0 < r.len(),
        l.len() <= r.len(),
        r.take(l.len() as int) == l,
        l.len() == r.len() || r[l.len() as int] == '\n',
    ensures
        text_lines(r).len() > 0,
        text_lines(r)[0] == (if l.len() == r.len() {
            l
        } else {
            strip_cr(l)
        }),
{
    lemma_find_char_from(r, 0, '\n');
    let n = l.len() as int;
    assert forall|x: int| 0 <= x < n implies #[trigger] r[x] != '\n' by {
        assert(r[x] == r.take(n)[x]);
    }
    match find_char_from(r, 0, '\n') {
        Some(f) => {
            assert(r[f] == '\n');
            if n < r.len() {
                assert(r[n] == '\n');
            }
            assert(f == n);
            assert(text_lines(r) == seq![strip_cr(r.take(f))] + text_lines(r.skip(f + 1)));
        },
        None => {
            if n < r.len() {
                assert(r[n] == '\n');
            }
            assert(r =~= l);
            assert(text_lines(r) == seq![r]);
        },
    }
}

/// Where line `j` of `ls` begins in `join_lines(ls)`.
proof fn lemma_join_lines_at(ls: Seq<Seq<char>>, j: int) -> (p: int)
    requires
        0 <= j < ls.len(),
    ensures
        0 <= p,
        p + ls[j].len() <= join_lines(ls).len(),
        p == 0 || join_lines(ls)[p - 1] == '\n',
        join_lines(ls).subrange(p, p + ls[j].len()) == ls[j],
        j == ls.len() - 1 ==> p + ls[j].len() == join_lines(ls).len(),
        j < ls.len() - 1 ==> join_lines(ls)[p + ls[j].len()] == '\n',
    decreases ls.len(),
{
    if ls.len() == 1 {
        assert(join_lines(ls).subrange(0, ls[0].len() as int) =~= ls[0]);
        0
    } else {
        let init = ls.drop_last();
        let a = join_lines(init);
        let t = a + seq!['\n'] + ls.last();
        assert(join_lines(ls) == t);
        if j == ls.len() - 1 {
            let p = a.len() + 1int;
            assert(t.subrange(p, p + ls[j].len()) =~= ls[j]);
            assert(t[p - 1] == '\n');
            p
        } else {
            let p = lemma_join_lines_at(init, j);
            let e: int = p + ls[j].len();
            assert(init[j] == ls[j]);
            assert(t.subrange(p, e) =~= a.subrange(p, e));
            if p > 0 {
                assert(t[p - 1] == a[p - 1]);
            }
            if j < init.len() - 1 {
                assert(t[e] == a[e]);
            } else {
                assert(t[e] == '\n');
            }
            p
        }
    }
}

/// Dropping the bytes of the first `k` characters leaves the rest.
proof fn lemma_drop_bytes_prefix(l: Seq<char>, k: int)
    requires
        0 <= k <= l.len(),
    ensures
        drop_bytes(l, utf8_len(l.take(k)) as int) == Some(l.skip(k)),
    decreases k,
{
    if k == 0 {
        assert(l.take(0) =~= Seq::<char>::empty());
        assert(l.skip(0) =~= l);
    } else {
        let t = l.drop_first();
        assert(l.take(k) =~= seq![l[0]] + t.take(k - 1));
        lemma_utf8_len_concat(seq![l[0]], t.take(k - 1));
        lemma_utf8_len_single(l[0]);
        lemma_drop_bytes_prefix(t, k - 1);
        assert(t.skip(k - 1) =~= l.skip(k));
    }
}

/// The smallest indentation is that of some non-blank line and at most
/// that of each; there is none only when every line is blank.
proof fn lemma_min_indent(ls: Seq<Seq<char>>)
    ensures
        min_indent(ls) is None ==> forall|j: int| 0 <= j < ls.len() ==> is_blank(#[trigger] ls[j]),
        min_indent(ls) matches Some(m) ==> exists|j: int|
            0 <= j < ls.len() && !is_blank(#[trigger] ls[j]) && indent_bytes(ls[j]) == m,
        min_indent(ls) matches Some(m) ==> forall|j: int|
            0 <= j < ls.len() && !is_blank(#[trigger] ls[j]) ==> m <= indent_bytes(ls[j]),
    decreases ls.len(),
{
    if ls.len() > 0 {
        let init = ls.drop_last();
        let last = ls.len() - 1;
        lemma_min_indent(init);
        assert forall|j: int| 0 <= j < init.len() implies #[trigger] init[j] == ls[j] by {}
        match min_indent(init) {
            Some(m0) => {
                let w = choose|j: int|
                    0 <= j < init.len() && !is_blank(#[trigger] init[j]) && indent_bytes(init[j])
                        == m0;
                assert(ls[w] == init[w]);
                assert(!is_blank(ls[w]));
                if !is_blank(ls[last]) {
                    assert(!is_blank(ls[last]));
                }
            },
            None => {
                if !is_blank(ls[last]) {
                    assert(!is_blank(ls[last]));
                }
            },
        }
        assert forall|j: int| 0 <= j < ls.len() && !is_blank(#[trigger] ls[j]) implies (
        min_indent(ls) matches Some(m) && m <= indent_bytes(ls[j])) by {
            if j < last {
                assert(ls[j] == init[j]);
            }
        }
    }
}

/// Dedenting removes all the common indentation: a second pass finds none
/// left and changes nothing.
pub proof fn lemma_dedent_idempotent(text: Seq<char>)
    ensures
        dedented(dedented(text)) == dedented(text),
{
    let ls = text_lines(text);
    if let Some(m) = min_indent(ls) {
        if m != 0 {
            let dls = Seq::new(ls.len(), |i: int| dedent_line(ls[i], m));
            let d = dedented(text);
            let tail = if text.len() > 0 && text.last() == '\n' {
                seq!['\n']
            } else {
                Seq::<char>::empty()
            };
            let jt = join_lines(dls);
            assert(d == jt + tail);
            lemma_min_indent(ls);
            let j0 = choose|j: int|
                0 <= j < ls.len() && !is_blank(#[trigger] ls[j]) && indent_bytes(ls[j]) == m;
            let l = ls[j0];
            let k = skip_white_space(l, 0);
            lemma_skip_white_space(l, 0);
            if k == l.len() {
                assert(is_blank(l));
            }
            lemma_drop_bytes_prefix(l, k);
            let dl = l.skip(k);
            assert(dls[j0] == dl);
            assert(!is_white_space(dl[0]));
            lemma_text_lines_newline_free(text);
            assert(newline_free(l));
            assert forall|x: int| 0 <= x < dl.len() implies #[trigger] dl[x] != '\n' by {
                assert(dl[x] == l[x + k]);
            }
            let p = lemma_join_lines_at(dls, j0);
            let e: int = p + dl.len();
            assert(d.subrange(p, e) == jt.subrange(p, e));
            assert(p == 0 || d[p - 1] == jt[p - 1]);
            let r = d.skip(p);
            assert(r.take(dl.len() as int) =~= dl);
            if e < d.len() {
                if e < jt.len() {
                    assert(d[e] == jt[e]);
                } else {
                    assert(d[e] == '\n');
                }
            }
            let q = lemma_text_lines_from(d, p);
            lemma_text_lines_first(r, dl);
            let ls2 = text_lines(d);
            let line = ls2[q];
            assert(line == text_lines(r)[0]);
            assert(line[0] == dl[0]);
            assert(!is_blank(line));
            assert(skip_white_space(line, 0) == 0);
            assert(line.take(0) =~= Seq::<char>::empty());
            assert(indent_bytes(line) == 0);
            lemma_min_indent(ls2);
            assert(min_indent(ls2) == Some(0int));
        }
    }
}

} // verus!
