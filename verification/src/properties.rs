//! Properties of extraction that relate it to classification and to the
//! source it starts from: it is idempotent, and it keeps the code around the
//! test module.

use vstd::prelude::*;

use crate::classify::{classification_of, Classification};
use crate::eject::{ejection, normalized, stub, test_file_name_for, tests_suffix, path_attr_open};
use crate::error::EjectError;
use crate::scan_state::ScanState;
use crate::scanner::{
    attr_opener, body_opener, cfg_test_keyword, code_match, lemma_region_search_found,
    lemma_region_shape,
    matches_at, mod_tests_after_attrs, mod_tests_keyword, module_with, region_search,
    scan_state_at, test_module_region,
};
use crate::text::{
    find_char_from, is_white_space, lemma_find_char_from, lemma_skip_white_space,
    lemma_trimmed_end_len, skip_white_space, trimmed_end_len,
};

verus! {

broadcast use vstd::seq_lib::group_seq_properties;

/// `a` and `b` hold the same first `n` characters.
pub open spec fn agree(a: Seq<char>, b: Seq<char>, n: int) -> bool {
    &&& 0 <= n <= a.len()
    &&& n <= b.len()
    &&& forall|i: int| 0 <= i < n ==> #[trigger] a[i] == b[i]
}

proof fn lemma_scan_state_agree(a: Seq<char>, b: Seq<char>, j: int)
    requires
        0 <= j,
        agree(a, b, j),
    ensures
        scan_state_at(a, j) == scan_state_at(b, j),
    decreases j,
{
    if j > 0 {
        lemma_scan_state_agree(a, b, j - 1);
        assert(a[j - 1] == b[j - 1]);
    }
}

proof fn lemma_skip_agree(a: Seq<char>, b: Seq<char>, n: int, pos: int, x: int)
    requires
        agree(a, b, n),
        0 <= pos <= x < n,
        !is_white_space(a[x]),
    ensures
        skip_white_space(a, pos) == skip_white_space(b, pos),
        skip_white_space(a, pos) <= x,
    decreases x - pos,
{
    assert(a[pos] == b[pos]);
    if is_white_space(a[pos]) {
        lemma_skip_agree(a, b, n, pos + 1, x);
    }
}

proof fn lemma_find_agree(a: Seq<char>, b: Seq<char>, n: int, pos: int, x: int, c: char)
    requires
        agree(a, b, n),
        0 <= pos <= x < n,
        a[x] == c,
    ensures
        find_char_from(a, pos, c) == find_char_from(b, pos, c),
        find_char_from(a, pos, c) matches Some(f) && pos <= f <= x,
    decreases x - pos,
{
    assert(a[pos] == b[pos]);
    if a[pos] != c {
        lemma_find_agree(a, b, n, pos + 1, x, c);
    }
}

proof fn lemma_matches_agree(a: Seq<char>, b: Seq<char>, n: int, p: int, kw: Seq<char>)
    requires
        agree(a, b, n),
        0 <= p,
        p + kw.len() <= n,
    ensures
        matches_at(a, p, kw) == matches_at(b, p, kw),
{
    assert(a.subrange(p, p + kw.len()) =~= b.subrange(p, p + kw.len()));
}

/// Walking the attributes from `pos <= k` in a text that agrees with `cs`
/// up to the end of the `#[cfg(test)]` at `k` goes the same way, unless the
/// walk in `cs` ends where the walk after that `#[cfg(test)]` ends.
proof fn lemma_walk_agree(cs: Seq<char>, m: Seq<char>, k: int, pos: int)
    requires
        agree(cs, m, k + 12),
        matches_at(cs, k, cfg_test_keyword()),
        0 <= pos <= k,
        mod_tests_after_attrs(cs, pos) != mod_tests_after_attrs(cs, k + 12),
    ensures
        mod_tests_after_attrs(m, pos) == mod_tests_after_attrs(cs, pos),
        mod_tests_after_attrs(cs, pos) matches Some(q) ==> q < k,
    decreases k - pos,
{
    let kw = cfg_test_keyword();
    assert(cs[k] == cs.subrange(k, k + 12)[0]);
    assert(cs[k] == '#');
    lemma_skip_agree(cs, m, k + 12, pos, k);
    lemma_skip_white_space(cs, pos);
    let p = skip_white_space(cs, pos);
    if p == k {
        assert(cs[k + 1] == cs.subrange(k, k + 12)[1]);
        assert(!matches_at(cs, k, mod_tests_keyword())) by {
            if matches_at(cs, k, mod_tests_keyword()) {
                assert(cs[k] == cs.subrange(k, k + 9)[0]);
            }
        }
        assert(matches_at(cs, k, attr_opener())) by {
            assert(cs.subrange(k, k + 2) =~= attr_opener());
        }
        assert(cs[k + 11] == cs.subrange(k, k + 12)[11]);
        assert forall|i: int| k <= i < k + 11 implies cs[i] != ']' by {
            assert(cs[i] == cs.subrange(k, k + 12)[i - k]);
        }
        lemma_find_char_from(cs, k, ']');
        assert(find_char_from(cs, k, ']') == Some(k + 11));
        assert(false);
    } else {
        lemma_matches_agree(cs, m, k + 12, p, mod_tests_keyword());
        lemma_matches_agree(cs, m, k + 12, p, attr_opener());
        if matches_at(cs, p, mod_tests_keyword()) {
            assert(cs[p + 9] == m[p + 9]);
        } else if matches_at(cs, p, attr_opener()) {
            assert(cs[k + 11] == cs.subrange(k, k + 12)[11]);
            lemma_find_agree(cs, m, k + 12, p, k + 11, ']');
            let f = find_char_from(cs, p, ']')->0;
            lemma_find_char_from(cs, p, ']');
            if f + 1 > k {
                assert(cs[f] == cs.subrange(k, k + 12)[f - k]);
                assert(f == k + 11);
                assert(false);
            }
            lemma_walk_agree(cs, m, k, f + 1);
        }
    }
}

/// Only the first test module counts: no position before the found region
/// holds a `#[cfg(test)] mod tests` with a body or with `;`.
pub proof fn lemma_region_search_before(cs: Seq<char>, j: int)
    requires
        0 <= j,
    ensures
        region_search(cs, j) matches Ok(g) ==> forall|p: int|
            j <= p < g.0 ==> !module_with(cs, p, '{') && !module_with(cs, p, ';'),
    decreases cs.len() - j,
{
    if 0 <= j < cs.len() && !module_with(cs, j, '{') && !module_with(cs, j, ';') {
        lemma_region_search_before(cs, j + 1);
    }
}

/// With no `mod tests {` before `k` and `mod tests;` at `k`, the search
/// reports the tests as already external.
proof fn lemma_region_search_external(m: Seq<char>, k: int, j: int)
    requires
        0 <= j <= k < m.len(),
        forall|p: int| 0 <= p < k ==> !module_with(m, p, '{'),
        module_with(m, k, ';'),
    ensures
        region_search(m, j) == Err::<(int, int, int, int), EjectError>(EjectError::AlreadyExternal),
    decreases k - j,
{
    if j < k && !module_with(m, j, ';') {
        lemma_region_search_external(m, k, j + 1);
    }
    if j == k {
        assert(!module_with(m, k, '{'));
    }
}

proof fn lemma_trimmed_keeps(t: Seq<char>, i: int)
    requires
        0 <= i < t.len(),
        !is_white_space(t[i]),
    ensures
        trimmed_end_len(t) >= i + 1,
    decreases t.len(),
{
    if t.len() - 1 > i && is_white_space(t.last()) {
        lemma_trimmed_keeps(t.drop_last(), i);
    }
}

/// The modified source: the original up to `k`, then the stub, as far as
/// the stub's `;`, and the original's `#[cfg(test)]` at `k` is kept.
proof fn lemma_modified_layout(cs: Seq<char>, stem: Seq<char>)
    requires
        ejection(cs, stem) is Ok,
    ensures
        ({
            let g = test_module_region(cs)->Ok_0;
            let k = g.0;
            let name = test_file_name_for(stem);
            let m = ejection(cs, stem)->Ok_0.0;
            &&& 0 <= k
            &&& code_match(cs, cfg_test_keyword(), k)
            &&& forall|p: int| 0 <= p < k ==> !module_with(cs, p, '{') && !module_with(cs, p, ';')
            &&& module_with(cs, k, '{')
            &&& agree(cs, m, k + 12)
            &&& k + 36 + name.len() <= m.len()
            &&& forall|x: int| 0 <= x < 36 + name.len() ==> #[trigger] m[k + x] == stub(name)[x]
        }),
{
    let g = test_module_region(cs)->Ok_0;
    let k = g.0;
    let name = test_file_name_for(stem);
    let n = name.len() as int;
    let st = stub(name);
    let m0 = cs.take(k) + st + cs.skip(g.1);
    let m = normalized(m0);
    let kw = cfg_test_keyword();
    lemma_region_search_found(cs, 0);
    lemma_region_search_before(cs, 0);
    assert(k + 12 <= cs.len());
    assert(st.len() == 37 + n);
    assert forall|x: int| 0 <= x < st.len() implies #[trigger] m0[k + x] == st[x] by {
        assert(m0[k + x] == (cs.take(k) + st)[k + x]);
    }
    assert(m0[k + 35 + n] == ';') by {
        assert(st[35 + n] == ';');
    }
    lemma_trimmed_keeps(m0, k + 35 + n);
    lemma_trimmed_end_len(m0);
    let tl = trimmed_end_len(m0);
    assert forall|i: int| 0 <= i < k + 36 + n implies #[trigger] m[i] == m0[i] by {
        assert(m[i] == m0.take(tl)[i]);
    }
    assert forall|x: int| 0 <= x < 36 + n implies #[trigger] m[k + x] == st[x] by {
        assert(m[k + x] == m0[k + x]);
    }
    assert forall|i: int| 0 <= i < k + 12 implies #[trigger] cs[i] == m[i] by {
        if i < k {
            assert(m[i] == m0[i]);
            assert(m0[i] == cs.take(k)[i]);
        } else {
            assert(m[i] == m0[k + (i - k)]);
            assert(st[i - k] == kw[i - k]);
            assert(cs[i] == cs.subrange(k, k + 12)[i - k]);
        }
    }
}

/// No `mod tests {` opens before `k` in the modified source.
proof fn lemma_no_body_before(cs: Seq<char>, m: Seq<char>, k: int)
    requires
        0 <= k,
        code_match(cs, cfg_test_keyword(), k),
        forall|p: int| 0 <= p < k ==> !module_with(cs, p, '{') && !module_with(cs, p, ';'),
        module_with(cs, k, '{'),
        agree(cs, m, k + 12),
    ensures
        forall|p: int| 0 <= p < k ==> !module_with(m, p, '{'),
{
    let kw = cfg_test_keyword();
    assert forall|p: int| 0 <= p < k implies !module_with(m, p, '{') by {
        if module_with(m, p, '{') {
            lemma_scan_state_agree(cs, m, p);
            lemma_matches_agree(cs, m, k + 12, p, kw);
            assert(code_match(cs, kw, p));
            if p + 12 > k {
                assert(cs[k] == cs.subrange(k, k + 12)[0]);
                assert(cs[k] == cs.subrange(p, p + 12)[k - p]);
                assert(false);
            }
            if mod_tests_after_attrs(cs, p + 12) == mod_tests_after_attrs(cs, k + 12) {
                assert(body_opener(cs, p) == body_opener(cs, k));
                assert(module_with(cs, p, '{'));
                assert(false);
            }
            lemma_walk_agree(cs, m, k, p + 12);
            let q = mod_tests_after_attrs(cs, p + 12)->0;
            assert(q < k);
            lemma_skip_white_space(cs, q + 9);
            let s = skip_white_space(cs, q + 9);
            if q + 9 <= k {
                assert(cs[k] == cs.subrange(k, k + 12)[0]);
                lemma_skip_agree(cs, m, k + 12, q + 9, k);
            } else {
                assert(cs[q + 9] == cs.subrange(k, k + 12)[q + 9 - k]);
                assert(cs[q + 9] == m[q + 9]);
                assert(skip_white_space(m, q + 9) == q + 9);
            }
            assert(cs[s] == m[s]);
            assert(module_with(cs, p, '{'));
            assert(false);
        }
    }
}

/// The stub, read at `k`, is `mod tests;`.
proof fn lemma_stub_is_external(m: Seq<char>, k: int, stem: Seq<char>)
    requires
        0 <= k,
        !stem.contains(']'),
        code_match(m, cfg_test_keyword(), k),
        k + 36 + test_file_name_for(stem).len() <= m.len(),
        forall|x: int|
            0 <= x < 36 + test_file_name_for(stem).len() ==> #[trigger] m[k + x] == stub(
                test_file_name_for(stem),
            )[x],
    ensures
        module_with(m, k, ';'),
{
    let name = test_file_name_for(stem);
    let n = name.len() as int;
    let st = stub(name);
    assert(m[k + 12] == '\n') by {
        assert(m[k + 12] == st[12]);
    }
    assert(m[k + 13] == '#') by {
        assert(m[k + 13] == st[13]);
    }
    assert(skip_white_space(m, k + 13) == k + 13);
    assert(skip_white_space(m, k + 12) == k + 13);
    assert(matches_at(m, k + 13, attr_opener())) by {
        assert(m[k + 14] == st[14]);
        assert(m.subrange(k + 13, k + 15) =~= attr_opener());
    }
    assert(!matches_at(m, k + 13, mod_tests_keyword())) by {
        if matches_at(m, k + 13, mod_tests_keyword()) {
            assert(m[k + 13] == m.subrange(k + 13, k + 22)[0]);
        }
    }
    assert forall|i: int| k + 13 <= i < k + 24 + n implies m[i] != ']' by {
        let x = i - k;
        assert(m[k + x] == st[x]);
        if x < 23 {
            assert(st[x] == path_attr_open()[x - 13]);
        } else if x < 23 + n {
            assert(st[x] == name[x - 23]);
            if x - 23 < stem.len() {
                assert(name[x - 23] == stem[x - 23]);
                if stem[x - 23] == ']' {
                    assert(stem.contains(']'));
                }
            } else {
                assert(name[x - 23] == tests_suffix()[x - 23 - stem.len()]);
            }
        } else {
            assert(st[x] == '"');
        }
    }
    assert(m[k + 24 + n] == ']') by {
        assert(m[k + (24 + n)] == st[24 + n]);
    }
    lemma_find_char_from(m, k + 13, ']');
    assert(find_char_from(m, k + 13, ']') == Some(k + 24 + n));
    assert(m[k + 25 + n] == '\n') by {
        assert(m[k + (25 + n)] == st[25 + n]);
    }
    assert(matches_at(m, k + 26 + n, mod_tests_keyword())) by {
        assert forall|x: int| 0 <= x < 9 implies m.subrange(k + 26 + n, k + 35 + n)[x]
            == mod_tests_keyword()[x] by {
            assert(m[k + (26 + n + x)] == st[26 + n + x]);
        }
        assert(m.subrange(k + 26 + n, k + 35 + n) =~= mod_tests_keyword());
    }
    assert(m[k + 35 + n] == ';') by {
        assert(m[k + (35 + n)] == st[35 + n]);
    }
    assert(m[k + 26 + n] == 'm') by {
        assert(m[k + (26 + n)] == st[26 + n]);
    }
    assert(skip_white_space(m, k + 26 + n) == k + 26 + n);
    assert(skip_white_space(m, k + 25 + n) == k + 26 + n);
    assert(mod_tests_after_attrs(m, k + 25 + n) == Some(k + 26 + n));
    assert(mod_tests_after_attrs(m, k + 12) == Some(k + 26 + n));
    assert(skip_white_space(m, k + 35 + n) == k + 35 + n);
    assert(body_opener(m, k) == Some(k + 35 + n));
}

/// Extraction is idempotent: when the file stem holds no `]`, the modified
/// source classifies as already external, so a second run skips it.
pub proof fn lemma_ejected_source_is_external(cs: Seq<char>, stem: Seq<char>)
    requires
        ejection(cs, stem) is Ok,
        !stem.contains(']'),
    ensures
        ejection(cs, stem) matches Ok(t) && classification_of(t.0) == Classification::External,
{
    let g = test_module_region(cs)->Ok_0;
    let k = g.0;
    let m = ejection(cs, stem)->Ok_0.0;
    lemma_modified_layout(cs, stem);
    lemma_no_body_before(cs, m, k);
    lemma_scan_state_agree(cs, m, k);
    lemma_matches_agree(cs, m, k + 12, k, cfg_test_keyword());
    lemma_stub_is_external(m, k, stem);
    lemma_region_search_external(m, k, 0);
}

/// Extraction keeps the code before the test module character for
/// character, and the stub follows it.
pub proof fn lemma_code_before_module_kept(cs: Seq<char>, stem: Seq<char>)
    requires
        ejection(cs, stem) is Ok,
    ensures
        ({
            let k = test_module_region(cs)->Ok_0.0;
            let st = stub(test_file_name_for(stem));
            let m = ejection(cs, stem)->Ok_0.0;
            &&& m.take(k) == cs.take(k)
            &&& m.subrange(k, k + st.len() - 1) == st.drop_last()
        }),
{
    let k = test_module_region(cs)->Ok_0.0;
    let st = stub(test_file_name_for(stem));
    let m = ejection(cs, stem)->Ok_0.0;
    let n = test_file_name_for(stem).len() as int;
    lemma_modified_layout(cs, stem);
    assert(st.len() == 37 + n);
    assert(m.take(k) =~= cs.take(k));
    assert forall|x: int| 0 <= x < 36 + n implies m.subrange(k, k + st.len() - 1)[x]
        == st.drop_last()[x] by {
        assert(m[k + x] == st[x]);
    }
    assert(m.subrange(k, k + st.len() - 1) =~= st.drop_last());
}

/// Trailing white space of a concatenation: that of the second part, or,
/// when the second part is all white space, that of the first.
proof fn lemma_trimmed_concat(a: Seq<char>, b: Seq<char>)
    ensures
        trimmed_end_len(b) > 0 ==> trimmed_end_len(a + b) == a.len() + trimmed_end_len(b),
        trimmed_end_len(b) == 0 ==> trimmed_end_len(a + b) == trimmed_end_len(a),
    decreases b.len(),
{
    if b.len() == 0 {
        assert(a + b =~= a);
    } else {
        assert((a + b).drop_last() =~= a + b.drop_last());
        assert((a + b).last() == b.last());
        if is_white_space(b.last()) {
            lemma_trimmed_concat(a, b.drop_last());
        }
    }
}

/// A text ending in a non-white character and `\n`, followed by the part of
/// `cs` from `e` on, normalizes to that text and the rest of `cs` up to its
/// trailing white space, then `\n`; or to the text alone.
proof fn lemma_normalized_join(pre: Seq<char>, cs: Seq<char>, e: int)
    requires
        pre.len() >= 2,
        pre.last() == '\n',
        !is_white_space(pre[pre.len() - 2]),
        0 <= e <= cs.len(),
    ensures
        normalized(pre + cs.skip(e)) == pre + if trimmed_end_len(cs) > e {
            cs.subrange(e, trimmed_end_len(cs)).push('\n')
        } else {
            Seq::<char>::empty()
        },
{
    let t = trimmed_end_len(cs);
    let suf = cs.skip(e);
    let m0 = pre + suf;
    assert(is_white_space('\n'));
    assert(pre.drop_last().last() == pre[pre.len() - 2]);
    assert(trimmed_end_len(pre.drop_last()) == pre.len() - 1);
    assert(trimmed_end_len(pre) == trimmed_end_len(pre.drop_last()));
    assert(cs =~= cs.take(e) + suf);
    lemma_trimmed_concat(cs.take(e), suf);
    lemma_trimmed_end_len(cs.take(e));
    lemma_trimmed_end_len(cs);
    lemma_trimmed_end_len(suf);
    assert(trimmed_end_len(cs) == trimmed_end_len(cs.take(e) + suf));
    lemma_trimmed_concat(pre, suf);
    if t > e {
        assert(trimmed_end_len(suf) == t - e);
        assert(m0.take(trimmed_end_len(m0)) =~= pre + cs.subrange(e, t));
        assert(normalized(m0) =~= pre + cs.subrange(e, t).push('\n'));
    } else {
        assert(trimmed_end_len(suf) == 0);
        assert(m0.take(trimmed_end_len(m0)) =~= pre.drop_last());
        assert(normalized(m0) =~= pre);
    }
}

/// Extraction keeps the code after the test module: the modified source is
/// the code before the module, the stub, and everything after the module
/// up to its trailing white space, followed by one `\n`; when only white
/// space follows the module, the stub ends the file.
pub proof fn lemma_code_after_module_kept(cs: Seq<char>, stem: Seq<char>)
    requires
        ejection(cs, stem) is Ok,
    ensures
        ({
            let g = test_module_region(cs)->Ok_0;
            let t = trimmed_end_len(cs);
            ejection(cs, stem)->Ok_0.0 == cs.take(g.0) + stub(test_file_name_for(stem)) + if t
                > g.1 {
                cs.subrange(g.1, t).push('\n')
            } else {
                Seq::<char>::empty()
            }
        }),
{
    let g = test_module_region(cs)->Ok_0;
    let st = stub(test_file_name_for(stem));
    let n = test_file_name_for(stem).len() as int;
    lemma_region_shape(cs);
    let pre = cs.take(g.0) + st;
    assert(st.len() == 37 + n);
    assert(pre.last() == st[36 + n]);
    assert(pre[pre.len() - 2] == st[35 + n]);
    assert(!is_white_space(';'));
    lemma_normalized_join(pre, cs, g.1);
}

} // verus!
