//! Locating the `#[cfg(test)] mod tests { ... }` block in source text,
//! skipping what stands in comments and literals.

use vstd::prelude::*;

use crate::error::EjectError;
use crate::scan_state::{
    counter, depth_positive, lemma_block_comment_returns_to_code, lemma_scan_run_concat,
    lemma_string_literal_returns_to_code, lemma_transition, plain_comment_body, scan_run,
    string_body, transition, BraceAction, ScanState,
};
use crate::text::{
    chars_of, find_char, find_char_from, lemma_find_char_from, lemma_skip_white_space,
    skip_white_space, skip_white_space_from, str_byte_len, utf8_len, utf8_len_of_prefix,
};

verus! {

broadcast use vstd::seq_lib::group_seq_properties;

/// `#[cfg(test)]`
pub open spec fn cfg_test_keyword() -> Seq<char> {
    seq!['#', '[', 'c', 'f', 'g', '(', 't', 'e', 's', 't', ')', ']']
}

/// `mod tests`
pub open spec fn mod_tests_keyword() -> Seq<char> {
    seq!['m', 'o', 'd', ' ', 't', 'e', 's', 't', 's']
}

/// `#[`, the start of an outer attribute.
pub open spec fn attr_opener() -> Seq<char> {
    seq!['#', '[']
}

/// `kw` stands in `cs` from index `k` on.
pub open spec fn matches_at(cs: Seq<char>, k: int, kw: Seq<char>) -> bool {
    0 <= k && k + kw.len() <= cs.len() && cs.subrange(k, k + kw.len()) == kw
}

/// The scanner's state before reading `cs[k]`, having started in code.
pub open spec fn scan_state_at(cs: Seq<char>, k: int) -> ScanState
    decreases k,
{
    if k <= 0 {
        ScanState::Normal
    } else {
        transition(scan_state_at(cs, k - 1), cs[k - 1]).next
    }
}

/// `needle` starts at `k`, and `k` is in code (not in a comment or literal).
pub open spec fn code_match(cs: Seq<char>, needle: Seq<char>, k: int) -> bool {
    scan_state_at(cs, k) is Normal && matches_at(cs, k, needle)
}

/// The characters that may follow `mod tests` for it to be the module.
pub open spec fn is_mod_follower(c: char) -> bool {
    c == '{' || c == ';' || c == ' ' || c == '\t' || c == '\n' || c == '\r'
}

/// From `pos`, skip white space and outer attributes (`#[` up to the first
/// `]`); the index of `mod tests` if it comes next.
pub open spec fn mod_tests_after_attrs(cs: Seq<char>, pos: int) -> Option<int>
    decreases cs.len() - pos,
{
    let p = skip_white_space(cs, pos);
    if matches_at(cs, p, mod_tests_keyword()) {
        if p + 9 >= cs.len() || is_mod_follower(cs[p + 9]) {
            Some(p)
        } else {
            None
        }
    } else if matches_at(cs, p, attr_opener()) {
        match find_char_from(cs, p, ']') {
            Some(c) => {
                proof {
                    lemma_skip_white_space(cs, pos);
                    lemma_find_char_from(cs, p, ']');
                }
                mod_tests_after_attrs(cs, c + 1)
            },
            None => None,
        }
    } else {
        None
    }
}

/// The spans `[start, end)` of the outer attributes that the walk of
/// `mod_tests_after_attrs` passes over, in order.
pub open spec fn outer_attrs(cs: Seq<char>, pos: int) -> Seq<(int, int)>
    decreases cs.len() - pos,
{
    let p = skip_white_space(cs, pos);
    if matches_at(cs, p, mod_tests_keyword()) {
        Seq::empty()
    } else if matches_at(cs, p, attr_opener()) {
        match find_char_from(cs, p, ']') {
            Some(c) => {
                proof {
                    lemma_skip_white_space(cs, pos);
                    lemma_find_char_from(cs, p, ']');
                }
                seq![(p, c + 1)] + outer_attrs(cs, c + 1)
            },
            None => Seq::empty(),
        }
    } else {
        Seq::empty()
    }
}

/// Scanning from `i` in state `s` at brace depth `depth`: the index of the
/// `}` that brings the depth to zero.
pub open spec fn close_brace_from(cs: Seq<char>, i: int, s: ScanState, depth: int) -> Option<int>
    decreases cs.len() - i,
{
    if i < 0 || i >= cs.len() {
        None
    } else {
        let a = transition(s, cs[i]);
        match a.brace {
            BraceAction::Open => close_brace_from(cs, i + 1, a.next, depth + 1),
            BraceAction::Close => if depth == 1 {
                Some(i)
            } else {
                close_brace_from(cs, i + 1, a.next, depth - 1)
            },
            BraceAction::Neutral => close_brace_from(cs, i + 1, a.next, depth),
        }
    }
}

/// The `}` matching the `{` at `open`, scanning what follows it as code.
pub open spec fn matching_close_brace(cs: Seq<char>, open: int) -> Option<int> {
    close_brace_from(cs, open + 1, ScanState::Normal, 1)
}

/// Where the block ends: just past the closing brace and one `\n` after it.
pub open spec fn block_end(cs: Seq<char>, close: int) -> int {
    if close + 1 < cs.len() && cs[close + 1] == '\n' {
        close + 2
    } else {
        close + 1
    }
}

/// For a `#[cfg(test)]` at `k`: the first character after `mod tests` and
/// white space, when `mod tests` follows the attributes.
pub open spec fn body_opener(cs: Seq<char>, k: int) -> Option<int> {
    match mod_tests_after_attrs(cs, k + 12) {
        Some(m) => Some(skip_white_space(cs, m + 9)),
        None => None,
    }
}

/// `#[cfg(test)]` in code at `k`, followed by `mod tests` and then by `c`.
pub open spec fn module_with(cs: Seq<char>, k: int, c: char) -> bool {
    &&& code_match(cs, cfg_test_keyword(), k)
    &&& body_opener(cs, k) matches Some(j)
    &&& 0 <= j < cs.len()
    &&& cs[j] == c
}

/// The test module region, in character indices `(outer_start, outer_end,
/// inner_start, inner_end)`: the first `#[cfg(test)]` in code at or after
/// `k` that leads to `mod tests {` or `mod tests;` decides.
pub open spec fn region_search(cs: Seq<char>, k: int) -> Result<(int, int, int, int), EjectError>
    decreases cs.len() - k,
{
    if k < 0 || k >= cs.len() {
        Err(EjectError::NoTestModule)
    } else if module_with(cs, k, '{') {
        let j = body_opener(cs, k)->0;
        match matching_close_brace(cs, j) {
            Some(close) => Ok((k, block_end(cs, close), j + 1, close)),
            None => Err(EjectError::RegionNotFound),
        }
    } else if module_with(cs, k, ';') {
        Err(EjectError::AlreadyExternal)
    } else {
        region_search(cs, k + 1)
    }
}

/// The region of the whole source.
pub open spec fn test_module_region(cs: Seq<char>) -> Result<(int, int, int, int), EjectError> {
    region_search(cs, 0)
}

/// Counters of reachable states never exceed the number of characters read.
pub proof fn lemma_scan_state_at(cs: Seq<char>, k: int)
    requires
        0 <= k <= usize::MAX,
    ensures
        counter(scan_state_at(cs, k)) <= k,
        depth_positive(scan_state_at(cs, k)),
    decreases k,
{
    if k > 0 {
        lemma_scan_state_at(cs, k - 1);
        lemma_transition(scan_state_at(cs, k - 1), cs[k - 1]);
    }
}

/// Whether `kw` stands in `cs` at `offset`.
pub(crate) fn starts_with_at(cs: &Vec<char>, kw: &Vec<char>, offset: usize) -> (r: bool)
    ensures
        r == matches_at(cs@, offset as int, kw@),
{
    if offset > cs.len() || kw.len() > cs.len() - offset {
        return false;
    }
    let n = cs.len();
    let mut i: usize = 0;
    while i < kw.len()
        invariant
            n == cs@.len(),
            offset + kw@.len() <= cs@.len(),
            i <= kw@.len(),
            forall|j: int| 0 <= j < i ==> cs@[offset + j] == kw@[j],
        decreases kw.len() - i,
    {
        if cs[offset + i] != kw[i] {
            assert(cs@.subrange(offset as int, offset + kw@.len())[i as int] != kw@[i as int]);
            return false;
        }
        i = i + 1;
    }
    assert(cs@.subrange(offset as int, offset + kw@.len()) =~= kw@);
    true
}

/// `#[cfg(test)]` as characters.
pub(crate) fn cfg_test_chars() -> (v: Vec<char>)
    ensures
        v@ == cfg_test_keyword(),
{
    let v = vec!['#', '[', 'c', 'f', 'g', '(', 't', 'e', 's', 't', ')', ']'];
    assert(v@ =~= cfg_test_keyword());
    v
}

/// `mod tests` as characters.
pub(crate) fn mod_tests_chars() -> (v: Vec<char>)
    ensures
        v@ == mod_tests_keyword(),
{
    let v = vec!['m', 'o', 'd', ' ', 't', 'e', 's', 't', 's'];
    assert(v@ =~= mod_tests_keyword());
    v
}

/// `#[` as characters.
pub(crate) fn attr_opener_chars() -> (v: Vec<char>)
    ensures
        v@ == attr_opener(),
{
    let v = vec!['#', '['];
    assert(v@ =~= attr_opener());
    v
}

/// Skipping positions where no `#[cfg(test)]` stands in code does not
/// change the outcome of the search.
pub proof fn lemma_region_search_skip(cs: Seq<char>, a: int, b: int)
    requires
        0 <= a <= b <= cs.len(),
        forall|k: int| a <= k < b ==> !code_match(cs, cfg_test_keyword(), k),
    ensures
        region_search(cs, a) == region_search(cs, b),
    decreases b - a,
{
    if a < b {
        assert(!code_match(cs, cfg_test_keyword(), a));
        lemma_region_search_skip(cs, a + 1, b);
    }
}

/// Every index where `needle` stands in code (outside comments and
/// literals), in increasing order.
pub(crate) fn find_cfg_test_in_code(cs: &Vec<char>, needle: &Vec<char>) -> (results: Vec<usize>)
    ensures
        forall|i: int|
            0 <= i < results@.len() ==> code_match(cs@, needle@, #[trigger] results@[i] as int)
                && results@[i] < cs@.len(),
        forall|i: int, j: int| 0 <= i < j < results@.len() ==> results@[i] < results@[j],
        forall|m: int|
            0 <= m < cs@.len() && #[trigger] code_match(cs@, needle@, m) ==> results@.contains(
                m as usize,
            ),
{
    let n = cs.len();
    let mut results: Vec<usize> = Vec::new();
    let mut state = ScanState::Normal;
    let mut k: usize = 0;
    while k < n
        invariant
            n == cs@.len(),
            k <= n,
            state == scan_state_at(cs@, k as int),
            forall|i: int|
                0 <= i < results@.len() ==> code_match(cs@, needle@, #[trigger] results@[i] as int)
                    && results@[i] < k,
            forall|i: int, j: int| 0 <= i < j < results@.len() ==> results@[i] < results@[j],
            forall|m: int|
                0 <= m < k && #[trigger] code_match(cs@, needle@, m) ==> results@.contains(
                    m as usize,
                ),
        decreases n - k,
    {
        proof {
            lemma_scan_state_at(cs@, k as int);
        }
        if state == ScanState::Normal && starts_with_at(cs, needle, k) {
            results.push(k);
            proof {
                assert(results@[results@.len() - 1] == k);
            }
        }
        proof {
            assert forall|m: int|
                0 <= m < k + 1 && #[trigger] code_match(cs@, needle@, m) implies results@.contains(
                m as usize,
            ) by {
                if m == k {
                    assert(results@[results@.len() - 1] == k);
                }
            }
        }
        state = state.advance(cs[k]).next;
        k = k + 1;
    }
    results
}

/// From `pos`, skip white space and outer attributes; the index of
/// `mod tests` when it comes next.
pub(crate) fn find_mod_tests_after_attrs(cs: &Vec<char>, from: usize) -> (r: Option<usize>)
    requires
        from <= cs@.len(),
    ensures
        r matches Some(m) ==> mod_tests_after_attrs(cs@, from as int) == Some(m as int),
        r is None ==> mod_tests_after_attrs(cs@, from as int) is None,
{
    let n = cs.len();
    let kw = mod_tests_chars();
    let attr = attr_opener_chars();
    let mut pos = from;
    loop
        invariant
            n == cs@.len(),
            pos <= n,
            kw@ == mod_tests_keyword(),
            attr@ == attr_opener(),
            mod_tests_after_attrs(cs@, from as int) == mod_tests_after_attrs(cs@, pos as int),
        decreases n - pos,
    {
        let p = skip_white_space_from(cs, pos);
        proof {
            lemma_skip_white_space(cs@, pos as int);
        }
        if starts_with_at(cs, &kw, p) {
            if p + 9 >= n || is_mod_follower_char(cs[p + 9]) {
                return Some(p);
            } else {
                return None;
            }
        } else if starts_with_at(cs, &attr, p) {
            match find_char(cs, p, ']') {
                Some(c) => {
                    proof {
                        lemma_find_char_from(cs@, p as int, ']');
                    }
                    pos = c + 1;
                },
                None => {
                    return None;
                },
            }
        } else {
            return None;
        }
    }
}

/// The spans of the outer attributes passed over on the way from `pos` to
/// `mod tests`.
pub(crate) fn outer_attribute_spans(cs: &Vec<char>, from: usize) -> (spans: Vec<(usize, usize)>)
    requires
        from <= cs@.len(),
    ensures
        spans@.map_values(|x: (usize, usize)| (x.0 as int, x.1 as int)) == outer_attrs(
            cs@,
            from as int,
        ),
        forall|i: int|
            0 <= i < spans@.len() ==> (#[trigger] spans@[i]).0 < spans@[i].1 <= cs@.len(),
{
    let n = cs.len();
    let kw = mod_tests_chars();
    let attr = attr_opener_chars();
    let mut spans: Vec<(usize, usize)> = Vec::new();
    let mut pos = from;
    loop
        invariant
            n == cs@.len(),
            pos <= n,
            kw@ == mod_tests_keyword(),
            attr@ == attr_opener(),
            outer_attrs(cs@, from as int) == spans@.map_values(
                |x: (usize, usize)| (x.0 as int, x.1 as int),
            ) + outer_attrs(cs@, pos as int),
            forall|i: int|
                0 <= i < spans@.len() ==> (#[trigger] spans@[i]).0 < spans@[i].1 <= cs@.len(),
        decreases n - pos,
    {
        let ghost old_spans = spans@;
        let p = skip_white_space_from(cs, pos);
        proof {
            lemma_skip_white_space(cs@, pos as int);
        }
        if starts_with_at(cs, &kw, p) {
            assert(outer_attrs(cs@, pos as int) =~= Seq::<(int, int)>::empty());
            assert(spans@.map_values(|x: (usize, usize)| (x.0 as int, x.1 as int)) + Seq::<
                (int, int),
            >::empty() =~= spans@.map_values(|x: (usize, usize)| (x.0 as int, x.1 as int)));
            return spans;
        } else if starts_with_at(cs, &attr, p) {
            match find_char(cs, p, ']') {
                Some(c) => {
                    proof {
                        lemma_find_char_from(cs@, p as int, ']');
                    }
                    spans.push((p, c + 1));
                    proof {
                        let f = |x: (usize, usize)| (x.0 as int, x.1 as int);
                        assert(spans@.map_values(f) =~= old_spans.map_values(f).push(
                            (p as int, c + 1),
                        ));
                        assert(outer_attrs(cs@, pos as int) == seq![(p as int, c + 1)]
                            + outer_attrs(cs@, c + 1));
                        assert(old_spans.map_values(f) + outer_attrs(cs@, pos as int)
                            =~= spans@.map_values(f) + outer_attrs(cs@, c + 1));
                    }
                    pos = c + 1;
                },
                None => {
                    assert(outer_attrs(cs@, pos as int) =~= Seq::<(int, int)>::empty());
                    assert(spans@.map_values(|x: (usize, usize)| (x.0 as int, x.1 as int))
                        + Seq::<(int, int)>::empty() =~= spans@.map_values(
                        |x: (usize, usize)| (x.0 as int, x.1 as int),
                    ));
                    return spans;
                },
            }
        } else {
            assert(outer_attrs(cs@, pos as int) =~= Seq::<(int, int)>::empty());
            assert(spans@.map_values(|x: (usize, usize)| (x.0 as int, x.1 as int)) + Seq::<
                (int, int),
            >::empty() =~= spans@.map_values(|x: (usize, usize)| (x.0 as int, x.1 as int)));
            return spans;
        }
    }
}

fn is_mod_follower_char(c: char) -> (r: bool)
    ensures
        r == is_mod_follower(c),
{
    c == '{' || c == ';' || c == ' ' || c == '\t' || c == '\n' || c == '\r'
}

/// The index of the `}` that matches the `{` at `open_pos`.
pub(crate) fn find_matching_close_brace(cs: &Vec<char>, open_pos: usize) -> (r: Result<usize, EjectError>)
    requires
        open_pos < cs@.len(),
    ensures
        r matches Ok(c) ==> matching_close_brace(cs@, open_pos as int) == Some(c as int),
        r matches Err(e) ==> matching_close_brace(cs@, open_pos as int) is None
            && e is RegionNotFound,
{
    let n = cs.len();
    let base = open_pos + 1;
    let mut depth: usize = 1;
    let mut state = ScanState::Normal;
    let mut i = base;
    while i < n
        invariant
            n == cs@.len(),
            base <= i <= n,
            base == open_pos + 1,
            matching_close_brace(cs@, open_pos as int) == close_brace_from(
                cs@,
                i as int,
                state,
                depth as int,
            ),
            1 <= depth <= 1 + (i - base),
            counter(state) <= i - base,
            depth_positive(state),
        decreases n - i,
    {
        proof {
            lemma_transition(state, cs@[i as int]);
        }
        let action = state.advance(cs[i]);
        state = action.next;
        match action.brace {
            BraceAction::Open => {
                depth = depth + 1;
            },
            BraceAction::Close => {
                depth = depth - 1;
                if depth == 0 {
                    return Ok(i);
                }
            },
            BraceAction::Neutral => {},
        }
        i = i + 1;
    }
    Err(EjectError::RegionNotFound)
}


/// Byte range of the `#[cfg(test)] mod tests { ... }` block in source text.
#[derive(Debug)]
pub struct TestModuleRegion {
    /// Byte offset where `#[cfg(test)]` starts.
    pub outer_start: usize,
    /// Byte offset just past the closing `}` (and one trailing newline).
    pub outer_end: usize,
    /// Byte offset of the first byte after the opening `{`.
    pub inner_start: usize,
    /// Byte offset of the closing `}`.
    pub inner_end: usize,
}

/// The test module region of `cs` in character indices.
pub(crate) fn locate_test_module(cs: &Vec<char>) -> (r: Result<(usize, usize, usize, usize), EjectError>)
    ensures
        r matches Ok(g) ==> test_module_region(cs@) == Ok::<(int, int, int, int), EjectError>(
            (g.0 as int, g.1 as int, g.2 as int, g.3 as int),
        ) && g.0 < g.2 <= g.3 < g.1 <= cs@.len(),
        r matches Err(e) ==> test_module_region(cs@) == Err::<(int, int, int, int), EjectError>(
            e,
        ),
{
    let n = cs.len();
    let cfg = cfg_test_chars();
    let positions = find_cfg_test_in_code(cs, &cfg);
    let mut idx: usize = 0;
    let mut next: usize = 0;
    while idx < positions.len()
        invariant
            n == cs@.len(),
            cfg@ == cfg_test_keyword(),
            idx <= positions@.len(),
            next <= n,
            idx < positions@.len() ==> next <= positions@[idx as int],
            forall|i: int|
                0 <= i < positions@.len() ==> code_match(cs@, cfg@, #[trigger] positions@[i] as int)
                    && positions@[i] < cs@.len(),
            forall|i: int, j: int| 0 <= i < j < positions@.len() ==> positions@[i] < positions@[j],
            forall|m: int|
                0 <= m < cs@.len() && #[trigger] code_match(cs@, cfg@, m) ==> positions@.contains(
                    m as usize,
                ),
            forall|i: int| 0 <= i < idx ==> positions@[i] < next,
            test_module_region(cs@) == region_search(cs@, next as int),
        decreases positions@.len() - idx,
    {
        let k = positions[idx];
        proof {
            assert forall|m: int| next <= m < k implies !code_match(cs@, cfg_test_keyword(), m) by {
                if code_match(cs@, cfg_test_keyword(), m) {
                    let j = positions@.index_of(m as usize);
                    assert(positions@[j] == m);
                    if j < idx {
                    } else if j > idx {
                        assert(positions@[idx as int] < positions@[j]);
                    }
                }
            }
            lemma_region_search_skip(cs@, next as int, k as int);
            assert(matches_at(cs@, k as int, cfg_test_keyword()));
        }
        let after_cfg = k + 12;
        match find_mod_tests_after_attrs(cs, after_cfg) {
            Some(m) => {
                proof {
                    lemma_mod_tests_after_attrs(cs@, after_cfg as int);
                }
                let j = skip_white_space_from(cs, m + 9);
                proof {
                    lemma_skip_white_space(cs@, m + 9);
                }
                if j < n && cs[j] == '{' {
                    assert(module_with(cs@, k as int, '{'));
                    let close = find_matching_close_brace(cs, j)?;
                    proof {
                        lemma_close_brace_from_bounds(cs@, j + 1, ScanState::Normal, 1);
                    }
                    let outer_end = if close + 1 < n && cs[close + 1] == '\n' {
                        close + 2
                    } else {
                        close + 1
                    };
                    return Ok((k, outer_end, j + 1, close));
                } else if j < n && cs[j] == ';' {
                    assert(module_with(cs@, k as int, ';'));
                    return Err(EjectError::AlreadyExternal);
                }
                assert(!module_with(cs@, k as int, '{') && !module_with(cs@, k as int, ';'));
            },
            None => {
                assert(!module_with(cs@, k as int, '{') && !module_with(cs@, k as int, ';'));
            },
        }
        assert(region_search(cs@, k as int) == region_search(cs@, k + 1));
        next = k + 1;
        idx = idx + 1;
    }
    proof {
        assert forall|m: int| next <= m < n implies !code_match(cs@, cfg_test_keyword(), m) by {
            if code_match(cs@, cfg_test_keyword(), m) {
                let j = positions@.index_of(m as usize);
                assert(positions@[j] == m);
            }
        }
        lemma_region_search_skip(cs@, next as int, n as int);
    }
    Err(EjectError::NoTestModule)
}

/// The walk ends on `mod tests` when it succeeds.
pub proof fn lemma_mod_tests_after_attrs(cs: Seq<char>, pos: int)
    requires
        0 <= pos,
    ensures
        mod_tests_after_attrs(cs, pos) matches Some(m) ==> pos <= m && matches_at(
            cs,
            m,
            mod_tests_keyword(),
        ),
    decreases cs.len() - pos,
{
    let p = skip_white_space(cs, pos);
    lemma_skip_white_space(cs, pos);
    if !matches_at(cs, p, mod_tests_keyword()) && matches_at(cs, p, attr_opener()) {
        lemma_find_char_from(cs, p, ']');
        if let Some(c) = find_char_from(cs, p, ']') {
            lemma_mod_tests_after_attrs(cs, c + 1);
        }
    }
}

/// The closing brace found by a scan lies where the scan went.
pub proof fn lemma_close_brace_from_bounds(cs: Seq<char>, i: int, s: ScanState, depth: int)
    ensures
        close_brace_from(cs, i, s, depth) matches Some(c) ==> i <= c < cs.len() && cs[c] == '}',
    decreases cs.len() - i,
{
    if 0 <= i < cs.len() {
        let a = transition(s, cs[i]);
        lemma_transition_close(s, cs[i]);
        match a.brace {
            BraceAction::Open => lemma_close_brace_from_bounds(cs, i + 1, a.next, depth + 1),
            BraceAction::Close => if depth != 1 {
                lemma_close_brace_from_bounds(cs, i + 1, a.next, depth - 1)
            },
            BraceAction::Neutral => lemma_close_brace_from_bounds(cs, i + 1, a.next, depth),
        }
    }
}

proof fn lemma_transition_close(s: ScanState, ch: char)
    ensures
        transition(s, ch).brace is Close ==> ch == '}',
{
}

/// Locate the `#[cfg(test)] mod tests { ... }` block in source text, as
/// byte offsets; matches inside comments or string literals are skipped.
pub fn find_test_module_region(source: &str) -> (r: Result<TestModuleRegion, EjectError>)
    ensures
        match test_module_region(source@) {
            Ok(g) => r matches Ok(t) && t.outer_start == utf8_len(source@.take(g.0))
                && t.outer_end == utf8_len(source@.take(g.1)) && t.inner_start == utf8_len(
                source@.take(g.2),
            ) && t.inner_end == utf8_len(source@.take(g.3)),
            Err(e) => r matches Err(f) && f == e,
        },
{
    let cs = chars_of(source);
    let total = str_byte_len(source);
    let (a, b, c, d) = locate_test_module(&cs)?;
    Ok(TestModuleRegion {
        outer_start: utf8_len_of_prefix(&cs, a),
        outer_end: utf8_len_of_prefix(&cs, b),
        inner_start: utf8_len_of_prefix(&cs, c),
        inner_end: utf8_len_of_prefix(&cs, d),
    })
}

/// The state at `k` is the state after reading the first `k` characters.
pub proof fn lemma_scan_state_at_run(cs: Seq<char>, k: int)
    requires
        0 <= k <= cs.len(),
    ensures
        scan_state_at(cs, k) == scan_run(ScanState::Normal, cs.take(k)),
    decreases k,
{
    if k > 0 {
        lemma_scan_state_at_run(cs, k - 1);
        assert(cs.take(k).drop_last() =~= cs.take(k - 1));
        assert(cs.take(k).last() == cs[k - 1]);
    }
}

/// What stands in code between `a` and `b` that leads back to code: the
/// scan is in code at `b` when it is at `a`.
proof fn lemma_back_to_code(cs: Seq<char>, a: int, b: int)
    requires
        0 <= a <= b <= cs.len(),
        scan_state_at(cs, a) is Normal,
        scan_run(ScanState::Normal, cs.subrange(a, b)) is Normal,
    ensures
        scan_state_at(cs, b) is Normal,
{
    lemma_scan_state_at_run(cs, a);
    lemma_scan_state_at_run(cs, b);
    assert(cs.take(b) =~= cs.take(a) + cs.subrange(a, b));
    lemma_scan_run_concat(ScanState::Normal, cs.take(a), cs.subrange(a, b));
}

/// A string literal read in code, each `\` escaping one character, is
/// followed by code: what comes after its closing `"` is scanned as code.
pub proof fn lemma_code_after_string_literal(cs: Seq<char>, a: int, body: Seq<char>)
    requires
        0 <= a,
        a + body.len() + 2 <= cs.len(),
        scan_state_at(cs, a) is Normal,
        string_body(body),
        cs.subrange(a, a + body.len() + 2) == seq!['"'] + body + seq!['"'],
    ensures
        scan_state_at(cs, a + body.len() + 2) is Normal,
{
    lemma_string_literal_returns_to_code(body);
    lemma_back_to_code(cs, a, a + body.len() + 2);
}

/// A block comment read in code, with no `/*` or `*/` inside, is followed
/// by code: what comes after its first `*/` is scanned as code.
pub proof fn lemma_code_after_block_comment(cs: Seq<char>, a: int, body: Seq<char>)
    requires
        0 <= a,
        a + body.len() + 4 <= cs.len(),
        scan_state_at(cs, a) is Normal,
        plain_comment_body(body),
        cs.subrange(a, a + body.len() + 4) == seq!['/', '*'] + body + seq!['*', '/'],
    ensures
        scan_state_at(cs, a + body.len() + 4) is Normal,
{
    lemma_block_comment_returns_to_code(body);
    lemma_back_to_code(cs, a, a + body.len() + 4);
}

/// What a successful search found: a `#[cfg(test)]` in code, followed by
/// `mod tests` and the `{` just before the inner range.
pub proof fn lemma_region_search_found(cs: Seq<char>, k: int)
    requires
        0 <= k,
    ensures
        region_search(cs, k) matches Ok(g) ==> k <= g.0 && code_match(cs, cfg_test_keyword(), g.0)
            && body_opener(cs, g.0) == Some(g.2 - 1) && module_with(cs, g.0, '{')
            && matching_close_brace(cs, g.2 - 1) == Some(g.3) && g.1 == block_end(cs, g.3),
    decreases cs.len() - k,
{
    if 0 <= k < cs.len() && !module_with(cs, k, '{') && !module_with(cs, k, ';') {
        lemma_region_search_found(cs, k + 1);
    }
}

/// The shape of a found region: it starts with `#[cfg(test)]` in code,
/// its inner range lies between a `{` and the `}` that the scan matches to
/// it, and it ends just past that `}` and at most one following `\n`.
pub proof fn lemma_region_shape(cs: Seq<char>)
    requires
        test_module_region(cs) is Ok,
    ensures
        ({
            let g = test_module_region(cs)->Ok_0;
            &&& 0 <= g.0 && g.0 + 12 <= g.2 <= g.3 < g.1 <= cs.len()
            &&& scan_state_at(cs, g.0) is Normal
            &&& cs.subrange(g.0, g.0 + 12) == cfg_test_keyword()
            &&& cs[g.2 - 1] == '{'
            &&& matching_close_brace(cs, g.2 - 1) == Some(g.3)
            &&& cs[g.3] == '}'
            &&& g.1 == block_end(cs, g.3)
        }),
{
    let g = test_module_region(cs)->Ok_0;
    lemma_region_search_found(cs, 0);
    lemma_mod_tests_after_attrs(cs, g.0 + 12);
    let m = mod_tests_after_attrs(cs, g.0 + 12)->0;
    lemma_skip_white_space(cs, m + 9);
    lemma_close_brace_from_bounds(cs, g.2, ScanState::Normal, 1);
}

/// A found region leaves room for its `#[cfg(test)]`.
pub proof fn lemma_region_start_fits(cs: Seq<char>)
    ensures
        test_module_region(cs) matches Ok(g) ==> 0 <= g.0 && g.0 + 12 <= cs.len(),
{
    lemma_region_search_found(cs, 0);
}

} // verus!
