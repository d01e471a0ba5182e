//! Extraction of the inline test module: the stub that replaces it, the
//! dedented content of the new file, and the check that the result parses.

use vstd::prelude::*;

use crate::error::EjectError;
use crate::scanner::{
    cfg_test_chars, cfg_test_keyword, lemma_region_start_fits, locate_test_module,
    mod_tests_chars, mod_tests_keyword, outer_attribute_spans, outer_attrs, starts_with_at,
    test_module_region,
};
use crate::text::{
    blank, byte_len_within, char_utf8_len, is_white_space, char_width, chars_of, copy_range, extend_all, extend_range, is_blank,
    lemma_skip_white_space, lemma_utf8_len_take_bound, lemma_utf8_len_take_next,
    skip_white_space, skip_white_space_from, split_lines, str_byte_len, string_from_chars,
    text_lines, trim_end_len, trimmed_end_len, utf8_len, utf8_len_of_prefix, lemma_trimmed_end_len,
    lemma_utf8_len_subrange,
};

verus! {

broadcast use vstd::seq_lib::group_seq_properties;

/// Byte length of the leading white space of a line.
pub open spec fn indent_bytes(l: Seq<char>) -> int {
    utf8_len(l.take(skip_white_space(l, 0))) as int
}

/// The smallest indentation, in bytes, of the lines that are not blank.
pub open spec fn min_indent(ls: Seq<Seq<char>>) -> Option<int>
    decreases ls.len(),
{
    if ls.len() == 0 {
        None
    } else {
        let rest = min_indent(ls.drop_last());
        let l = ls.last();
        if is_blank(l) {
            rest
        } else {
            match rest {
                None => Some(indent_bytes(l)),
                Some(m) => Some(
                    if indent_bytes(l) < m {
                        indent_bytes(l)
                    } else {
                        m
                    },
                ),
            }
        }
    }
}

/// `l` without its first `n` bytes, when `n` falls on a character boundary.
pub open spec fn drop_bytes(l: Seq<char>, n: int) -> Option<Seq<char>>
    decreases l.len(),
{
    if n == 0 {
        Some(l)
    } else if n < 0 || l.len() == 0 {
        None
    } else if n < char_utf8_len(l[0]) {
        None
    } else {
        drop_bytes(l.drop_first(), n - char_utf8_len(l[0]))
    }
}

/// A line after removing `m` bytes of indentation: blank lines become
/// empty, and so does a line where `m` bytes end inside a character.
pub open spec fn dedent_line(l: Seq<char>, m: int) -> Seq<char> {
    if is_blank(l) {
        Seq::empty()
    } else {
        match drop_bytes(l, m) {
            Some(r) => r,
            None => Seq::empty(),
        }
    }
}

/// Lines joined with `\n` between them.
pub open spec fn join_lines(ls: Seq<Seq<char>>) -> Seq<char>
    decreases ls.len(),
{
    if ls.len() == 0 {
        Seq::empty()
    } else if ls.len() == 1 {
        ls[0]
    } else {
        join_lines(ls.drop_last()) + seq!['\n'] + ls.last()
    }
}

/// `text` with the common leading white space of its non-blank lines
/// removed from every line; `text` itself when there is none to remove.
pub open spec fn dedented(text: Seq<char>) -> Seq<char> {
    let ls = text_lines(text);
    match min_indent(ls) {
        None => text,
        Some(m) => if m == 0 {
            text
        } else {
            join_lines(Seq::new(ls.len(), |i: int| dedent_line(ls[i], m))) + if text.len() > 0
                && text.last() == '\n' {
                seq!['\n']
            } else {
                Seq::empty()
            }
        },
    }
}

/// The index after the first `n` bytes of `l`, when `n` falls on a
/// character boundary.
fn index_after_bytes(l: &Vec<char>, n: usize) -> (r: Option<usize>)
    ensures
        match drop_bytes(l@, n as int) {
            Some(t) => r matches Some(k) && k <= l@.len() && t == l@.skip(k as int),
            None => r is None,
        },
{
    let mut k: usize = 0;
    let mut acc: usize = 0;
    while acc < n && k < l.len()
        invariant
            k <= l@.len(),
            acc <= n,
            drop_bytes(l@, n as int) == drop_bytes(l@.skip(k as int), n - acc),
        decreases l@.len() - k,
    {
        let w = char_width(l[k]);
        let ghost rest = l@.skip(k as int);
        assert(rest[0] == l@[k as int]);
        assert(rest.drop_first() =~= l@.skip(k + 1));
        if n - acc < w {
            return None;
        }
        acc = acc + w;
        k = k + 1;
    }
    if acc == n {
        Some(k)
    } else {
        assert(l@.skip(k as int).len() == 0);
        None
    }
}

/// Remove the common leading white space from every line.
pub(crate) fn dedent_chars(text: &Vec<char>) -> (r: Vec<char>)
    requires
        utf8_len(text@) <= usize::MAX,
    ensures
        r@ == dedented(text@),
{
    let lines = split_lines(text);
    let ghost ls = text_lines(text@);
    let mut least: Option<usize> = None;
    let mut i: usize = 0;
    while i < lines.len()
        invariant
            i <= lines@.len() == ls.len(),
            forall|j: int| 0 <= j < lines@.len() ==> (#[trigger] lines@[j])@ == ls[j],
            utf8_len(text@) <= usize::MAX,
            forall|j: int|
                0 <= j < lines@.len() ==> byte_len_within((#[trigger] lines@[j])@, utf8_len(text@)),
            match least {
                None => min_indent(ls.take(i as int)) is None,
                Some(x) => min_indent(ls.take(i as int)) == Some(x as int),
            },
        decreases lines@.len() - i,
    {
        let line = &lines[i];
        assert(ls.take(i + 1).drop_last() =~= ls.take(i as int));
        assert(ls.take(i + 1).last() == ls[i as int]);
        if !blank(line) {
            proof {
                reveal(byte_len_within);
            }
            let k = skip_white_space_from(line, 0);
            proof {
                lemma_skip_white_space(line@, 0);
            }
            let b = utf8_len_of_prefix(line, k);
            least = match least {
                None => Some(b),
                Some(x) => Some(
                    if b < x {
                        b
                    } else {
                        x
                    },
                ),
            };
        }
        i = i + 1;
    }
    assert(ls.take(ls.len() as int) =~= ls);
    let m = match least {
        None => {
            return copy_range(text, 0, text.len());
        },
        Some(x) => x,
    };
    if m == 0 {
        return copy_range(text, 0, text.len());
    }
    let ghost dls = Seq::new(ls.len(), |j: int| dedent_line(ls[j], m as int));
    let mut out: Vec<char> = Vec::new();
    let mut i: usize = 0;
    while i < lines.len()
        invariant
            i <= lines@.len() == ls.len() == dls.len(),
            forall|j: int| 0 <= j < lines@.len() ==> (#[trigger] lines@[j])@ == ls[j],
            dls == Seq::new(ls.len(), |j: int| dedent_line(ls[j], m as int)),
            out@ == join_lines(dls.take(i as int)),
        decreases lines@.len() - i,
    {
        let line = &lines[i];
        let ghost before = out@;
        if i > 0 {
            out.push('\n');
        }
        if !blank(line) {
            match index_after_bytes(line, m) {
                Some(k) => {
                    extend_range(&mut out, line, k, line.len());
                    assert(line@.subrange(k as int, line@.len() as int) =~= line@.skip(k as int));
                },
                None => {},
            }
        }
        proof {
            assert(dls.take(i + 1).drop_last() =~= dls.take(i as int));
            assert(dls.take(i + 1).last() == dls[i as int]);
            if i == 0 {
                assert(out@ =~= dls[0]);
            } else {
                assert(out@ =~= before + seq!['\n'] + dls[i as int]);
            }
        }
        i = i + 1;
    }
    assert(dls.take(dls.len() as int) =~= dls);
    if text.len() > 0 && text[text.len() - 1] == '\n' {
        out.push('\n');
    }
    out
}

/// Remove the common leading whitespace from every line.
pub fn dedent(text: &str) -> (r: String)
    ensures
        r@ == dedented(text@),
{
    let cs = chars_of(text);
    let _ = str_byte_len(text);
    let out = dedent_chars(&cs);
    string_from_chars(out.as_slice())
}

/// `_tests.rs`
pub open spec fn tests_suffix() -> Seq<char> {
    seq!['_', 't', 'e', 's', 't', 's', '.', 'r', 's']
}

/// The name of the sibling test file for a file stem.
pub open spec fn test_file_name_for(stem: Seq<char>) -> Seq<char> {
    stem + tests_suffix()
}

/// `#[path = "`
pub open spec fn path_attr_open() -> Seq<char> {
    seq!['#', '[', 'p', 'a', 't', 'h', ' ', '=', ' ', '"']
}

/// What replaces the inline module:
/// `#[cfg(test)]\n#[path = "<name>"]\nmod tests;\n`.
pub open spec fn stub(name: Seq<char>) -> Seq<char> {
    cfg_test_keyword() + seq!['\n'] + path_attr_open() + name + seq!['"', ']', '\n']
        + mod_tests_keyword() + seq![';', '\n']
}

/// `text` ending in exactly one `\n`, with no trailing white space before it.
pub open spec fn normalized(text: Seq<char>) -> Seq<char> {
    text.take(trimmed_end_len(text)).push('\n')
}

/// The outer attributes of `mod tests` other than `#[cfg(test)]`, each
/// turned into an inner attribute (`#![...]`) on a line of its own.
pub open spec fn lifted_attrs(cs: Seq<char>, spans: Seq<(int, int)>) -> Seq<char>
    decreases spans.len(),
{
    if spans.len() == 0 {
        Seq::empty()
    } else {
        let (a, b) = spans.last();
        lifted_attrs(cs, spans.drop_last()) + if cs.subrange(a, b) == cfg_test_keyword() {
            Seq::empty()
        } else {
            seq!['#', '!'] + cs.subrange(a + 1, b) + seq!['\n']
        }
    }
}

/// The test file: the lifted attributes, then the dedented module body,
/// whose first line break is dropped when attributes precede it.
pub open spec fn test_file_content(header: Seq<char>, body: Seq<char>) -> Seq<char> {
    if header.len() == 0 {
        body
    } else if body.len() > 0 && body[0] == '\n' {
        header + body.drop_first()
    } else {
        header + body
    }
}

/// The outcome of extracting the test module of `cs` for a file with the
/// given stem: `(modified source, test file content, test file name)`.
pub open spec fn ejection(cs: Seq<char>, stem: Seq<char>) -> Result<
    (Seq<char>, Seq<char>, Seq<char>),
    EjectError,
> {
    match test_module_region(cs) {
        Err(e) => Err(e),
        Ok(g) => {
            let name = test_file_name_for(stem);
            let header = lifted_attrs(cs, outer_attrs(cs, g.0 + 12));
            let content = test_file_content(header, dedented(cs.subrange(g.2, g.3)));
            let modified = normalized(cs.take(g.0) + stub(name) + cs.skip(g.1));
            Ok((modified, content, name))
        },
    }
}

/// Ensure the text ends with exactly one trailing newline and no trailing
/// blank lines.
fn normalize_trailing_newlines(text: &Vec<char>) -> (r: Vec<char>)
    ensures
        r@ == normalized(text@),
{
    let t = trim_end_len(text);
    proof {
        lemma_trimmed_end_len(text@);
    }
    let mut r = copy_range(text, 0, t);
    r.push('\n');
    assert(text@.subrange(0, t as int) =~= text@.take(t as int));
    r
}

/// The lifted attributes for the attribute spans `spans`.
fn lift_attributes(cs: &Vec<char>, spans: &Vec<(usize, usize)>) -> (r: Vec<char>)
    requires
        forall|i: int| 0 <= i < spans@.len() ==> (#[trigger] spans@[i]).0 < spans@[i].1 <= cs@.len(),
    ensures
        r@ == lifted_attrs(cs@, spans@.map_values(|x: (usize, usize)| (x.0 as int, x.1 as int))),
{
    let cfg = cfg_test_chars();
    let mut r: Vec<char> = Vec::new();
    let mut i: usize = 0;
    let ghost f = |x: (usize, usize)| (x.0 as int, x.1 as int);
    while i < spans.len()
        invariant
            i <= spans@.len(),
            cfg@ == cfg_test_keyword(),
            f == |x: (usize, usize)| (x.0 as int, x.1 as int),
            forall|j: int| 0 <= j < spans@.len() ==> (#[trigger] spans@[j]).0 < spans@[j].1 <= cs@.len(),
            r@ == lifted_attrs(cs@, spans@.take(i as int).map_values(f)),
        decreases spans@.len() - i,
    {
        let (a, b) = spans[i];
        let ghost before = r@;
        let is_cfg = b - a == 12 && starts_with_at(cs, &cfg, a);
        if !is_cfg {
            r.push('#');
            r.push('!');
            extend_range(&mut r, cs, a + 1, b);
            r.push('\n');
        }
        proof {
            let s2 = spans@.take(i + 1).map_values(f);
            assert(s2.drop_last() =~= spans@.take(i as int).map_values(f));
            assert(s2.last() == (a as int, b as int));
            if is_cfg {
                assert(cs@.subrange(a as int, b as int) =~= cfg_test_keyword());
                assert(r@ =~= before + Seq::<char>::empty());
            } else {
                assert(cs@.subrange(a as int, b as int) != cfg_test_keyword());
                assert(r@ =~= before + (seq!['#', '!'] + cs@.subrange(a + 1, b as int) + seq!['\n']));
            }
        }
        i = i + 1;
    }
    assert(spans@.take(spans@.len() as int) =~= spans@);
    r
}

/// The test file from the lifted attributes and the dedented body.
fn assemble_test_file(header: Vec<char>, body: Vec<char>) -> (r: Vec<char>)
    ensures
        r@ == test_file_content(header@, body@),
{
    if header.len() == 0 {
        body
    } else if body.len() > 0 && body[0] == '\n' {
        let mut r = header;
        extend_range(&mut r, &body, 1, body.len());
        assert(body@.subrange(1, body@.len() as int) =~= body@.drop_first());
        r
    } else {
        let mut r = header;
        extend_all(&mut r, &body);
        r
    }
}

/// The stub that replaces the inline module.
fn stub_chars(name: &Vec<char>) -> (r: Vec<char>)
    ensures
        r@ == stub(name@),
{
    let mut r = cfg_test_chars();
    let open = vec!['\n', '#', '[', 'p', 'a', 't', 'h', ' ', '=', ' ', '"'];
    let close = vec!['"', ']', '\n'];
    extend_all(&mut r, &open);
    extend_all(&mut r, name);
    extend_all(&mut r, &close);
    let kw = mod_tests_chars();
    extend_all(&mut r, &kw);
    r.push(';');
    r.push('\n');
    assert(r@ =~= stub(name@));
    r
}

/// The content of the test file for a region found in `cs`.
fn build_test_file(cs: &Vec<char>, os: usize, is: usize, ie: usize) -> (r: Vec<char>)
    requires
        utf8_len(cs@) <= usize::MAX,
        os + 12 <= cs@.len(),
        is <= ie <= cs@.len(),
    ensures
        r@ == test_file_content(
            lifted_attrs(cs@, outer_attrs(cs@, os + 12)),
            dedented(cs@.subrange(is as int, ie as int)),
        ),
{
    let _ = cs.len();
    proof {
        lemma_utf8_len_subrange(cs@, is as int, ie as int);
    }
    let inner = copy_range(cs, is, ie);
    let body = dedent_chars(&inner);
    let spans = outer_attribute_spans(cs, os + 12);
    let header = lift_attributes(cs, &spans);
    assemble_test_file(header, body)
}

/// The source with the region `[os, oe)` replaced by the stub, normalized.
fn build_modified_source(cs: &Vec<char>, os: usize, oe: usize, name: &Vec<char>) -> (r: Vec<char>)
    requires
        os <= oe <= cs@.len(),
    ensures
        r@ == normalized(cs@.take(os as int) + stub(name@) + cs@.skip(oe as int)),
{
    let mut modified = copy_range(cs, 0, os);
    let st = stub_chars(name);
    extend_all(&mut modified, &st);
    extend_range(&mut modified, cs, oe, cs.len());
    proof {
        assert(cs@.subrange(0, os as int) =~= cs@.take(os as int));
        assert(cs@.subrange(oe as int, cs@.len() as int) =~= cs@.skip(oe as int));
    }
    normalize_trailing_newlines(&modified)
}

/// The result of extracting an inline test module.
pub struct EjectResult {
    /// The original source with the test module replaced by a `#[path]` reference.
    pub modified_source: String,
    /// The contents of the extracted test file.
    pub test_content: String,
    /// The suggested file name for the test file (e.g. `foo_tests.rs`).
    pub test_file_name: String,
}

/// Extract the first inline `#[cfg(test)] mod tests { ... }` block of
/// `source`, for a file whose base name is `file_stem`, without checking
/// that the result parses.
pub fn eject_tests_unvalidated(source: &str, file_stem: &str) -> (r: Result<EjectResult, EjectError>)
    ensures
        match ejection(source@, file_stem@) {
            Ok(t) => r matches Ok(x) && x.modified_source@ == t.0 && x.test_content@ == t.1
                && x.test_file_name@ == t.2,
            Err(e) => r matches Err(f) && f == e,
        },
{
    let cs = chars_of(source);
    let _ = str_byte_len(source);
    let (os, oe, is, ie) = locate_test_module(&cs)?;
    proof {
        lemma_region_start_fits(cs@);
    }
    let content = build_test_file(&cs, os, is, ie);
    let mut name = chars_of(file_stem);
    let suffix = vec!['_', 't', 'e', 's', 't', 's', '.', 'r', 's'];
    extend_all(&mut name, &suffix);
    assert(suffix@ =~= tests_suffix());
    let modified = build_modified_source(&cs, os, oe, &name);
    Ok(
        EjectResult {
            modified_source: string_from_chars(modified.as_slice()),
            test_content: string_from_chars(content.as_slice()),
            test_file_name: string_from_chars(name.as_slice()),
        },
    )
}

/// What `syn::parse_file` makes of a text: `Ok` when it parses as a Rust
/// file, else the message of the parse error.
pub uninterp spec fn syn_file_parse(text: Seq<char>) -> Result<(), Seq<char>>;

/// Parses `text` with `syn::parse_file` (a pure function of the text).
/// Trusted: the outcome, `Ok` or the error's message, is
/// `syn_file_parse(text@)`; what that is on given text is not stated.
#[verifier::external_body]
fn parse_rust_file(text: &str) -> (r: Result<(), String>)
    ensures
        match r {
            Ok(()) => syn_file_parse(text@) == Ok::<(), Seq<char>>(()),
            Err(m) => syn_file_parse(text@) == Err::<(), Seq<char>>(m@),
        },
{
    match syn::parse_file(text) {
        Ok(_) => Ok(()),
        Err(err) => Err(err.to_string()),
    }
}

/// Accept an extraction when its modified source parsed, or turn the parse
/// error into [`EjectError::ValidationFailed`].
pub fn accept_validation(result: EjectResult, outcome: Result<(), String>) -> (r: Result<
    EjectResult,
    EjectError,
>)
    ensures
        match outcome {
            Ok(()) => r == Ok::<EjectResult, EjectError>(result),
            Err(m) => r matches Err(EjectError::ValidationFailed { reason }) && reason@ == m@,
        },
{
    match outcome {
        Ok(()) => Ok(result),
        Err(reason) => Err(EjectError::ValidationFailed { reason }),
    }
}

/// Extract an inline `#[cfg(test)] mod tests { ... }` block from Rust
/// source into a separate file's content.
///
/// `file_stem` is the base name without extension (e.g. `"foo"` for
/// `foo.rs`), used to derive the test file name `foo_tests.rs`. Only the
/// first `#[cfg(test)] mod tests` block is extracted, and the modified
/// source must parse as a Rust file.
pub fn eject_tests(source: &str, file_stem: &str) -> (r: Result<EjectResult, EjectError>)
    ensures
        match ejection(source@, file_stem@) {
            Ok(t) => match syn_file_parse(t.0) {
                Ok(()) => r matches Ok(x) && x.modified_source@ == t.0 && x.test_content@ == t.1
                    && x.test_file_name@ == t.2,
                Err(m) => r matches Err(EjectError::ValidationFailed { reason }) && reason@ == m,
            },
            Err(e) => r matches Err(f) && f == e,
        },
{
    let result = eject_tests_unvalidated(source, file_stem)?;
    let outcome = parse_rust_file(result.modified_source.as_str());
    accept_validation(result, outcome)
}

/// Normalized text ends in exactly one `\n`, and what comes before that
/// line break is not white space: no trailing blank lines remain.
pub proof fn lemma_normalized_ends_once(text: Seq<char>)
    ensures
        normalized(text).len() >= 1,
        normalized(text).last() == '\n',
        normalized(text).len() >= 2 ==> !is_white_space(normalized(text)[normalized(text).len() - 2]),
    decreases text.len(),
{
    lemma_trimmed_end_len(text);
    if text.len() > 0 && is_white_space(text.last()) {
        lemma_normalized_ends_once(text.drop_last());
        lemma_trimmed_end_len(text.drop_last());
        assert(text.drop_last().take(trimmed_end_len(text.drop_last())) =~= text.take(
            trimmed_end_len(text),
        ));
    }
}

} // verus!
