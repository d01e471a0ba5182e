//! Character-level helpers shared by the scanner, the extraction and the
//! renderers: UTF-8 byte lengths, Unicode white space, and conversions
//! between `str`, `String` and character vectors.

use vstd::prelude::*;
use vstd::utf8::*;

verus! {

broadcast use vstd::seq_lib::group_seq_properties;

/// Number of bytes in the UTF-8 encoding of `cs`.
pub open spec fn utf8_len(cs: Seq<char>) -> nat {
    encode_utf8(cs).len()
}

/// Number of bytes in the UTF-8 encoding of the single character `c`.
pub open spec fn char_utf8_len(c: char) -> nat {
    encode_scalar(c as u32).len()
}

/// The encoding of a concatenation is the concatenation of the encodings.
pub proof fn lemma_encode_utf8_concat(a: Seq<char>, b: Seq<char>)
    ensures
        encode_utf8(a + b) == encode_utf8(a) + encode_utf8(b),
    decreases a.len(),
{
    if a.len() == 0 {
        assert(a + b =~= b);
        assert(encode_utf8(a) + encode_utf8(b) =~= encode_utf8(b));
    } else {
        lemma_encode_utf8_concat(a.drop_first(), b);
        assert((a + b).drop_first() =~= a.drop_first() + b);
        assert((a + b)[0] == a[0]);
        assert(encode_utf8(a + b) =~= encode_scalar(a[0] as u32) + encode_utf8(a.drop_first() + b));
        assert(encode_utf8(a) =~= encode_scalar(a[0] as u32) + encode_utf8(a.drop_first()));
    }
}

/// Byte length of a concatenation.
pub proof fn lemma_utf8_len_concat(a: Seq<char>, b: Seq<char>)
    ensures
        utf8_len(a + b) == utf8_len(a) + utf8_len(b),
{
    lemma_encode_utf8_concat(a, b);
}

/// Byte length of a single character.
pub proof fn lemma_utf8_len_single(c: char)
    ensures
        utf8_len(seq![c]) == char_utf8_len(c),
        1 <= char_utf8_len(c) <= 4,
{
    let s = seq![c];
    assert(s.drop_first() =~= Seq::<char>::empty());
    assert(encode_utf8(s) =~= encode_scalar(c as u32) + encode_utf8(Seq::<char>::empty()));
    char_is_scalar(c);
}

/// Byte length grows by one character's width per pushed character.
pub proof fn lemma_utf8_len_push(a: Seq<char>, c: char)
    ensures
        utf8_len(a.push(c)) == utf8_len(a) + char_utf8_len(c),
{
    assert(a.push(c) =~= a + seq![c]);
    lemma_utf8_len_concat(a, seq![c]);
    lemma_utf8_len_single(c);
}

/// Byte length of the first `k + 1` characters.
pub proof fn lemma_utf8_len_take_next(cs: Seq<char>, k: int)
    requires
        0 <= k < cs.len(),
    ensures
        utf8_len(cs.take(k + 1)) == utf8_len(cs.take(k)) + char_utf8_len(cs[k]),
{
    assert(cs.take(k + 1) =~= cs.take(k).push(cs[k]));
    lemma_utf8_len_push(cs.take(k), cs[k]);
}

/// A prefix is never longer in bytes than the whole sequence; a nonempty
/// sequence has at least as many bytes as characters.
pub proof fn lemma_utf8_len_take_bound(cs: Seq<char>, k: int)
    requires
        0 <= k <= cs.len(),
    ensures
        utf8_len(cs.take(k)) <= utf8_len(cs),
        k <= utf8_len(cs.take(k)),
    decreases k,
{
    assert(cs =~= cs.take(k) + cs.skip(k));
    lemma_utf8_len_concat(cs.take(k), cs.skip(k));
    if k > 0 {
        lemma_utf8_len_take_bound(cs, k - 1);
        lemma_utf8_len_take_next(cs, k - 1);
        lemma_utf8_len_single(cs[k - 1]);
    }
}

/// Number of bytes of the UTF-8 encoding of `c`.
pub(crate) fn char_width(c: char) -> (w: usize)
    ensures
        w == char_utf8_len(c),
        1 <= w <= 4,
{
    proof {
        char_is_scalar(c);
    }
    let v = c as u32;
    if v < 0x80 {
        1
    } else if v < 0x800 {
        2
    } else if v < 0x10000 {
        3
    } else {
        4
    }
}

/// Byte length of the first `k` characters of `cs`.
pub(crate) fn utf8_len_of_prefix(cs: &Vec<char>, k: usize) -> (n: usize)
    requires
        k <= cs@.len(),
        utf8_len(cs@) <= usize::MAX,
    ensures
        n == utf8_len(cs@.take(k as int)),
{
    let mut n: usize = 0;
    let mut i: usize = 0;
    while i < k
        invariant
            i <= k <= cs@.len(),
            utf8_len(cs@) <= usize::MAX,
            n == utf8_len(cs@.take(i as int)),
        decreases k - i,
    {
        proof {
            lemma_utf8_len_take_next(cs@, i as int);
            lemma_utf8_len_take_bound(cs@, i + 1);
        }
        let w = char_width(cs[i]);
        n = n + w;
        i = i + 1;
    }
    n
}

/// The byte length of `s` fits in `usize`.
pub(crate) fn str_byte_len(s: &str) -> (n: usize)
    ensures
        n == utf8_len(s@),
{
    let b = s.as_bytes();
    b.len()
}

/// Unicode `White_Space` property: the characters that Rust's `trim`
/// family removes.
pub open spec fn is_white_space(c: char) -> bool {
    let v = c as u32;
    ||| 0x09 <= v <= 0x0D
    ||| v == 0x20
    ||| v == 0x85
    ||| v == 0xA0
    ||| v == 0x1680
    ||| 0x2000 <= v <= 0x200A
    ||| v == 0x2028
    ||| v == 0x2029
    ||| v == 0x202F
    ||| v == 0x205F
    ||| v == 0x3000
}

/// Whether `c` has the Unicode `White_Space` property.
pub(crate) fn white_space(c: char) -> (r: bool)
    ensures
        r == is_white_space(c),
{
    let v = c as u32;
    (0x09 <= v && v <= 0x0D) || v == 0x20 || v == 0x85 || v == 0xA0 || v == 0x1680 || (0x2000
        <= v && v <= 0x200A) || v == 0x2028 || v == 0x2029 || v == 0x202F || v == 0x205F || v
        == 0x3000
}

/// The characters of `s`, in order.
pub(crate) fn chars_of(s: &str) -> (cs: Vec<char>)
    ensures
        cs@ == s@,
{
    let mut cs: Vec<char> = Vec::new();
    for c in it: s.chars()
        invariant
            cs@ == it.seq().take(it.index() as int),
    {
        cs.push(c);
    }
    cs
}

/// Collects characters into a `String` (std's `FromIterator<char>` for
/// `String`). Trusted: the resulting string holds exactly `cs`, in order.
#[verifier::external_body]
pub(crate) fn string_from_chars(cs: &[char]) -> (s: String)
    ensures
        s@ == cs@,
{
    cs.iter().collect()
}

/// Appends the characters of `s` to `out`.
pub(crate) fn push_str(out: &mut Vec<char>, s: &str)
    ensures
        final(out)@ == old(out)@ + s@,
{
    for c in it: s.chars()
        invariant
            out@ == old(out)@ + it.seq().take(it.index() as int),
    {
        out.push(c);
    }
}

/// The first index at or after `i` that is not white space (or `i` itself
/// when `i` is out of range).
pub open spec fn skip_white_space(cs: Seq<char>, i: int) -> int
    decreases cs.len() - i,
{
    if 0 <= i < cs.len() && is_white_space(cs[i]) {
        skip_white_space(cs, i + 1)
    } else {
        i
    }
}

/// The first index at or after `i` that holds `c`.
pub open spec fn find_char_from(cs: Seq<char>, i: int, c: char) -> Option<int>
    decreases cs.len() - i,
{
    if i < 0 || i >= cs.len() {
        None
    } else if cs[i] == c {
        Some(i)
    } else {
        find_char_from(cs, i + 1, c)
    }
}

pub proof fn lemma_skip_white_space(cs: Seq<char>, i: int)
    requires
        0 <= i,
    ensures
        i <= skip_white_space(cs, i),
        i <= cs.len() ==> skip_white_space(cs, i) <= cs.len(),
        i > cs.len() ==> skip_white_space(cs, i) == i,
        forall|j: int| i <= j < skip_white_space(cs, i) ==> is_white_space(#[trigger] cs[j]),
        skip_white_space(cs, i) < cs.len() ==> !is_white_space(cs[skip_white_space(cs, i)]),
    decreases cs.len() - i,
{
    if 0 <= i < cs.len() && is_white_space(cs[i]) {
        lemma_skip_white_space(cs, i + 1);
    }
}

pub proof fn lemma_find_char_from(cs: Seq<char>, i: int, c: char)
    requires
        0 <= i,
    ensures
        find_char_from(cs, i, c) matches Some(j) ==> i <= j < cs.len() && cs[j] == c,
        forall|j: int|
            i <= j < cs.len() && (find_char_from(cs, i, c) matches Some(f) ==> j < f) ==> #[trigger] cs[j]
                != c,
    decreases cs.len() - i,
{
    if 0 <= i < cs.len() && cs[i] != c {
        lemma_find_char_from(cs, i + 1, c);
    }
}

/// The first index at or after `i` that is not white space.
pub(crate) fn skip_white_space_from(cs: &Vec<char>, i: usize) -> (r: usize)
    requires
        i <= cs@.len(),
    ensures
        r == skip_white_space(cs@, i as int),
{
    let mut j = i;
    while j < cs.len() && white_space(cs[j])
        invariant
            i <= j <= cs@.len(),
            skip_white_space(cs@, i as int) == skip_white_space(cs@, j as int),
        decreases cs.len() - j,
    {
        j = j + 1;
    }
    j
}

/// The first index at or after `i` that holds `c`.
pub(crate) fn find_char(cs: &Vec<char>, i: usize, c: char) -> (r: Option<usize>)
    requires
        i <= cs@.len(),
    ensures
        r matches Some(j) ==> find_char_from(cs@, i as int, c) == Some(j as int),
        r is None ==> find_char_from(cs@, i as int, c) is None,
{
    let mut j = i;
    while j < cs.len()
        invariant
            i <= j <= cs@.len(),
            find_char_from(cs@, i as int, c) == find_char_from(cs@, j as int, c),
        decreases cs.len() - j,
    {
        if cs[j] == c {
            return Some(j);
        }
        j = j + 1;
    }
    None
}



/// Every character of `cs` is white space (`str::trim` leaves nothing).
pub open spec fn is_blank(cs: Seq<char>) -> bool {
    forall|i: int| 0 <= i < cs.len() ==> is_white_space(#[trigger] cs[i])
}

/// A line without the `\r` of a `\r\n` line ending.
pub open spec fn strip_cr(l: Seq<char>) -> Seq<char> {
    if l.len() > 0 && l.last() == '\r' {
        l.drop_last()
    } else {
        l
    }
}

/// The lines of `cs` as `str::lines` gives them: split at `\n` (and
/// `\r\n`), line endings left out, no empty line after a final ending.
pub open spec fn text_lines(cs: Seq<char>) -> Seq<Seq<char>>
    decreases cs.len(),
{
    if cs.len() == 0 {
        Seq::empty()
    } else {
        match find_char_from(cs, 0, '\n') {
            Some(i) => {
                proof {
                    lemma_find_char_from(cs, 0, '\n');
                }
                seq![strip_cr(cs.take(i))] + text_lines(cs.skip(i + 1))
            },
            None => seq![cs],
        }
    }
}

/// The number of characters left when trailing white space is removed
/// (`str::trim_end`).
pub open spec fn trimmed_end_len(cs: Seq<char>) -> int
    decreases cs.len(),
{
    if cs.len() == 0 {
        0
    } else if is_white_space(cs.last()) {
        trimmed_end_len(cs.drop_last())
    } else {
        cs.len() as int
    }
}

/// Searching a suffix is searching the whole from the same place.
pub proof fn lemma_find_char_from_skip(cs: Seq<char>, s: int, j: int, c: char)
    requires
        0 <= s <= cs.len(),
        0 <= j,
    ensures
        find_char_from(cs.skip(s), j, c) == (match find_char_from(cs, s + j, c) {
            Some(x) => Some(x - s),
            None => None::<int>,
        }),
    decreases cs.len() - s - j,
{
    if j < cs.len() - s && cs[s + j] != c {
        lemma_find_char_from_skip(cs, s, j + 1, c);
    }
}

/// A copy of `cs[a..b]`.
pub(crate) fn copy_range(cs: &Vec<char>, a: usize, b: usize) -> (r: Vec<char>)
    requires
        a <= b <= cs@.len(),
    ensures
        r@ == cs@.subrange(a as int, b as int),
{
    let mut r: Vec<char> = Vec::new();
    let mut i = a;
    while i < b
        invariant
            a <= i <= b <= cs@.len(),
            r@ == cs@.subrange(a as int, i as int),
        decreases b - i,
    {
        r.push(cs[i]);
        i = i + 1;
    }
    r
}

/// Appends `cs[a..b]` to `out`.
pub(crate) fn extend_range(out: &mut Vec<char>, cs: &Vec<char>, a: usize, b: usize)
    requires
        a <= b <= cs@.len(),
    ensures
        final(out)@ == old(out)@ + cs@.subrange(a as int, b as int),
{
    let ghost start = out@;
    let mut i = a;
    while i < b
        invariant
            a <= i <= b <= cs@.len(),
            out@ == start + cs@.subrange(a as int, i as int),
        decreases b - i,
    {
        out.push(cs[i]);
        i = i + 1;
    }
}

/// Appends all of `cs` to `out`.
pub(crate) fn extend_all(out: &mut Vec<char>, cs: &Vec<char>)
    ensures
        final(out)@ == old(out)@ + cs@,
{
    extend_range(out, cs, 0, cs.len());
    assert(cs@.subrange(0, cs@.len() as int) =~= cs@);
}

/// The UTF-8 encoding of `cs` takes at most `bound` bytes.
#[verifier::opaque]
pub open spec fn byte_len_within(cs: Seq<char>, bound: nat) -> bool {
    utf8_len(cs) <= bound
}

/// A subrange fits in the byte length of the whole.
pub proof fn lemma_subrange_within(cs: Seq<char>, a: int, b: int)
    requires
        0 <= a <= b <= cs.len(),
    ensures
        byte_len_within(cs.subrange(a, b), utf8_len(cs)),
{
    reveal(byte_len_within);
    lemma_utf8_len_subrange(cs, a, b);
}

/// The lines of `cs`, each copied out.
pub(crate) fn split_lines(cs: &Vec<char>) -> (lines: Vec<Vec<char>>)
    ensures
        lines@.len() == text_lines(cs@).len(),
        forall|i: int| 0 <= i < lines@.len() ==> (#[trigger] lines@[i])@ == text_lines(cs@)[i],
        forall|i: int| 0 <= i < lines@.len() ==> byte_len_within((#[trigger] lines@[i])@, utf8_len(cs@)),
{
    let n = cs.len();
    let mut lines: Vec<Vec<char>> = Vec::new();
    let mut s: usize = 0;
    let ghost mut done: Seq<Seq<char>> = Seq::empty();
    let ghost total = utf8_len(cs@);
    while s < n
        invariant
            n == cs@.len(),
            s <= n,
            lines@.len() == done.len(),
            forall|i: int| 0 <= i < lines@.len() ==> (#[trigger] lines@[i])@ == done[i],
            total == utf8_len(cs@),
            forall|i: int| 0 <= i < lines@.len() ==> byte_len_within((#[trigger] lines@[i])@, total),
            text_lines(cs@) == done + text_lines(cs@.skip(s as int)),
        decreases n - s,
    {
        let ghost rest = cs@.skip(s as int);
        proof {
            lemma_find_char_from_skip(cs@, s as int, 0, '\n');
            lemma_find_char_from(cs@, s as int, '\n');
        }
        match find_char(cs, s, '\n') {
            Some(i) => {
                let e = if i > s && cs[i - 1] == '\r' {
                    i - 1
                } else {
                    i
                };
                let line = copy_range(cs, s, e);
                proof {
                    lemma_subrange_within(cs@, s as int, e as int);
                    assert(rest.take(i - s) =~= cs@.subrange(s as int, i as int));
                    assert(strip_cr(rest.take(i - s)) =~= cs@.subrange(s as int, e as int));
                    assert(rest.skip(i - s + 1) =~= cs@.skip(i + 1));
                    done = done.push(line@);
                    assert(done =~= done.drop_last() + seq![line@]);
                }
                lines.push(line);
                s = i + 1;
            },
            None => {
                let line = copy_range(cs, s, n);
                proof {
                    lemma_subrange_within(cs@, s as int, n as int);
                    assert(rest =~= cs@.subrange(s as int, n as int));
                    assert(cs@.skip(n as int) =~= Seq::<char>::empty());
                    done = done.push(line@);
                }
                lines.push(line);
                s = n;
            },
        }
    }
    proof {
        assert(cs@.skip(n as int) =~= Seq::<char>::empty());
        assert(text_lines(cs@) =~= done);
    }
    lines
}

/// Whether every character of `cs` is white space.
pub(crate) fn blank(cs: &Vec<char>) -> (r: bool)
    ensures
        r == is_blank(cs@),
{
    let k = skip_white_space_from(cs, 0);
    proof {
        lemma_skip_white_space(cs@, 0);
    }
    k == cs.len()
}

/// The number of characters of `cs` left by `str::trim_end`.
pub(crate) fn trim_end_len(cs: &Vec<char>) -> (r: usize)
    ensures
        r == trimmed_end_len(cs@),
{
    let mut end: usize = 0;
    let mut k: usize = 0;
    while k < cs.len()
        invariant
            k <= cs@.len(),
            end == trimmed_end_len(cs@.take(k as int)),
        decreases cs@.len() - k,
    {
        assert(cs@.take(k + 1).drop_last() =~= cs@.take(k as int));
        if !white_space(cs[k]) {
            end = k + 1;
        }
        k = k + 1;
    }
    assert(cs@.take(cs@.len() as int) =~= cs@);
    end
}

/// A subrange is never longer in bytes than the whole.
pub proof fn lemma_utf8_len_subrange(cs: Seq<char>, a: int, b: int)
    requires
        0 <= a <= b <= cs.len(),
    ensures
        utf8_len(cs.subrange(a, b)) <= utf8_len(cs),
{
    assert(cs =~= cs.take(a) + cs.subrange(a, b) + cs.skip(b));
    lemma_utf8_len_concat(cs.take(a) + cs.subrange(a, b), cs.skip(b));
    lemma_utf8_len_concat(cs.take(a), cs.subrange(a, b));
}

/// Trimming never lengthens.
pub proof fn lemma_trimmed_end_len(cs: Seq<char>)
    ensures
        0 <= trimmed_end_len(cs) <= cs.len(),
    decreases cs.len(),
{
    if cs.len() > 0 && is_white_space(cs.last()) {
        lemma_trimmed_end_len(cs.drop_last());
    }
}

} // verus!
