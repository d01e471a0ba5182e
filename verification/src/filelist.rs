//! File list filtering for selective processing: a validated set of
//! canonical paths under a root.

use vstd::prelude::*;

use crate::text::{
    chars_of, copy_range, find_char, find_char_from, lemma_find_char_from,
    lemma_find_char_from_skip, split_lines, string_from_chars, text_lines,
};

verus! {

broadcast use vstd::seq_lib::group_seq_properties;

/// The pieces of `p` between `/` separators (an empty piece where two
/// separators meet or one ends the path).
pub open spec fn slash_pieces(p: Seq<char>) -> Seq<Seq<char>>
    decreases p.len(),
{
    match find_char_from(p, 0, '/') {
        Some(i) => {
            proof {
                lemma_find_char_from(p, 0, '/');
            }
            seq![p.take(i)] + slash_pieces(p.skip(i + 1))
        },
        None => seq![p],
    }
}

/// A piece that names a component: not empty and not `.`.
pub open spec fn is_normal_piece(x: Seq<char>) -> bool {
    x.len() > 0 && x != seq!['.']
}

/// The pieces that name components, in order.
pub open spec fn normal_pieces(ps: Seq<Seq<char>>) -> Seq<Seq<char>>
    decreases ps.len(),
{
    if ps.len() == 0 {
        Seq::empty()
    } else {
        (if is_normal_piece(ps[0]) {
            seq![ps[0]]
        } else {
            Seq::empty()
        }) + normal_pieces(ps.drop_first())
    }
}

/// The components of a Unix path, as `Path::components` documents them:
/// a leading `/` is the root, repeated separators and `.` are dropped
/// except for a `.` at the start, and a trailing `/` is ignored. The root
/// is written `/` and a leading `.` is written `.`.
pub open spec fn path_components(p: Seq<char>) -> Seq<Seq<char>> {
    path_lead(p) + normal_pieces(slash_pieces(p))
}

/// The root (`/`) or leading current-directory (`.`) component, if any.
pub open spec fn path_lead(p: Seq<char>) -> Seq<Seq<char>> {
    if p.len() > 0 && p[0] == '/' {
        seq![seq!['/']]
    } else if slash_pieces(p)[0] == seq!['.'] {
        seq![seq!['.']]
    } else {
        Seq::empty()
    }
}

/// `base` is a prefix of `p`, whole components only (`Path::starts_with`).
pub open spec fn path_starts_with(p: Seq<char>, base: Seq<char>) -> bool {
    let cp = path_components(p);
    let cb = path_components(base);
    cb.len() <= cp.len() && cp.take(cb.len() as int) == cb
}

proof fn lemma_slash_pieces_nonempty(p: Seq<char>)
    ensures
        slash_pieces(p).len() >= 1,
        find_char_from(p, 0, '/') is None ==> slash_pieces(p) == seq![p],
        find_char_from(p, 0, '/') matches Some(i) ==> slash_pieces(p)[0] == p.take(i),
{
}

/// Whether two character sequences are equal.
pub(crate) fn chars_eq(a: &Vec<char>, b: &Vec<char>) -> (r: bool)
    ensures
        r == (a@ == b@),
{
    if a.len() != b.len() {
        return false;
    }
    let mut i: usize = 0;
    while i < a.len()
        invariant
            a@.len() == b@.len(),
            i <= a@.len(),
            forall|j: int| 0 <= j < i ==> a@[j] == b@[j],
        decreases a@.len() - i,
    {
        if a[i] != b[i] {
            return false;
        }
        i = i + 1;
    }
    assert(a@ =~= b@);
    true
}

/// The components of `p` (see `path_components`).
pub(crate) fn components_of(p: &Vec<char>) -> (r: Vec<Vec<char>>)
    ensures
        r@.len() == path_components(p@).len(),
        forall|i: int| 0 <= i < r@.len() ==> (#[trigger] r@[i])@ == path_components(p@)[i],
{
    let n = p.len();
    let ghost pieces = slash_pieces(p@);
    let mut r: Vec<Vec<char>> = Vec::new();
    proof {
        lemma_slash_pieces_nonempty(p@);
        lemma_find_char_from(p@, 0, '/');
    }
    let first_end = match find_char(p, 0, '/') {
        Some(i) => i,
        None => n,
    };
    if n > 0 && p[0] == '/' {
        r.push(vec!['/']);
    } else if first_end == 1 && p[0] == '.' {
        r.push(vec!['.']);
    }
    proof {
        if find_char_from(p@, 0, '/') is None {
            assert(p@.take(n as int) =~= p@);
        }
        assert(pieces[0] == p@.take(first_end as int));
        if first_end == 1 && p@[0] == '.' {
            assert(pieces[0] =~= seq!['.']);
        }
        if pieces[0] == seq!['.'] {
            assert(p@[0] == pieces[0][0]);
        }
    }
    let ghost lead = r@.map_values(|v: Vec<char>| v@);
    proof {
        if n > 0 && p@[0] == '/' {
            assert(r@[0]@ =~= seq!['/']);
        } else if first_end == 1 && p@[0] == '.' {
            assert(r@[0]@ =~= seq!['.']);
        }
        assert(lead =~= path_lead(p@));
    }
    let mut s: usize = 0;
    loop
        invariant
            n == p@.len(),
            s <= n,
            lead.len() <= r@.len(),
            path_components(p@) == lead + normal_pieces(pieces),
            pieces == slash_pieces(p@),
            forall|i: int| 0 <= i < lead.len() ==> (#[trigger] r@[i])@ == lead[i],
            normal_pieces(pieces) == r@.map_values(|v: Vec<char>| v@).skip(lead.len() as int)
                + normal_pieces(slash_pieces(p@.skip(s as int))),
        decreases n - s,
    {
        let ghost rest = p@.skip(s as int);
        let ghost before = r@.map_values(|v: Vec<char>| v@);
        proof {
            lemma_find_char_from_skip(p@, s as int, 0, '/');
            lemma_find_char_from(p@, s as int, '/');
        }
        match find_char(p, s, '/') {
            Some(i) => {
                let piece = copy_range(p, s, i);
                let keep = piece.len() > 0 && !(piece.len() == 1 && piece[0] == '.');
                proof {
                    assert(rest.take(i - s) =~= piece@);
                    assert(rest.skip(i - s + 1) =~= p@.skip(i + 1));
                    assert(slash_pieces(rest) == seq![piece@] + slash_pieces(p@.skip(i + 1)));
                    let sp = slash_pieces(rest);
                    assert(sp.drop_first() =~= slash_pieces(p@.skip(i + 1)));
                    if piece@.len() == 1 && piece@[0] == '.' {
                        assert(piece@ =~= seq!['.']);
                    }
                    if piece@ == seq!['.'] {
                        assert(piece@[0] == '.');
                    }
                }
                if keep {
                    r.push(piece);
                }
                proof {
                    let after = r@.map_values(|v: Vec<char>| v@);
                    if keep {
                        assert(after =~= before.push(piece@));
                        assert(after.skip(lead.len() as int) =~= before.skip(lead.len() as int)
                            + seq![piece@]);
                    } else {
                        assert(after =~= before);
                    }
                }
                s = i + 1;
            },
            None => {
                let piece = copy_range(p, s, n);
                let keep = piece.len() > 0 && !(piece.len() == 1 && piece[0] == '.');
                proof {
                    assert(rest =~= piece@);
                    assert(slash_pieces(rest) == seq![piece@]);
                    assert(seq![piece@].drop_first() =~= Seq::<Seq<char>>::empty());
                    if piece@.len() == 1 && piece@[0] == '.' {
                        assert(piece@ =~= seq!['.']);
                    }
                    if piece@ == seq!['.'] {
                        assert(piece@[0] == '.');
                    }
                }
                if keep {
                    r.push(piece);
                }
                proof {
                    let after = r@.map_values(|v: Vec<char>| v@);
                    if keep {
                        assert(after =~= before.push(piece@));
                        assert(after.skip(lead.len() as int) =~= before.skip(lead.len() as int)
                            + seq![piece@]);
                    } else {
                        assert(after =~= before);
                    }
                    let np = seq![piece@];
                    assert(np.drop_first() =~= Seq::<Seq<char>>::empty());
                    assert(normal_pieces(Seq::<Seq<char>>::empty()) =~= Seq::<Seq<char>>::empty());
                    assert(np[0] == piece@);
                    assert(keep == is_normal_piece(piece@));
                    if keep {
                        assert(normal_pieces(np) =~= seq![piece@]);
                    } else {
                        assert(normal_pieces(np) =~= Seq::<Seq<char>>::empty());
                    }
                    assert(after =~= lead + after.skip(lead.len() as int));
                    assert(path_components(p@) =~= after);
                }
                return r;
            },
        }
    }
}

/// Whether `base` is a prefix of `p`, whole components only.
pub(crate) fn starts_with_path(p: &Vec<char>, base: &Vec<char>) -> (r: bool)
    ensures
        r == path_starts_with(p@, base@),
{
    let cp = components_of(p);
    let cb = components_of(base);
    if cb.len() > cp.len() {
        return false;
    }
    let mut i: usize = 0;
    while i < cb.len()
        invariant
            cb@.len() <= cp@.len(),
            i <= cb@.len(),
            cp@.len() == path_components(p@).len(),
            cb@.len() == path_components(base@).len(),
            forall|k: int| 0 <= k < cp@.len() ==> (#[trigger] cp@[k])@ == path_components(p@)[k],
            forall|k: int| 0 <= k < cb@.len() ==> (#[trigger] cb@[k])@ == path_components(base@)[k],
            forall|k: int| 0 <= k < i ==> path_components(p@)[k] == path_components(base@)[k],
        decreases cb@.len() - i,
    {
        if !chars_eq(&cp[i], &cb[i]) {
            assert(path_components(p@).take(cb@.len() as int)[i as int] != path_components(
                base@,
            )[i as int]);
            return false;
        }
        i = i + 1;
    }
    assert(path_components(p@).take(cb@.len() as int) =~= path_components(base@));
    true
}

/// A path from a file list with the outcome of resolving it to a canonical
/// path: the canonical form, or the reason it could not be resolved.
pub struct ListedPath {
    /// The path as listed, for messages.
    pub path: String,
    /// The canonical form of the path, or why there is none.
    pub canonical: Result<String, String>,
}

/// Why a file list was refused.
#[derive(Debug)]
pub enum FilterError {
    /// A listed path lies outside the root directory.
    OutsideRoot {
        /// The path as listed.
        path: String,
        /// The root as given.
        root: String,
    },
    /// A listed path could not be resolved (it does not exist, for one).
    Unresolvable {
        /// The path as listed.
        path: String,
        /// Why it could not be resolved.
        reason: String,
    },
}

/// The canonical form of a listed path when it is resolved and under the
/// root; `None` when the path is rejected.
pub open spec fn accepted(canonical_root: Seq<char>, e: ListedPath) -> Option<Seq<char>> {
    match e.canonical {
        Ok(c) => if path_starts_with(c@, canonical_root) {
            Some(c@)
        } else {
            None
        },
        Err(_) => None,
    }
}

/// The index of the first rejected path at or after `i`.
pub open spec fn first_rejected(canonical_root: Seq<char>, es: Seq<ListedPath>, i: int) -> Option<
    int,
>
    decreases es.len() - i,
{
    if i < 0 || i >= es.len() {
        None
    } else if accepted(canonical_root, es[i]) is None {
        Some(i)
    } else {
        first_rejected(canonical_root, es, i + 1)
    }
}

/// The canonical forms of all accepted paths.
pub open spec fn accepted_set(canonical_root: Seq<char>, es: Seq<ListedPath>) -> Set<Seq<char>> {
    Set::new(
        |c: Seq<char>|
            exists|i: int| 0 <= i < es.len() && #[trigger] accepted(canonical_root, es[i]) == Some(c),
    )
}

/// Some element of `vs` holds the characters `c`.
pub open spec fn holds_chars(vs: Seq<Vec<char>>, c: Seq<char>) -> bool {
    exists|k: int| 0 <= k < vs.len() && (#[trigger] vs[k])@ == c
}

/// Some path before index `i` is accepted with canonical form `c`.
pub open spec fn accepted_before(canonical_root: Seq<char>, es: Seq<ListedPath>, i: int, c: Seq<char>) -> bool {
    exists|k: int| 0 <= k < i && #[trigger] accepted(canonical_root, es[k]) == Some(c)
}

/// A validated set of canonical file paths, used to restrict which files
/// are processed.
pub struct FileFilter {
    paths: Vec<Vec<char>>,
}

impl View for FileFilter {
    type V = Set<Seq<char>>;

    closed spec fn view(&self) -> Set<Seq<char>> {
        Set::new(|c: Seq<char>| holds_chars(self.paths@, c))
    }
}

impl FileFilter {
    /// Build a filter from listed paths resolved against `canonical_root`
    /// (the canonical form of `root`). A path that was not resolved, or
    /// whose canonical form is not under the root, is an error unless
    /// `lenient`, in which case it is dropped.
    pub fn from_paths(root: &str, canonical_root: &str, paths: Vec<ListedPath>, lenient: bool) -> (r: Result<
        FileFilter,
        FilterError,
    >)
        ensures
            match (if lenient {
                None
            } else {
                first_rejected(canonical_root@, paths@, 0)
            }) {
                None => r matches Ok(f) && f@ == accepted_set(canonical_root@, paths@),
                Some(i) => match paths@[i].canonical {
                    Ok(_) => r matches Err(FilterError::OutsideRoot { path, root: shown })
                        && path@ == paths@[i].path@ && shown@ == root@,
                    Err(m) => r matches Err(FilterError::Unresolvable { path, reason })
                        && path@ == paths@[i].path@ && reason@ == m@,
                },
            },
    {
        let croot = chars_of(canonical_root);
        let mut set: Vec<Vec<char>> = Vec::new();
        let ghost es = paths@;
        let mut i: usize = 0;
        let n = paths.len();
        while i < n
            invariant
                n == es.len(),
                paths@ == es,
                croot@ == canonical_root@,
                i <= n,
                !lenient ==> first_rejected(canonical_root@, es, 0) == first_rejected(
                    canonical_root@,
                    es,
                    i as int,
                ),
                forall|c: Seq<char>|
                    #[trigger] holds_chars(set@, c) <==> accepted_before(canonical_root@, es, i as int, c),
            decreases n - i,
        {
            let entry = &paths[i];
            match &entry.canonical {
                Ok(canon) => {
                    let cc = chars_of(canon.as_str());
                    if starts_with_path(&cc, &croot) {
                        let mut k: usize = 0;
                        let mut present = false;
                        while k < set.len()
                            invariant
                                k <= set@.len(),
                                present == exists|m: int| 0 <= m < k && (#[trigger] set@[m])@ == cc@,
                            decreases set@.len() - k,
                        {
                            if chars_eq(&set[k], &cc) {
                                present = true;
                            }
                            k = k + 1;
                        }
                        let ghost before = set@;
                        if !present {
                            set.push(cc);
                        }
                        proof {
                            assert forall|c: Seq<char>|
                                #[trigger] holds_chars(set@, c) <==> accepted_before(
                                    canonical_root@,
                                    es,
                                    i + 1,
                                    c,
                                ) by {
                                if holds_chars(set@, c) {
                                    let k = choose|k: int| 0 <= k < set@.len() && (#[trigger] set@[k])@ == c;
                                    if k < before.len() {
                                        assert(before[k]@ == c);
                                        assert(holds_chars(before, c));
                                    } else {
                                        assert(accepted(canonical_root@, es[i as int]) == Some(c));
                                    }
                                }
                                if accepted_before(canonical_root@, es, i + 1, c) {
                                    let k = choose|k: int|
                                        0 <= k < i + 1 && #[trigger] accepted(canonical_root@, es[k]) == Some(c);
                                    if k < i {
                                        assert(accepted_before(canonical_root@, es, i as int, c));
                                        assert(holds_chars(before, c));
                                        let m = choose|m: int| 0 <= m < before.len() && (#[trigger] before[m])@ == c;
                                        assert(set@[m] == before[m]);
                                    } else if present {
                                        let m = choose|m: int| 0 <= m < k && (#[trigger] before[m])@ == cc@;
                                        assert(set@[m] == before[m]);
                                    } else {
                                        assert(set@[before.len() as int]@ == c);
                                    }
                                }
                            }
                        }
                    } else if !lenient {
                        return Err(
                            FilterError::OutsideRoot {
                                path: entry.path.clone(),
                                root: string_from_chars(chars_of(root).as_slice()),
                            },
                        );
                    }
                },
                Err(reason) => {
                    if !lenient {
                        return Err(
                            FilterError::Unresolvable {
                                path: entry.path.clone(),
                                reason: reason.clone(),
                            },
                        );
                    }
                },
            }
            i = i + 1;
        }
        let f = FileFilter { paths: set };
        proof {
            assert forall|c: Seq<char>| f@.contains(c) <==> accepted_set(canonical_root@, es).contains(c) by {
                assert(holds_chars(set@, c) <==> accepted_before(canonical_root@, es, n as int, c));
            }
            assert(f@ =~= accepted_set(canonical_root@, es));
        }
        Ok(f)
    }

    /// Returns `true` if the canonical path `canonical` is in this filter.
    #[must_use]
    pub fn contains(&self, canonical: &str) -> (r: bool)
        ensures
            r == self@.contains(canonical@),
    {
        let cc = chars_of(canonical);
        let mut k: usize = 0;
        while k < self.paths.len()
            invariant
                k <= self.paths@.len(),
                cc@ == canonical@,
                forall|m: int| 0 <= m < k ==> (#[trigger] self.paths@[m])@ != canonical@,
            decreases self.paths@.len() - k,
        {
            if chars_eq(&self.paths[k], &cc) {
                assert(holds_chars(self.paths@, canonical@));
                return true;
            }
            k = k + 1;
        }
        assert(!holds_chars(self.paths@, canonical@));
        false
    }
}

/// The non-empty lines of `ls`.
pub open spec fn nonempty_lines(ls: Seq<Seq<char>>) -> Seq<Seq<char>>
    decreases ls.len(),
{
    if ls.len() == 0 {
        Seq::empty()
    } else {
        nonempty_lines(ls.drop_last()) + if ls.last().len() > 0 {
            seq![ls.last()]
        } else {
            Seq::empty()
        }
    }
}

/// The entries of a newline-separated file list: its non-empty lines.
pub fn file_list_entries(text: &str) -> (r: Vec<String>)
    ensures
        r@.len() == nonempty_lines(text_lines(text@)).len(),
        forall|i: int| 0 <= i < r@.len() ==> (#[trigger] r@[i])@ == nonempty_lines(text_lines(text@))[i],
{
    let cs = chars_of(text);
    let lines = split_lines(&cs);
    let ghost ls = text_lines(text@);
    let mut r: Vec<String> = Vec::new();
    let mut i: usize = 0;
    while i < lines.len()
        invariant
            i <= lines@.len() == ls.len(),
            ls == text_lines(text@),
            forall|k: int| 0 <= k < lines@.len() ==> (#[trigger] lines@[k])@ == ls[k],
            r@.len() == nonempty_lines(ls.take(i as int)).len(),
            forall|k: int| 0 <= k < r@.len() ==> (#[trigger] r@[k])@ == nonempty_lines(ls.take(i as int))[k],
        decreases lines@.len() - i,
    {
        let ghost before = nonempty_lines(ls.take(i as int));
        assert(ls.take(i + 1).drop_last() =~= ls.take(i as int));
        assert(ls.take(i + 1).last() == ls[i as int]);
        if lines[i].len() > 0 {
            let line = string_from_chars(lines[i].as_slice());
            r.push(line);
            assert(nonempty_lines(ls.take(i + 1)) =~= before.push(ls[i as int]));
        } else {
            assert(nonempty_lines(ls.take(i + 1)) =~= before);
        }
        i = i + 1;
    }
    assert(ls.take(ls.len() as int) =~= ls);
    r
}

/// A strict file list that passes validation has every listed path in
/// the filter: each was resolved and lies under the root.
pub proof fn lemma_strict_list_all_accepted(canonical_root: Seq<char>, es: Seq<ListedPath>, i: int)
    requires
        0 <= i,
        first_rejected(canonical_root, es, i) is None,
    ensures
        forall|j: int| i <= j < es.len() ==> #[trigger] accepted(canonical_root, es[j]) is Some,
    decreases es.len() - i,
{
    if i < es.len() {
        lemma_strict_list_all_accepted(canonical_root, es, i + 1);
    }
}

/// Every path is under itself.
pub proof fn lemma_path_starts_with_itself(p: Seq<char>)
    ensures
        path_starts_with(p, p),
{
    assert(path_components(p).take(path_components(p).len() as int) =~= path_components(p));
}

} // verus!
