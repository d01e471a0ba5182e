//! The lexical state machine that tells code apart from comments, string
//! literals, character literals and raw strings, one character at a time.

use vstd::prelude::*;

verus! {

/// Scanning state for tracking context (comments, strings, etc.) in Rust
/// source.
#[derive(Clone, Copy, Debug, PartialEq, Eq, Structural)]
pub enum ScanState {
    Normal,
    /// Seen `/`, waiting for `/` or `*` to enter a comment.
    Slash,
    LineComment,
    /// Inside a `/* */` block comment at a given nesting depth (at least 1).
    BlockComment { depth: usize },
    /// Seen `*` inside a block comment, may close with `/`.
    BlockCommentStar { depth: usize },
    /// Seen `/` inside a block comment, may open a nested `/*`.
    BlockCommentSlash { depth: usize },
    InString,
    InStringEscape,
    /// Seen `'`: either a char literal or a lifetime.
    Tick,
    /// Inside a char literal, consumed the first char, expecting the closing `'`.
    InChar,
    /// Inside a char literal after `\`, consuming the escaped char next.
    InCharEscape,
    /// Seen `r` in code: might start a raw string literal.
    SeenR,
    /// Seen `r` followed by one or more `#`s, counting them.
    RawStringHashes { count: usize },
    /// Inside a raw string literal with a known closing hash count.
    InRawString { hashes: usize },
    /// Seen `"` inside a raw string, counting trailing `#`s.
    RawStringClosing { hashes: usize, seen: usize },
}

/// What a character does to the brace depth of the code around it.
#[derive(Clone, Copy, Debug, PartialEq, Eq, Structural)]
pub enum BraceAction {
    Neutral,
    Open,
    Close,
}

/// The state after one character, and the brace that character is in code.
#[derive(Clone, Copy, Debug, PartialEq, Eq, Structural)]
pub struct StateAction {
    pub next: ScanState,
    pub brace: BraceAction,
}

/// The largest counter held by a state (nesting depth or hash count).
pub open spec fn counter(s: ScanState) -> nat {
    match s {
        ScanState::BlockComment { depth } => depth as nat,
        ScanState::BlockCommentStar { depth } => depth as nat,
        ScanState::BlockCommentSlash { depth } => depth as nat,
        ScanState::RawStringHashes { count } => count as nat,
        ScanState::InRawString { hashes } => hashes as nat,
        ScanState::RawStringClosing { hashes, seen } => if hashes >= seen {
            hashes as nat
        } else {
            seen as nat
        },
        _ => 0,
    }
}

/// Block comments are always at least one level deep.
pub open spec fn depth_positive(s: ScanState) -> bool {
    match s {
        ScanState::BlockComment { depth } => depth >= 1,
        ScanState::BlockCommentStar { depth } => depth >= 1,
        ScanState::BlockCommentSlash { depth } => depth >= 1,
        _ => true,
    }
}

/// A state with no action on braces.
pub open spec fn quiet(next: ScanState) -> StateAction {
    StateAction { next, brace: BraceAction::Neutral }
}

/// How a character read in code moves the scanner (the `Normal` row; also
/// the fallback of the states that find out that what they saw was code).
pub open spec fn code_step(ch: char) -> StateAction {
    if ch == '{' {
        StateAction { next: ScanState::Normal, brace: BraceAction::Open }
    } else if ch == '}' {
        StateAction { next: ScanState::Normal, brace: BraceAction::Close }
    } else if ch == '/' {
        quiet(ScanState::Slash)
    } else if ch == '"' {
        quiet(ScanState::InString)
    } else if ch == '\'' {
        quiet(ScanState::Tick)
    } else if ch == 'r' {
        quiet(ScanState::SeenR)
    } else {
        quiet(ScanState::Normal)
    }
}

/// The transition table of the scanner.
pub open spec fn transition(s: ScanState, ch: char) -> StateAction {
    match s {
        ScanState::Normal => code_step(ch),
        ScanState::Slash => if ch == '/' {
            quiet(ScanState::LineComment)
        } else if ch == '*' {
            quiet(ScanState::BlockComment { depth: 1 })
        } else {
            code_step(ch)
        },
        ScanState::LineComment => if ch == '\n' {
            quiet(ScanState::Normal)
        } else {
            quiet(ScanState::LineComment)
        },
        ScanState::BlockComment { depth } => if ch == '*' {
            quiet(ScanState::BlockCommentStar { depth })
        } else if ch == '/' {
            quiet(ScanState::BlockCommentSlash { depth })
        } else {
            quiet(ScanState::BlockComment { depth })
        },
        ScanState::BlockCommentStar { depth } => if ch == '/' && depth == 1 {
            quiet(ScanState::Normal)
        } else if ch == '/' {
            quiet(ScanState::BlockComment { depth: (depth - 1) as usize })
        } else if ch == '*' {
            quiet(ScanState::BlockCommentStar { depth })
        } else {
            quiet(ScanState::BlockComment { depth })
        },
        ScanState::BlockCommentSlash { depth } => if ch == '*' {
            quiet(ScanState::BlockComment { depth: (depth + 1) as usize })
        } else if ch == '/' {
            quiet(ScanState::BlockCommentSlash { depth })
        } else {
            quiet(ScanState::BlockComment { depth })
        },
        ScanState::InString => if ch == '\\' {
            quiet(ScanState::InStringEscape)
        } else if ch == '"' {
            quiet(ScanState::Normal)
        } else {
            quiet(ScanState::InString)
        },
        ScanState::InStringEscape => quiet(ScanState::InString),
        ScanState::Tick => if ch == '\\' {
            quiet(ScanState::InCharEscape)
        } else if ch == '\'' {
            quiet(ScanState::Normal)
        } else {
            quiet(ScanState::InChar)
        },
        ScanState::InChar => if ch == '\'' {
            quiet(ScanState::Normal)
        } else {
            code_step(ch)
        },
        ScanState::InCharEscape => quiet(ScanState::InChar),
        ScanState::SeenR => if ch == '"' {
            quiet(ScanState::InRawString { hashes: 0 })
        } else if ch == '#' {
            quiet(ScanState::RawStringHashes { count: 1 })
        } else {
            code_step(ch)
        },
        ScanState::RawStringHashes { count } => if ch == '#' {
            quiet(ScanState::RawStringHashes { count: (count + 1) as usize })
        } else if ch == '"' {
            quiet(ScanState::InRawString { hashes: count })
        } else {
            code_step(ch)
        },
        ScanState::InRawString { hashes } => if ch == '"' && hashes == 0 {
            quiet(ScanState::Normal)
        } else if ch == '"' {
            quiet(ScanState::RawStringClosing { hashes, seen: 0 })
        } else {
            quiet(ScanState::InRawString { hashes })
        },
        ScanState::RawStringClosing { hashes, seen } => if ch == '#' && seen + 1 == hashes {
            quiet(ScanState::Normal)
        } else if ch == '#' {
            quiet(ScanState::RawStringClosing { hashes, seen: (seen + 1) as usize })
        } else if ch == '"' {
            quiet(ScanState::RawStringClosing { hashes, seen: 0 })
        } else {
            quiet(ScanState::InRawString { hashes })
        },
    }
}

/// States in which the current character is read as code: only from these
/// can a brace be counted.
pub open spec fn reads_code(s: ScanState) -> bool {
    ||| s is Normal
    ||| s is Slash
    ||| s is InChar
    ||| s is SeenR
    ||| s is RawStringHashes
}

/// One step raises the counter by at most one; braces are reported only
/// for `{` and `}` read as code, never inside comments or literals.
pub proof fn lemma_transition(s: ScanState, ch: char)
    requires
        depth_positive(s),
        counter(s) < usize::MAX,
    ensures
        depth_positive(transition(s, ch).next),
        counter(transition(s, ch).next) <= counter(s) + 1,
        transition(s, ch).brace is Open ==> ch == '{' && reads_code(s),
        transition(s, ch).brace is Close ==> ch == '}' && reads_code(s),
        reads_code(s) && ch == '{' ==> transition(s, ch).brace is Open,
        reads_code(s) && ch == '}' ==> transition(s, ch).brace is Close,
{
}

/// After an `r` in code, `"` opens a raw string without hashes, `#` starts
/// counting hashes, and any other character is read as code.
pub proof fn lemma_seen_r_step(ch: char)
    ensures
        ch == '"' ==> transition(ScanState::SeenR, ch) == quiet(ScanState::InRawString { hashes: 0 }),
        ch == '#' ==> transition(ScanState::SeenR, ch) == quiet(
            ScanState::RawStringHashes { count: 1 },
        ),
        ch != '"' && ch != '#' ==> transition(ScanState::SeenR, ch) == code_step(ch),
{
}

/// While counting hashes, `#` counts one more, `"` opens a raw string that
/// closes with as many hashes, and any other character is read as code.
pub proof fn lemma_raw_string_hashes_step(count: usize, ch: char)
    requires
        count < usize::MAX,
    ensures
        ch == '#' ==> transition(ScanState::RawStringHashes { count }, ch) == quiet(
            ScanState::RawStringHashes { count: (count + 1) as usize },
        ),
        ch == '"' ==> transition(ScanState::RawStringHashes { count }, ch) == quiet(
            ScanState::InRawString { hashes: count },
        ),
        ch != '#' && ch != '"' ==> transition(ScanState::RawStringHashes { count }, ch)
            == code_step(ch),
{
}

/// The state after reading all of `cs`, starting in `s`.
pub open spec fn scan_run(s: ScanState, cs: Seq<char>) -> ScanState
    decreases cs.len(),
{
    if cs.len() == 0 {
        s
    } else {
        transition(scan_run(s, cs.drop_last()), cs.last()).next
    }
}

/// Reading `a` and then `b` is reading `a + b`.
pub proof fn lemma_scan_run_concat(s: ScanState, a: Seq<char>, b: Seq<char>)
    ensures
        scan_run(s, a + b) == scan_run(scan_run(s, a), b),
    decreases b.len(),
{
    if b.len() == 0 {
        assert(a + b =~= a);
    } else {
        lemma_scan_run_concat(s, a, b.drop_last());
        assert((a + b).drop_last() =~= a + b.drop_last());
        assert((a + b).last() == b.last());
    }
}

/// Reading one character is one transition.
proof fn lemma_scan_run_one(s: ScanState, c: char)
    ensures
        scan_run(s, seq![c]) == transition(s, c).next,
{
    assert(seq![c].drop_last() =~= Seq::<char>::empty());
    assert(scan_run(s, Seq::<char>::empty()) == s);
}

/// Reading two characters is two transitions.
proof fn lemma_scan_run_two(s: ScanState, c: char, d: char)
    ensures
        scan_run(s, seq![c, d]) == transition(transition(s, c).next, d).next,
{
    lemma_scan_run_one(s, c);
    assert(seq![c, d].drop_last() =~= seq![c]);
}

/// The body of a string literal: no bare `"`, and every `\` escapes the
/// one character after it.
pub open spec fn string_body(b: Seq<char>) -> bool
    decreases b.len(),
{
    if b.len() == 0 {
        true
    } else if b[0] == '"' {
        false
    } else if b[0] == '\\' {
        b.len() >= 2 && string_body(b.skip(2))
    } else {
        string_body(b.skip(1))
    }
}

/// Inside a string, a well-formed body followed by the closing `"` leads
/// back to code.
proof fn lemma_string_body_closes(b: Seq<char>)
    requires
        string_body(b),
    ensures
        scan_run(ScanState::InString, b + seq!['"']) == ScanState::Normal,
    decreases b.len(),
{
    let q = seq!['"'];
    if b.len() == 0 {
        assert(b + q =~= q);
        lemma_scan_run_one(ScanState::InString, '"');
    } else {
        let n: int = if b[0] == '\\' { 2 } else { 1 };
        let head = b.take(n);
        let rest = b.skip(n);
        lemma_string_body_closes(rest);
        assert(b + q =~= head + (rest + q));
        lemma_scan_run_concat(ScanState::InString, head, rest + q);
        if n == 2 {
            assert(head =~= seq![b[0], b[1]]);
            lemma_scan_run_two(ScanState::InString, b[0], b[1]);
        } else {
            assert(head =~= seq![b[0]]);
            lemma_scan_run_one(ScanState::InString, b[0]);
        }
        assert(scan_run(ScanState::InString, head) == ScanState::InString);
    }
}

/// A string literal is one token: from code, a `"`, a well-formed body
/// (each `\` escaping exactly one character) and the closing `"` lead
/// back to code, whatever the body holds.
pub proof fn lemma_string_literal_returns_to_code(b: Seq<char>)
    requires
        string_body(b),
    ensures
        scan_run(ScanState::Normal, seq!['"'] + b + seq!['"']) == ScanState::Normal,
{
    let q = seq!['"'];
    lemma_string_body_closes(b);
    assert(q + b + q =~= q + (b + q));
    lemma_scan_run_concat(ScanState::Normal, q, b + q);
    lemma_scan_run_one(ScanState::Normal, '"');
}

/// `b` holds neither `/*` nor `*/`, and does not end in `/`.
pub open spec fn plain_comment_body(b: Seq<char>) -> bool {
    &&& forall|i: int| 0 <= i < b.len() - 1 ==> !(#[trigger] b[i] == '/' && b[i + 1] == '*')
    &&& forall|i: int| 0 <= i < b.len() - 1 ==> !(#[trigger] b[i] == '*' && b[i + 1] == '/')
    &&& (b.len() > 0 ==> b.last() != '/')
}

/// Inside a block comment at depth one, the state after a prefix of a
/// plain body depends only on its last character.
proof fn lemma_comment_body_prefix(b: Seq<char>, n: int)
    requires
        plain_comment_body(b),
        0 <= n <= b.len(),
    ensures
        scan_run(ScanState::BlockComment { depth: 1 }, b.take(n)) == (if n == 0 {
            ScanState::BlockComment { depth: 1 }
        } else if b[n - 1] == '*' {
            ScanState::BlockCommentStar { depth: 1 }
        } else if b[n - 1] == '/' {
            ScanState::BlockCommentSlash { depth: 1 }
        } else {
            ScanState::BlockComment { depth: 1 }
        }),
    decreases n,
{
    if n > 0 {
        lemma_comment_body_prefix(b, n - 1);
        assert(b.take(n).drop_last() =~= b.take(n - 1));
        assert(b.take(n).last() == b[n - 1]);
        if n >= 2 {
            let i = n - 2;
            assert(!(b[i] == '/' && b[i + 1] == '*'));
            assert(!(b[i] == '*' && b[i + 1] == '/'));
        }
    }
}

/// A block comment closes at its first `*/`, however many `*` come before
/// it: from code, `/*`, a body without `/*` or `*/` (and not ending in
/// `/`), then `*/` lead back to code.
pub proof fn lemma_block_comment_returns_to_code(b: Seq<char>)
    requires
        plain_comment_body(b),
    ensures
        scan_run(ScanState::Normal, seq!['/', '*'] + b + seq!['*', '/']) == ScanState::Normal,
{
    let open = seq!['/', '*'];
    let close = seq!['*', '/'];
    lemma_comment_body_prefix(b, b.len() as int);
    assert(b.take(b.len() as int) =~= b);
    lemma_scan_run_concat(ScanState::Normal, open + b, close);
    lemma_scan_run_concat(ScanState::Normal, open, b);
    lemma_scan_run_two(ScanState::Normal, '/', '*');
    let mid = scan_run(ScanState::Normal, open + b);
    lemma_scan_run_two(mid, '*', '/');
}

impl ScanState {
    /// Whether no counter of this state is at its limit, so that one more
    /// step cannot overflow.
    pub open spec fn can_advance(self) -> bool {
        counter(self) < usize::MAX && depth_positive(self)
    }

    /// Move the state machine over `ch`.
    pub fn advance(self, ch: char) -> (res: StateAction)
        requires
            self.can_advance(),
        ensures
            res == transition(self, ch),
    {
        match self {
            Self::Normal => Self::advance_normal(ch),
            Self::Slash => Self::advance_slash(ch),
            Self::LineComment => Self::advance_line_comment(ch),
            Self::BlockComment { depth } => Self::advance_block_comment(depth, ch),
            Self::BlockCommentStar { depth } => Self::advance_block_comment_star(depth, ch),
            Self::BlockCommentSlash { depth } => Self::advance_block_comment_slash(depth, ch),
            Self::InString => Self::advance_in_string(ch),
            Self::InStringEscape => StateAction { next: Self::InString, brace: BraceAction::Neutral },
            Self::Tick => Self::advance_tick(ch),
            Self::InChar => Self::advance_in_char(ch),
            Self::InCharEscape => StateAction { next: Self::InChar, brace: BraceAction::Neutral },
            Self::SeenR => Self::advance_seen_r(ch),
            Self::RawStringHashes { count } => Self::advance_raw_string_hashes(count, ch),
            Self::InRawString { hashes } => Self::advance_in_raw_string(hashes, ch),
            Self::RawStringClosing { hashes, seen } => {
                Self::advance_raw_string_closing(hashes, seen, ch)
            },
        }
    }

    /// The step from code.
    pub fn advance_normal(ch: char) -> (res: StateAction)
        ensures
            res == code_step(ch),
    {
        let (next, brace) = match ch {
            '{' => (Self::Normal, BraceAction::Open),
            '}' => (Self::Normal, BraceAction::Close),
            '/' => (Self::Slash, BraceAction::Neutral),
            '"' => (Self::InString, BraceAction::Neutral),
            '\'' => (Self::Tick, BraceAction::Neutral),
            'r' => (Self::SeenR, BraceAction::Neutral),
            _ => (Self::Normal, BraceAction::Neutral),
        };
        StateAction { next, brace }
    }

    /// After `/` in code: `/` or `*` opens a comment, anything else is code.
    pub fn advance_slash(ch: char) -> (res: StateAction)
        ensures
            res == transition(Self::Slash, ch),
    {
        let (next, brace) = match ch {
            '/' => (Self::LineComment, BraceAction::Neutral),
            '*' => (Self::BlockComment { depth: 1 }, BraceAction::Neutral),
            '{' => (Self::Normal, BraceAction::Open),
            '}' => (Self::Normal, BraceAction::Close),
            '"' => (Self::InString, BraceAction::Neutral),
            '\'' => (Self::Tick, BraceAction::Neutral),
            'r' => (Self::SeenR, BraceAction::Neutral),
            _ => (Self::Normal, BraceAction::Neutral),
        };
        StateAction { next, brace }
    }

    /// Inside a line comment, which ends at `\n`.
    pub fn advance_line_comment(ch: char) -> (res: StateAction)
        ensures
            res == transition(Self::LineComment, ch),
    {
        let next = if ch == '\n' {
            Self::Normal
        } else {
            Self::LineComment
        };
        StateAction { next, brace: BraceAction::Neutral }
    }

    /// Inside a block comment at nesting depth `depth`.
    pub fn advance_block_comment(depth: usize, ch: char) -> (res: StateAction)
        ensures
            res == transition(Self::BlockComment { depth }, ch),
    {
        let next = match ch {
            '*' => Self::BlockCommentStar { depth },
            '/' => Self::BlockCommentSlash { depth },
            _ => Self::BlockComment { depth },
        };
        StateAction { next, brace: BraceAction::Neutral }
    }

    /// After `*` inside a block comment: `/` closes one level.
    pub fn advance_block_comment_star(depth: usize, ch: char) -> (res: StateAction)
        requires
            depth >= 1,
        ensures
            res == transition(Self::BlockCommentStar { depth }, ch),
    {
        let next = match ch {
            '/' if depth == 1 => Self::Normal,
            '/' => Self::BlockComment { depth: depth - 1 },
            '*' => Self::BlockCommentStar { depth },
            _ => Self::BlockComment { depth },
        };
        StateAction { next, brace: BraceAction::Neutral }
    }

    /// After `/` inside a block comment: `*` opens a nested level.
    pub fn advance_block_comment_slash(depth: usize, ch: char) -> (res: StateAction)
        requires
            depth < usize::MAX,
        ensures
            res == transition(Self::BlockCommentSlash { depth }, ch),
    {
        let next = match ch {
            '*' => Self::BlockComment { depth: depth + 1 },
            '/' => Self::BlockCommentSlash { depth },
            _ => Self::BlockComment { depth },
        };
        StateAction { next, brace: BraceAction::Neutral }
    }

    /// Inside a string literal.
    pub fn advance_in_string(ch: char) -> (res: StateAction)
        ensures
            res == transition(Self::InString, ch),
    {
        let next = match ch {
            '\\' => Self::InStringEscape,
            '"' => Self::Normal,
            _ => Self::InString,
        };
        StateAction { next, brace: BraceAction::Neutral }
    }

    /// After `'`: could be a char literal (`'x'`, `'\n'`) or a lifetime (`'a`).
    pub fn advance_tick(ch: char) -> (res: StateAction)
        ensures
            res == transition(Self::Tick, ch),
    {
        let next = match ch {
            '\\' => Self::InCharEscape,
            '\'' => Self::Normal,
            _ => Self::InChar,
        };
        StateAction { next, brace: BraceAction::Neutral }
    }

    /// Inside a char literal after the first character, expecting the
    /// closing `'`; anything else means it was a lifetime, and `ch` is code.
    pub fn advance_in_char(ch: char) -> (res: StateAction)
        ensures
            res == transition(Self::InChar, ch),
    {
        if ch == '\'' {
            return StateAction { next: Self::Normal, brace: BraceAction::Neutral };
        }
        Self::advance_normal(ch)
    }

    /// Seen `r` in code: check for a raw string prefix.
    pub fn advance_seen_r(ch: char) -> (res: StateAction)
        ensures
            res == transition(Self::SeenR, ch),
            ch == '"' ==> res == quiet(Self::InRawString { hashes: 0 }),
            ch == '#' ==> res == quiet(Self::RawStringHashes { count: 1 }),
            ch != '"' && ch != '#' ==> res == code_step(ch),
    {
        match ch {
            '"' => StateAction { next: Self::InRawString { hashes: 0 }, brace: BraceAction::Neutral },
            '#' => StateAction {
                next: Self::RawStringHashes { count: 1 },
                brace: BraceAction::Neutral,
            },
            _ => Self::advance_normal(ch),
        }
    }

    /// Counting `#`s after `r`, waiting for `"` to open the raw string.
    pub fn advance_raw_string_hashes(count: usize, ch: char) -> (res: StateAction)
        requires
            count < usize::MAX,
        ensures
            res == transition(Self::RawStringHashes { count }, ch),
            ch == '#' ==> res == quiet(Self::RawStringHashes { count: (count + 1) as usize }),
            ch == '"' ==> res == quiet(Self::InRawString { hashes: count }),
            ch != '#' && ch != '"' ==> res == code_step(ch),
    {
        match ch {
            '#' => StateAction {
                next: Self::RawStringHashes { count: count + 1 },
                brace: BraceAction::Neutral,
            },
            '"' => StateAction {
                next: Self::InRawString { hashes: count },
                brace: BraceAction::Neutral,
            },
            _ => Self::advance_normal(ch),
        }
    }

    /// Inside a raw string literal that closes with `hashes` hashes.
    pub fn advance_in_raw_string(hashes: usize, ch: char) -> (res: StateAction)
        ensures
            res == transition(Self::InRawString { hashes }, ch),
    {
        let next = if ch == '"' {
            if hashes == 0 {
                Self::Normal
            } else {
                Self::RawStringClosing { hashes, seen: 0 }
            }
        } else {
            Self::InRawString { hashes }
        };
        StateAction { next, brace: BraceAction::Neutral }
    }

    /// After `"` inside a raw string, having seen `seen` closing hashes.
    pub fn advance_raw_string_closing(hashes: usize, seen: usize, ch: char) -> (res: StateAction)
        requires
            seen < usize::MAX,
        ensures
            res == transition(Self::RawStringClosing { hashes, seen }, ch),
    {
        if ch == '#' {
            let new_seen = seen + 1;
            if new_seen == hashes {
                return StateAction { next: Self::Normal, brace: BraceAction::Neutral };
            }
            return StateAction {
                next: Self::RawStringClosing { hashes, seen: new_seen },
                brace: BraceAction::Neutral,
            };
        }
        if ch == '"' {
            return StateAction {
                next: Self::RawStringClosing { hashes, seen: 0 },
                brace: BraceAction::Neutral,
            };
        }
        StateAction { next: Self::InRawString { hashes }, brace: BraceAction::Neutral }
    }
}

} // verus!
