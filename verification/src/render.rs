//! Rendering of [`Report`]s as text or JSON.

use vstd::prelude::*;

use crate::classify::Classification;
use crate::report::{any_inline, count, count_class, FileResult, OutputFormat, Report};
use crate::text::{chars_of, push_str, string_from_chars};

verus! {

/// The decimal digit for `d < 10`.
pub open spec fn digit_char(d: nat) -> char {
    if d == 0 {
        '0'
    } else if d == 1 {
        '1'
    } else if d == 2 {
        '2'
    } else if d == 3 {
        '3'
    } else if d == 4 {
        '4'
    } else if d == 5 {
        '5'
    } else if d == 6 {
        '6'
    } else if d == 7 {
        '7'
    } else if d == 8 {
        '8'
    } else {
        '9'
    }
}

/// The lower-case hexadecimal digit for `d < 16`.
pub open spec fn hex_char(d: nat) -> char {
    if d < 10 {
        digit_char(d)
    } else if d == 10 {
        'a'
    } else if d == 11 {
        'b'
    } else if d == 12 {
        'c'
    } else if d == 13 {
        'd'
    } else if d == 14 {
        'e'
    } else {
        'f'
    }
}

/// The decimal numeral of `n`, without leading zeros.
pub open spec fn decimal(n: nat) -> Seq<char>
    decreases n,
{
    if n < 10 {
        seq![digit_char(n)]
    } else {
        decimal(n / 10).push(digit_char(n % 10))
    }
}

/// How one character is written inside a JSON string literal.
pub open spec fn json_escaped_char(c: char) -> Seq<char> {
    if c == '"' {
        seq!['\\', '"']
    } else if c == '\\' {
        seq!['\\', '\\']
    } else if c == '\n' {
        seq!['\\', 'n']
    } else if c == '\r' {
        seq!['\\', 'r']
    } else if c == '\t' {
        seq!['\\', 't']
    } else if (c as u32) < 0x20 {
        seq!['\\', 'u', '0', '0', hex_char((c as u32) as nat / 16), hex_char((c as u32) as nat % 16)]
    } else {
        seq![c]
    }
}

/// `s` escaped for embedding inside a JSON string literal.
pub open spec fn json_escaped(s: Seq<char>) -> Seq<char>
    decreases s.len(),
{
    if s.len() == 0 {
        Seq::empty()
    } else {
        json_escaped(s.drop_last()) + json_escaped_char(s.last())
    }
}

/// Items joined with `,` between them.
pub open spec fn comma_joined(items: Seq<Seq<char>>) -> Seq<char>
    decreases items.len(),
{
    if items.len() == 0 {
        Seq::empty()
    } else if items.len() == 1 {
        items[0]
    } else {
        comma_joined(items.drop_last()) + seq![','] + items.last()
    }
}

fn push_digit(out: &mut Vec<char>, d: usize)
    requires
        d < 10,
    ensures
        final(out)@ == old(out)@.push(digit_char(d as nat)),
{
    let c = if d == 0 {
        '0'
    } else if d == 1 {
        '1'
    } else if d == 2 {
        '2'
    } else if d == 3 {
        '3'
    } else if d == 4 {
        '4'
    } else if d == 5 {
        '5'
    } else if d == 6 {
        '6'
    } else if d == 7 {
        '7'
    } else if d == 8 {
        '8'
    } else {
        '9'
    };
    out.push(c);
}

fn push_hex_digit(out: &mut Vec<char>, d: u32)
    requires
        d < 16,
    ensures
        final(out)@ == old(out)@.push(hex_char(d as nat)),
{
    if d < 10 {
        push_digit(out, d as usize);
    } else {
        let c = if d == 10 {
            'a'
        } else if d == 11 {
            'b'
        } else if d == 12 {
            'c'
        } else if d == 13 {
            'd'
        } else if d == 14 {
            'e'
        } else {
            'f'
        };
        out.push(c);
    }
}

/// Appends the decimal numeral of `n`.
pub(crate) fn push_decimal(out: &mut Vec<char>, n: usize)
    ensures
        final(out)@ == old(out)@ + decimal(n as nat),
    decreases n,
{
    if n >= 10 {
        push_decimal(out, n / 10);
    }
    push_digit(out, n % 10);
    assert(out@ =~= old(out)@ + decimal(n as nat));
}

/// Appends `s` escaped for a JSON string literal.
fn push_json_escaped(out: &mut Vec<char>, s: &str)
    ensures
        final(out)@ == old(out)@ + json_escaped(s@),
{
    let cs = chars_of(s);
    let ghost start = out@;
    let mut i: usize = 0;
    while i < cs.len()
        invariant
            i <= cs@.len(),
            cs@ == s@,
            out@ == start + json_escaped(cs@.take(i as int)),
        decreases cs@.len() - i,
    {
        let ch = cs[i];
        let ghost before = out@;
        if ch == '"' {
            out.push('\\');
            out.push('"');
        } else if ch == '\\' {
            out.push('\\');
            out.push('\\');
        } else if ch == '\n' {
            out.push('\\');
            out.push('n');
        } else if ch == '\r' {
            out.push('\\');
            out.push('r');
        } else if ch == '\t' {
            out.push('\\');
            out.push('t');
        } else {
            let code = ch as u32;
            if code < 0x20 {
                out.push('\\');
                out.push('u');
                out.push('0');
                out.push('0');
                push_hex_digit(out, code / 16);
                push_hex_digit(out, code % 16);
            } else {
                out.push(ch);
            }
        }
        proof {
            assert(cs@.take(i + 1).drop_last() =~= cs@.take(i as int));
            assert(cs@.take(i + 1).last() == ch);
            assert(out@ =~= before + json_escaped_char(ch));
        }
        i = i + 1;
    }
    assert(cs@.take(cs@.len() as int) =~= cs@);
}

/// Escape a string for embedding inside a JSON string literal.
pub fn json_escape(input: &str) -> (r: String)
    ensures
        r@ == json_escaped(input@),
{
    let mut out: Vec<char> = Vec::new();
    push_json_escaped(&mut out, input);
    assert(out@ =~= json_escaped(input@));
    string_from_chars(out.as_slice())
}

/// The status word of a classification in JSON output.
pub open spec fn status_text(c: Classification) -> Seq<char> {
    match c {
        Classification::Inline => "inline"@,
        Classification::External => "external"@,
        Classification::NoTests => "no_tests"@,
    }
}

fn status_str(classification: Classification) -> (s: &'static str)
    ensures
        s@ == status_text(classification),
{
    match classification {
        Classification::Inline => "inline",
        Classification::External => "external",
        Classification::NoTests => "no_tests",
    }
}

/// The text of `check`: the path of each inline file on a line of its own.
pub open spec fn check_text(rs: Seq<FileResult>) -> Seq<char>
    decreases rs.len(),
{
    if rs.len() == 0 {
        Seq::empty()
    } else {
        check_text(rs.drop_last()) + if rs.last().classification == Classification::Inline {
            rs.last().path@ + seq!['\n']
        } else {
            Seq::empty()
        }
    }
}

/// One file of `check`'s JSON output.
pub open spec fn check_file_json(r: FileResult) -> Seq<char> {
    "{\"path\":\""@ + json_escaped(r.path@) + "\",\"status\":\""@ + status_text(r.classification)
        + "\"}"@
}

/// `check`'s JSON output: every file with its status, and the counts.
pub open spec fn check_json(rs: Seq<FileResult>) -> Seq<char> {
    "{\"files\":["@ + comma_joined(Seq::new(rs.len(), |i: int| check_file_json(rs[i])))
        + "],\"summary\":{\"total\":"@ + decimal(rs.len()) + ",\"inline\":"@ + decimal(
        count_class(rs, Classification::Inline),
    ) + ",\"external\":"@ + decimal(count_class(rs, Classification::External))
        + ",\"no_tests\":"@ + decimal(count_class(rs, Classification::NoTests)) + "}}\n"@
}

/// What `Path::parent` gives for a path (Unix path rules): `None` for a
/// root or an empty path.
pub uninterp spec fn path_parent(path: Seq<char>) -> Option<Seq<char>>;

/// What `Path::join` gives for a base and a relative name (Unix path
/// rules).
pub uninterp spec fn path_joined(base: Seq<char>, name: Seq<char>) -> Seq<char>;

/// `std::path::Path::parent`, displayed. Trusted: the result is
/// `path_parent(path@)`; what that is on given paths is not stated.
#[verifier::external_body]
fn parent_of(path: &str) -> (r: Option<String>)
    ensures
        match r {
            Some(p) => path_parent(path@) == Some(p@),
            None => path_parent(path@) is None,
        },
{
    std::path::Path::new(path).parent().map(|p| p.display().to_string())
}

/// `std::path::Path::join`, displayed. Trusted: the result is
/// `path_joined(base@, name@)`; what that is on given paths is not stated.
#[verifier::external_body]
fn join_path(base: &str, name: &str) -> (r: String)
    ensures
        r@ == path_joined(base@, name@),
{
    std::path::Path::new(base).join(name).display().to_string()
}

/// Where the test file of a result goes: next to the source file (in `.`
/// when the path has no parent); the path itself when there is no test file.
pub open spec fn test_path_text(r: FileResult) -> Seq<char> {
    match r.test_file {
        Some(name) => path_joined(
            match path_parent(r.path@) {
                Some(p) => p,
                None => "."@,
            },
            name@,
        ),
        None => r.path@,
    }
}

fn test_path_for(res: &FileResult) -> (r: String)
    ensures
        r@ == test_path_text(*res),
{
    match &res.test_file {
        Some(name) => {
            let parent = match parent_of(res.path.as_str()) {
                Some(p) => p,
                None => ".".to_owned(),
            };
            join_path(parent.as_str(), name.as_str())
        },
        None => res.path.clone(),
    }
}

/// The lines of `apply`'s text output for one file.
pub open spec fn apply_line(r: FileResult, dry_run: bool) -> Seq<char> {
    match r.classification {
        Classification::Inline => if dry_run {
            "Would create: "@ + test_path_text(r) + "\n"@ + "Would modify: "@ + r.path@ + "\n"@
        } else {
            "Created: "@ + test_path_text(r) + "\n"@ + "Modified: "@ + r.path@ + "\n"@
        },
        Classification::External => "Skipped (external): "@ + r.path@ + "\n"@,
        Classification::NoTests => "Skipped (no tests): "@ + r.path@ + "\n"@,
    }
}

/// The per-file lines of `apply`'s text output.
pub open spec fn apply_lines(rs: Seq<FileResult>, dry_run: bool) -> Seq<char>
    decreases rs.len(),
{
    if rs.len() == 0 {
        Seq::empty()
    } else {
        apply_lines(rs.drop_last(), dry_run) + apply_line(rs.last(), dry_run)
    }
}

/// The number of results written to disk.
pub open spec fn count_applied(rs: Seq<FileResult>) -> nat
    decreases rs.len(),
{
    if rs.len() == 0 {
        0
    } else {
        count_applied(rs.drop_last()) + if rs.last().applied {
            1nat
        } else {
            0nat
        }
    }
}

/// The number of inline results not written to disk.
pub open spec fn count_would_eject(rs: Seq<FileResult>) -> nat
    decreases rs.len(),
{
    if rs.len() == 0 {
        0
    } else {
        count_would_eject(rs.drop_last()) + if !rs.last().applied && rs.last().classification
            == Classification::Inline {
            1nat
        } else {
            0nat
        }
    }
}

/// The summary line of `apply`'s text output (none for an empty run).
pub open spec fn apply_summary(rs: Seq<FileResult>, dry_run: bool) -> Seq<char> {
    if rs.len() == 0 {
        Seq::empty()
    } else {
        "Summary: "@ + if dry_run {
            decimal(count_would_eject(rs)) + " would eject, "@
        } else {
            decimal(count_applied(rs)) + " ejected, "@
        } + decimal(count_class(rs, Classification::External)) + " external, "@ + decimal(
            count_class(rs, Classification::NoTests),
        ) + " no tests ("@ + decimal(rs.len()) + " scanned)\n"@
    }
}

/// The action word of a result in `apply`'s JSON output.
pub open spec fn action_text(r: FileResult) -> Seq<char> {
    match r.classification {
        Classification::Inline => if r.applied {
            "ejected"@
        } else {
            "would_eject"@
        },
        Classification::External => "skipped_external"@,
        Classification::NoTests => "skipped_no_tests"@,
    }
}

fn apply_action(res: &FileResult) -> (s: &'static str)
    ensures
        s@ == action_text(*res),
{
    match res.classification {
        Classification::Inline => if res.applied {
            "ejected"
        } else {
            "would_eject"
        },
        Classification::External => "skipped_external",
        Classification::NoTests => "skipped_no_tests",
    }
}

/// One file of `apply`'s JSON output.
pub open spec fn apply_file_json_text(r: FileResult) -> Seq<char> {
    "{\"path\":\""@ + json_escaped(r.path@) + "\",\"action\":\""@ + action_text(r) + match r.test_file {
        Some(name) => "\",\"test_file\":\""@ + json_escaped(name@) + "\"}"@,
        None => "\"}"@,
    }
}

/// `apply`'s JSON output: every file with its action, and the counts.
pub open spec fn apply_json(rs: Seq<FileResult>) -> Seq<char> {
    "{\"files\":["@ + comma_joined(Seq::new(rs.len(), |i: int| apply_file_json_text(rs[i])))
        + "],\"summary\":{\"total\":"@ + decimal(rs.len()) + ",\"ejected\":"@ + decimal(
        count_applied(rs),
    ) + ",\"would_eject\":"@ + decimal(count_would_eject(rs)) + ",\"external\":"@ + decimal(
        count_class(rs, Classification::External),
    ) + ",\"no_tests\":"@ + decimal(count_class(rs, Classification::NoTests)) + "}}\n"@
}

fn check_file_json_into(out: &mut Vec<char>, res: &FileResult)
    ensures
        final(out)@ == old(out)@ + check_file_json(*res),
{
    push_str(out, "{\"path\":\"");
    push_json_escaped(out, res.path.as_str());
    push_str(out, "\",\"status\":\"");
    push_str(out, status_str(res.classification));
    push_str(out, "\"}");
    assert(out@ =~= old(out)@ + check_file_json(*res));
}

fn apply_file_json(out: &mut Vec<char>, res: &FileResult)
    ensures
        final(out)@ == old(out)@ + apply_file_json_text(*res),
{
    push_str(out, "{\"path\":\"");
    push_json_escaped(out, res.path.as_str());
    push_str(out, "\",\"action\":\"");
    push_str(out, apply_action(res));
    match &res.test_file {
        Some(name) => {
            push_str(out, "\",\"test_file\":\"");
            push_json_escaped(out, name.as_str());
            push_str(out, "\"}");
        },
        None => {
            push_str(out, "\"}");
        },
    }
    assert(out@ =~= old(out)@ + apply_file_json_text(*res));
}

fn render_check_text(report: &Report) -> (r: Vec<char>)
    ensures
        r@ == check_text(report.results@),
{
    let rs = &report.results;
    let mut out: Vec<char> = Vec::new();
    let mut i: usize = 0;
    while i < rs.len()
        invariant
            i <= rs@.len(),
            out@ == check_text(rs@.take(i as int)),
        decreases rs@.len() - i,
    {
        let ghost before = out@;
        if rs[i].classification == Classification::Inline {
            push_str(&mut out, rs[i].path.as_str());
            out.push('\n');
        }
        proof {
            assert(rs@.take(i + 1).drop_last() =~= rs@.take(i as int));
            assert(rs@.take(i + 1).last() == rs@[i as int]);
            if rs@[i as int].classification == Classification::Inline {
                assert(out@ =~= before + (rs@[i as int].path@ + seq!['\n']));
            } else {
                assert(out@ =~= before + Seq::<char>::empty());
            }
        }
        i = i + 1;
    }
    assert(rs@.take(rs@.len() as int) =~= rs@);
    out
}

fn render_check_json(report: &Report) -> (r: Vec<char>)
    ensures
        r@ == check_json(report.results@),
{
    let rs = &report.results;
    let ghost items = Seq::new(rs@.len(), |i: int| check_file_json(rs@[i]));
    let mut out: Vec<char> = Vec::new();
    push_str(&mut out, "{\"files\":[");
    let ghost head = out@;
    let mut i: usize = 0;
    while i < rs.len()
        invariant
            i <= rs@.len() == items.len(),
            items == Seq::new(rs@.len(), |i: int| check_file_json(rs@[i])),
            out@ == head + comma_joined(items.take(i as int)),
        decreases rs@.len() - i,
    {
        let ghost before = out@;
        if i > 0 {
            out.push(',');
        }
        check_file_json_into(&mut out, &rs[i]);
        proof {
            assert(items.take(i + 1).drop_last() =~= items.take(i as int));
            assert(items.take(i + 1).last() == items[i as int]);
            if i == 0 {
                assert(comma_joined(items.take(1)) == items[0]);
            }
            assert(out@ =~= head + comma_joined(items.take(i + 1)));
        }
        i = i + 1;
    }
    assert(items.take(items.len() as int) =~= items);
    push_str(&mut out, "],\"summary\":{\"total\":");
    push_decimal(&mut out, rs.len());
    push_str(&mut out, ",\"inline\":");
    push_decimal(&mut out, count(report, Classification::Inline));
    push_str(&mut out, ",\"external\":");
    push_decimal(&mut out, count(report, Classification::External));
    push_str(&mut out, ",\"no_tests\":");
    push_decimal(&mut out, count(report, Classification::NoTests));
    push_str(&mut out, "}}\n");
    assert(out@ =~= check_json(report.results@));
    out
}

fn count_where_applied(report: &Report) -> (r: (usize, usize))
    ensures
        r.0 == count_applied(report.results@),
        r.1 == count_would_eject(report.results@),
{
    let rs = &report.results;
    let mut applied: usize = 0;
    let mut would: usize = 0;
    let mut i: usize = 0;
    while i < rs.len()
        invariant
            i <= rs@.len(),
            applied == count_applied(rs@.take(i as int)),
            would == count_would_eject(rs@.take(i as int)),
            applied <= i,
            would <= i,
        decreases rs@.len() - i,
    {
        assert(rs@.take(i + 1).drop_last() =~= rs@.take(i as int));
        if rs[i].applied {
            applied = applied + 1;
        }
        if !rs[i].applied && rs[i].classification == Classification::Inline {
            would = would + 1;
        }
        i = i + 1;
    }
    assert(rs@.take(rs@.len() as int) =~= rs@);
    (applied, would)
}

fn render_apply_text(report: &Report, dry_run: bool) -> (r: Vec<char>)
    ensures
        r@ == apply_lines(report.results@, dry_run) + apply_summary(report.results@, dry_run),
{
    let rs = &report.results;
    let mut out: Vec<char> = Vec::new();
    let mut i: usize = 0;
    while i < rs.len()
        invariant
            i <= rs@.len(),
            out@ == apply_lines(rs@.take(i as int), dry_run),
        decreases rs@.len() - i,
    {
        let res = &rs[i];
        let ghost before = out@;
        match res.classification {
            Classification::Inline => {
                let test_path = test_path_for(res);
                if dry_run {
                    push_str(&mut out, "Would create: ");
                    push_str(&mut out, test_path.as_str());
                    push_str(&mut out, "\n");
                    push_str(&mut out, "Would modify: ");
                    push_str(&mut out, res.path.as_str());
                    push_str(&mut out, "\n");
                } else {
                    push_str(&mut out, "Created: ");
                    push_str(&mut out, test_path.as_str());
                    push_str(&mut out, "\n");
                    push_str(&mut out, "Modified: ");
                    push_str(&mut out, res.path.as_str());
                    push_str(&mut out, "\n");
                }
            },
            Classification::External => {
                push_str(&mut out, "Skipped (external): ");
                push_str(&mut out, res.path.as_str());
                push_str(&mut out, "\n");
            },
            Classification::NoTests => {
                push_str(&mut out, "Skipped (no tests): ");
                push_str(&mut out, res.path.as_str());
                push_str(&mut out, "\n");
            },
        }
        proof {
            assert(rs@.take(i + 1).drop_last() =~= rs@.take(i as int));
            assert(rs@.take(i + 1).last() == rs@[i as int]);
            assert(out@ =~= before + apply_line(rs@[i as int], dry_run));
        }
        i = i + 1;
    }
    assert(rs@.take(rs@.len() as int) =~= rs@);
    let ghost lines = out@;
    if rs.len() > 0 {
        let (applied, would) = count_where_applied(report);
        push_str(&mut out, "Summary: ");
        if dry_run {
            push_decimal(&mut out, would);
            push_str(&mut out, " would eject, ");
        } else {
            push_decimal(&mut out, applied);
            push_str(&mut out, " ejected, ");
        }
        push_decimal(&mut out, count(report, Classification::External));
        push_str(&mut out, " external, ");
        push_decimal(&mut out, count(report, Classification::NoTests));
        push_str(&mut out, " no tests (");
        push_decimal(&mut out, rs.len());
        push_str(&mut out, " scanned)\n");
    }
    assert(out@ =~= lines + apply_summary(report.results@, dry_run));
    out
}

fn render_apply_json(report: &Report) -> (r: Vec<char>)
    ensures
        r@ == apply_json(report.results@),
{
    let rs = &report.results;
    let ghost items = Seq::new(rs@.len(), |i: int| apply_file_json_text(rs@[i]));
    let mut out: Vec<char> = Vec::new();
    push_str(&mut out, "{\"files\":[");
    let ghost head = out@;
    let mut i: usize = 0;
    while i < rs.len()
        invariant
            i <= rs@.len() == items.len(),
            items == Seq::new(rs@.len(), |i: int| apply_file_json_text(rs@[i])),
            out@ == head + comma_joined(items.take(i as int)),
        decreases rs@.len() - i,
    {
        if i > 0 {
            out.push(',');
        }
        apply_file_json(&mut out, &rs[i]);
        proof {
            assert(items.take(i + 1).drop_last() =~= items.take(i as int));
            assert(items.take(i + 1).last() == items[i as int]);
            if i == 0 {
                assert(comma_joined(items.take(1)) == items[0]);
            }
            assert(out@ =~= head + comma_joined(items.take(i + 1)));
        }
        i = i + 1;
    }
    assert(items.take(items.len() as int) =~= items);
    let (applied, would) = count_where_applied(report);
    push_str(&mut out, "],\"summary\":{\"total\":");
    push_decimal(&mut out, rs.len());
    push_str(&mut out, ",\"ejected\":");
    push_decimal(&mut out, applied);
    push_str(&mut out, ",\"would_eject\":");
    push_decimal(&mut out, would);
    push_str(&mut out, ",\"external\":");
    push_decimal(&mut out, count(report, Classification::External));
    push_str(&mut out, ",\"no_tests\":");
    push_decimal(&mut out, count(report, Classification::NoTests));
    push_str(&mut out, "}}\n");
    assert(out@ =~= apply_json(report.results@));
    out
}

/// Render a `check` report: the inline paths one per line, or JSON.
#[must_use]
pub fn render_check(report: &Report, format: OutputFormat) -> (r: String)
    ensures
        r@ == match format {
            OutputFormat::Text => check_text(report.results@),
            OutputFormat::Json => check_json(report.results@),
        },
{
    let out = match format {
        OutputFormat::Text => render_check_text(report),
        OutputFormat::Json => render_check_json(report),
    };
    string_from_chars(out.as_slice())
}

/// Render an `apply` report.
#[must_use]
pub fn render_apply(report: &Report, format: OutputFormat, dry_run: bool) -> (r: String)
    ensures
        r@ == match format {
            OutputFormat::Text => apply_lines(report.results@, dry_run) + apply_summary(
                report.results@,
                dry_run,
            ),
            OutputFormat::Json => apply_json(report.results@),
        },
{
    let out = match format {
        OutputFormat::Text => render_apply_text(report, dry_run),
        OutputFormat::Json => render_apply_json(report),
    };
    string_from_chars(out.as_slice())
}

/// `check`'s text output is silent exactly when no file is inline.
pub proof fn lemma_check_text_silent(rs: Seq<FileResult>)
    ensures
        check_text(rs).len() == 0 <==> !any_inline(rs),
    decreases rs.len(),
{
    if rs.len() > 0 {
        lemma_check_text_silent(rs.drop_last());
        if any_inline(rs.drop_last()) {
            let i = choose|i: int|
                0 <= i < rs.len() - 1 && (#[trigger] rs.drop_last()[i]).classification
                    == Classification::Inline;
            assert(rs[i] == rs.drop_last()[i]);
        }
        if any_inline(rs) && !any_inline(rs.drop_last()) {
            let i = choose|i: int|
                0 <= i < rs.len() && (#[trigger] rs[i]).classification == Classification::Inline;
            if i < rs.len() - 1 {
                assert(rs.drop_last()[i] == rs[i]);
            }
        }
        if rs.last().classification == Classification::Inline {
            assert(rs[rs.len() - 1].classification == Classification::Inline);
        }
    }
}

/// Where the line of result `i` starts in `check`'s text output: the
/// lengths of the lines of the inline results before it.
pub open spec fn inline_offset(rs: Seq<FileResult>, i: int) -> int
    decreases i,
{
    if i <= 0 {
        0
    } else {
        inline_offset(rs, i - 1) + if rs[i - 1].classification == Classification::Inline {
            rs[i - 1].path@.len() as int + 1
        } else {
            0int
        }
    }
}

proof fn lemma_inline_offset_prefix(rs: Seq<FileResult>, n: int, i: int)
    requires
        0 <= i <= n <= rs.len(),
    ensures
        inline_offset(rs.take(n), i) == inline_offset(rs, i),
    decreases i,
{
    if i > 0 {
        lemma_inline_offset_prefix(rs, n, i - 1);
        assert(rs.take(n)[i - 1] == rs[i - 1]);
    }
}

proof fn lemma_inline_offset_grows(rs: Seq<FileResult>, i: int, j: int)
    requires
        0 <= i <= j,
    ensures
        inline_offset(rs, i) <= inline_offset(rs, j),
    decreases j - i,
{
    if i < j {
        lemma_inline_offset_grows(rs, i, j - 1);
    }
}

/// `check`'s text output lists every inline file, in order, each path on a
/// line of its own, and nothing else: the line of each inline result
/// stands at its offset, and the output is exactly as long as those lines.
pub proof fn lemma_check_text_lists_every_inline(rs: Seq<FileResult>)
    ensures
        check_text(rs).len() == inline_offset(rs, rs.len() as int),
        forall|i: int|
            0 <= i < rs.len() && (#[trigger] rs[i]).classification == Classification::Inline
                ==> check_text(rs).subrange(
                inline_offset(rs, i),
                inline_offset(rs, i) + rs[i].path@.len() + 1,
            ) == rs[i].path@ + seq!['\n'],
    decreases rs.len(),
{
    if rs.len() > 0 {
        let n = rs.len() - 1;
        let init = rs.drop_last();
        lemma_check_text_lists_every_inline(init);
        assert(init =~= rs.take(n));
        assert forall|i: int| 0 <= i <= n implies inline_offset(init, i) == inline_offset(rs, i) by {
            lemma_inline_offset_prefix(rs, n, i);
        }
        let prev = check_text(init);
        let t = check_text(rs);
        assert forall|i: int|
            0 <= i < rs.len() && (#[trigger] rs[i]).classification == Classification::Inline
                implies t.subrange(
                inline_offset(rs, i),
                inline_offset(rs, i) + rs[i].path@.len() + 1,
            ) == rs[i].path@ + seq!['\n'] by {
            let a = inline_offset(rs, i);
            let e = a + rs[i].path@.len() + 1;
            lemma_inline_offset_grows(rs, 0, i);
            assert(t == prev + if rs.last().classification == Classification::Inline {
                rs.last().path@ + seq!['\n']
            } else {
                Seq::<char>::empty()
            });
            if i < n {
                assert(init[i] == rs[i]);
                assert(inline_offset(rs, i + 1) == e);
                lemma_inline_offset_grows(rs, i + 1, n);
                assert(inline_offset(init, n) == inline_offset(rs, n));
                assert(e <= prev.len());
                assert(t.subrange(a, e) =~= prev.subrange(a, e));
            } else {
                assert(a == prev.len());
                assert(t.subrange(a, e) =~= rs[i].path@ + seq!['\n']);
            }
        }
    }
}

/// `apply`'s text summary counts each kind of result: the ejected (or, on
/// a dry run, would-be ejected) files, then those classified external,
/// then those with no tests, then all results; an empty run has none.
pub proof fn lemma_apply_summary_counts(rs: Seq<FileResult>, dry_run: bool)
    ensures
        rs.len() == 0 ==> apply_summary(rs, dry_run).len() == 0,
        rs.len() > 0 ==> apply_summary(rs, dry_run) == "Summary: "@ + (if dry_run {
            decimal(count_would_eject(rs)) + " would eject, "@
        } else {
            decimal(count_applied(rs)) + " ejected, "@
        }) + decimal(count_class(rs, Classification::External)) + " external, "@ + decimal(
            count_class(rs, Classification::NoTests),
        ) + " no tests ("@ + decimal(rs.len()) + " scanned)\n"@,
{
}

/// Escaped text holds no control character (below U+0020): each one is
/// written as an escape sequence.
pub proof fn lemma_json_escaped_printable(s: Seq<char>)
    ensures
        forall|i: int| 0 <= i < json_escaped(s).len() ==> (#[trigger] json_escaped(s)[i]) as u32 >= 0x20,
    decreases s.len(),
{
    if s.len() > 0 {
        lemma_json_escaped_printable(s.drop_last());
        let e = json_escaped_char(s.last());
        let c = s.last();
        assert forall|d: nat| d < 16 implies (#[trigger] hex_char(d)) as u32 >= 0x20 by {}
        assert(forall|i: int| 0 <= i < e.len() ==> (#[trigger] e[i]) as u32 >= 0x20) by {
            if (c as u32) < 0x20 && c != '\n' && c != '\r' && c != '\t' {
                let hi = (c as u32) as nat / 16;
                let lo = (c as u32) as nat % 16;
                assert(e =~= seq!['\\', 'u', '0', '0', hex_char(hi), hex_char(lo)]);
            }
        }
        let prev = json_escaped(s.drop_last());
        assert(json_escaped(s) == prev + e);
        assert forall|i: int| 0 <= i < json_escaped(s).len() implies (#[trigger] json_escaped(s)[i]) as u32 >= 0x20 by {
            if i < prev.len() {
                assert(json_escaped(s)[i] == prev[i]);
            } else {
                assert(json_escaped(s)[i] == e[i - prev.len()]);
            }
        }
    }
}

} // verus!
