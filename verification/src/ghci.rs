//! What the bot makes of a GHCi run: whether it timed out or said too much, and
//! the part of its output that is worth showing.
use vstd::prelude::*;
use vstd::utf8::{decode_utf8, valid_utf8};

use crate::text::{
    lemma_trim_idempotent,
    chars_of, has_suffix, join_lines, line_bounds, lines, push_range, range_equals, remove_all,
    remove_all_in, string_from_chars, trim, trim_bounds,
};

verus! {

/// Output at least this many bytes long is not shown.
pub const LIMIT_BYTE: usize = 1000;

/// What a finished GHCi process left: whether it exited successfully, and the
/// bytes it wrote to standard output and standard error.
pub struct CommandOutput {
    pub success: bool,
    pub stdout: Vec<u8>,
    pub stderr: Vec<u8>,
}

/// Which output stream was not UTF-8.
#[derive(Debug, Clone, Copy, PartialEq, Eq, Structural)]
pub enum Utf8Failure {
    Stdout,
    Stderr,
}

/// The result of command execution.
pub enum ExecutionResult {
    /// The string read from `stdout` and `stderr`
    Output { stdout: String, stderr: String },
    /// Timeout during execution
    Timeout,
    /// Output length exceeded the limit
    LengthExceeded,
    /// Other errors that happened when handling the output
    OtherError(Utf8Failure),
}

/// The line GHCi prints as it exits.
pub open spec fn farewell() -> Seq<char> {
    "Leaving GHCi."@
}

/// The greeting line that GHCi 9.0.2 prints as it starts.
pub open spec fn greeting() -> Seq<char> {
    "GHCi, version 9.0.2: https://www.haskell.org/ghc/  :? for help"@
}

/// The prompt that GHCi writes before each answer.
pub open spec fn prompt() -> Seq<char> {
    "ghci>"@
}

/// The part of GHCi's standard output worth showing: the trimmed output must end
/// with the farewell; what stands before it, less its first two lines (the
/// greeting and the line about the loaded configuration), joined by `'\n'`.
/// Output that does not end with the farewell shows nothing.
pub open spec fn stdout_body(output: Seq<char>) -> Seq<char> {
    let t = trim(output);
    if has_suffix(t, farewell()) {
        let ls = lines(t.take(t.len() - farewell().len()));
        if ls.len() <= 2 {
            seq![]
        } else {
            join_lines(ls.skip(2))
        }
    } else {
        seq![]
    }
}

/// What becomes of one line of GHCi's output in a reply: the greeting and lines
/// that are empty or the farewell once the prompts are taken out and the line is
/// trimmed are dropped; other lines are kept in that form.
pub open spec fn shown_line(line: Seq<char>) -> Option<Seq<char>> {
    if trim(line) == greeting() {
        None
    } else {
        let t = trim(remove_all(line, prompt()));
        if trim(t).len() == 0 || trim(t) == farewell() {
            None
        } else {
            Some(t)
        }
    }
}

/// The reply made of the lines `ls`: each kept line followed by `'\n'`.
pub open spec fn shown_lines(ls: Seq<Seq<char>>) -> Seq<char>
    decreases ls.len(),
{
    if ls.len() == 0 {
        seq![]
    } else {
        shown_lines(ls.drop_last()) + match shown_line(ls.last()) {
            Some(t) => t + seq!['\n'],
            None => seq![],
        }
    }
}

/// Each line of GHCi's output is shown or dropped on its own, wherever it
/// stands: the reply for `ls` followed by one more line `l` is the reply for `ls`,
/// followed by `l` with every `ghci>` taken out, trimmed and ended by `'\n'`,
/// unless `l` trimmed is the greeting or what is left is empty or the farewell.
pub proof fn lemma_shown_lines_push(ls: Seq<Seq<char>>, l: Seq<char>)
    ensures
        ({
            let t = trim(remove_all(l, "ghci>"@));
            let kept = trim(l) != "GHCi, version 9.0.2: https://www.haskell.org/ghc/  :? for help"@
                && t.len() > 0 && t != "Leaving GHCi."@;
            shown_lines(ls.push(l)) == shown_lines(ls) + (if kept {
                t + seq!['\n']
            } else {
                seq![]
            })
        }),
{
    let t = trim(remove_all(l, "ghci>"@));
    lemma_trim_idempotent(remove_all(l, "ghci>"@));
    assert(ls.push(l).drop_last() =~= ls);
    assert(ls.push(l).last() == l);
    assert(shown_lines(ls) + Seq::<char>::empty() =~= shown_lines(ls));
}

/// GHCi's standard output, trimmed, must end with `Leaving GHCi.`; what comes
/// before that, less its first two lines, is shown, its lines joined by `'\n'`.
pub proof fn lemma_stdout_body_shown(
    output: Seq<char>,
    body: Seq<char>,
    first: Seq<char>,
    second: Seq<char>,
    rest: Seq<Seq<char>>,
)
    requires
        trim(output) == body + "Leaving GHCi."@,
        lines(body) == seq![first, second] + rest,
    ensures
        stdout_body(output) == join_lines(rest),
{
    let t = trim(output);
    let f = "Leaving GHCi."@;
    assert(t.skip(t.len() - f.len()) =~= f);
    assert(t.take(t.len() - f.len()) =~= body);
    assert((seq![first, second] + rest).skip(2) =~= rest);
    if rest.len() == 0 {
        assert(lines(body).len() == 2);
    }
}

/// Output whose trimmed form does not end with `Leaving GHCi.` shows nothing.
pub proof fn lemma_stdout_without_farewell(output: Seq<char>)
    requires
        !(exists|body: Seq<char>| trim(output) == body + "Leaving GHCi."@),
    ensures
        stdout_body(output) == Seq::<char>::empty(),
{
    let t = trim(output);
    let f = "Leaving GHCi."@;
    if f.len() <= t.len() && t.skip(t.len() - f.len()) == f {
        assert(t == t.take(t.len() - f.len()) + f);
    }
}

/// Joining lines puts one `'\n'` between neighbours and none at the ends.
pub proof fn lemma_join_lines_push(ls: Seq<Seq<char>>, x: Seq<char>)
    ensures
        join_lines(seq![x]) == x,
        ls.len() > 0 ==> join_lines(ls.push(x)) == join_lines(ls) + seq!['\n'] + x,
{
    assert(ls.push(x).drop_last() =~= ls);
}

/// Decodes `bytes` as UTF-8 with `String::from_utf8`.
#[verifier::external_body]
pub(crate) fn string_from_utf8(bytes: Vec<u8>) -> (r: Option<String>)
    ensures
        match r {
            Some(s) => valid_utf8(bytes@) && s@ == decode_utf8(bytes@),
            None => !valid_utf8(bytes@),
        },
{
    String::from_utf8(bytes).ok()
}

/// Handle the output produced from the command executed.
pub fn process_output(output: CommandOutput) -> (r: ExecutionResult)
    ensures
        !output.success ==> r is Timeout,
        output.success && !valid_utf8(output.stdout@) ==> r == ExecutionResult::OtherError(
            Utf8Failure::Stdout,
        ),
        output.success && valid_utf8(output.stdout@) && !valid_utf8(output.stderr@) ==> r
            == ExecutionResult::OtherError(Utf8Failure::Stderr),
        output.success && valid_utf8(output.stdout@) && valid_utf8(output.stderr@)
            && output.stdout@.len() >= LIMIT_BYTE ==> r is LengthExceeded,
        output.success && valid_utf8(output.stdout@) && valid_utf8(output.stderr@)
            && output.stdout@.len() < LIMIT_BYTE ==> (r matches ExecutionResult::Output {
            stdout,
            stderr,
        } && stdout@ == stdout_body(decode_utf8(output.stdout@)) && stderr@ == decode_utf8(
            output.stderr@,
        )),
{
    if output.success {
        let stdout_len = output.stdout.len();
        let stdout = match string_from_utf8(output.stdout) {
            Some(s) => s,
            None => {
                return ExecutionResult::OtherError(Utf8Failure::Stdout);
            },
        };
        let stderr = match string_from_utf8(output.stderr) {
            Some(s) => s,
            None => {
                return ExecutionResult::OtherError(Utf8Failure::Stderr);
            },
        };
        if stdout_len < LIMIT_BYTE {
            ExecutionResult::Output { stdout: process_stdout_string(stdout.as_str()), stderr }
        } else {
            ExecutionResult::LengthExceeded
        }
    } else {
        ExecutionResult::Timeout
    }
}

/// Trims GHCi greetings and leaving messages from GHCi's output.
///
/// Note: needs a proper `.ghci` to be loaded in order for this to work. Example:
/// ```text
/// :set prompt ""
/// :set prompt-cont ""
/// ```
pub fn process_stdout_string(output: &str) -> (r: String)
    ensures
        r@ == stdout_body(output@),
{
    let v = chars_of(output);
    assert(v@.subrange(0, v@.len() as int) =~= v@);
    let (a, b) = trim_bounds(&v, 0, v.len());
    let ghost t = v@.subrange(a as int, b as int);
    let suffix = chars_of("Leaving GHCi.");
    if b - a < suffix.len() {
        return String::new();
    }
    let end = b - suffix.len();
    assert(t.skip(t.len() - suffix@.len()) =~= v@.subrange(end as int, b as int));
    if !range_equals(&v, end, b, &suffix) {
        return String::new();
    }
    assert(t.take(t.len() - suffix@.len()) =~= v@.subrange(a as int, end as int));
    let ls = line_bounds(&v, a, end);
    let ghost lsv = lines(v@.subrange(a as int, end as int));
    let mut out: Vec<char> = Vec::new();
    if ls.len() <= 2 {
        return String::new();
    }
    let mut i: usize = 2;
    while i < ls.len()
        invariant
            2 <= i <= ls@.len(),
            ls@.len() == lsv.len(),
            forall|j: int|
                0 <= j < ls@.len() ==> a <= (#[trigger] ls@[j]).0 <= ls@[j].1 <= end && v@.subrange(
                    ls@[j].0 as int,
                    ls@[j].1 as int,
                ) == lsv[j],
            end <= v@.len(),
            out@ == join_lines(lsv.skip(2).take(i - 2)),
        decreases ls@.len() - i,
    {
        let (s, e) = ls[i];
        let ghost before = out@;
        if i > 2 {
            out.push('\n');
        }
        push_range(&mut out, &v, s, e);
        proof {
            let w = lsv.skip(2).take(i - 1);
            assert(w.drop_last() =~= lsv.skip(2).take(i - 2));
            assert(w.last() == lsv[i as int]);
            if i == 2 {
                assert(lsv.skip(2).take(0) =~= Seq::<Seq<char>>::empty());
                assert(out@ =~= join_lines(w));
            } else {
                assert(out@ =~= join_lines(w));
            }
        }
        i = i + 1;
    }
    assert(lsv.skip(2).take(ls@.len() - 2) =~= lsv.skip(2));
    string_from_chars(&out)
}

/// The reply that shows GHCi's output `message`: its lines, without the greeting,
/// the prompts, the farewell and the empty lines, each trimmed and followed by
/// `'\n'`.
pub fn clean_ghci_output(message: &str) -> (r: String)
    ensures
        r@ == shown_lines(lines(message@)),
{
    let v = chars_of(message);
    assert(v@.subrange(0, v@.len() as int) =~= v@);
    let greeting_chars = chars_of("GHCi, version 9.0.2: https://www.haskell.org/ghc/  :? for help");
    let prompt_chars = chars_of("ghci>");
    let farewell_chars = chars_of("Leaving GHCi.");
    proof {
        reveal_strlit("ghci>");
    }
    let ls = line_bounds(&v, 0, v.len());
    let ghost lsv = lines(v@);
    let mut out: Vec<char> = Vec::new();
    let mut i: usize = 0;
    assert(lsv.take(0) =~= Seq::<Seq<char>>::empty());
    while i < ls.len()
        invariant
            0 <= i <= ls@.len(),
            ls@.len() == lsv.len(),
            lsv == lines(v@),
            greeting_chars@ == greeting(),
            prompt_chars@ == prompt(),
            prompt_chars@.len() > 0,
            farewell_chars@ == farewell(),
            forall|j: int|
                0 <= j < ls@.len() ==> 0 <= (#[trigger] ls@[j]).0 <= ls@[j].1 <= v@.len()
                    && v@.subrange(ls@[j].0 as int, ls@[j].1 as int) == lsv[j],
            out@ == shown_lines(lsv.take(i as int)),
        decreases ls@.len() - i,
    {
        let (s, e) = ls[i];
        let ghost line = lsv[i as int];
        assert(lsv.take(i + 1).drop_last() =~= lsv.take(i as int));
        assert(lsv.take(i + 1).last() == line);
        let (ts, te) = trim_bounds(&v, s, e);
        if !range_equals(&v, ts, te, &greeting_chars) {
            let w = remove_all_in(&v, s, e, &prompt_chars);
            let (ws, we) = trim_bounds(&w, 0, w.len());
            assert(w@.subrange(0, w@.len() as int) =~= w@);
            let (xs, xe) = trim_bounds(&w, ws, we);
            if xs < xe && !range_equals(&w, xs, xe, &farewell_chars) {
                push_range(&mut out, &w, ws, we);
                out.push('\n');
                assert(out@ =~= shown_lines(lsv.take(i + 1)));
            } else {
                assert(out@ =~= shown_lines(lsv.take(i + 1)));
            }
        } else {
            assert(out@ =~= shown_lines(lsv.take(i + 1)));
        }
        i = i + 1;
    }
    assert(lsv.take(ls@.len() as int) =~= lsv);
    string_from_chars(&out)
}

} // verus!
