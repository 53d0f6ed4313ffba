//! Which words of a failed sandboxed command name paths, and what the command
//! likely needed to do with them.
//!
//! When the sandbox denies a command, cake names the missing grant instead of
//! echoing "Operation not permitted".  The scan here decides, word by word,
//! which words are path candidates and with which operation: the leading word
//! (or the word after a command separator) is executed, redirection targets
//! are written, and arguments are read or written depending on the command.
//! Resolving a candidate on disk (home directory, working directory, `PATH`)
//! and checking it against the sandbox configuration happen outside.  This is
//! diagnostic metadata only, not a shell parser.
use vstd::prelude::*;
use vstd::string::*;
use vstd::utf8::*;

use crate::bash_output::after_last_slash;
use crate::text::{
    ascii_cut, has_byte, has_byte_slice, is_ascii_digit, is_ascii_digit_byte, slice_eq,
    split_whitespace_vec, words,
};

verus! {

broadcast use vstd::seq::group_seq_axioms;

/// The filesystem operation a path word needed.
#[derive(Debug, Clone, Copy, PartialEq, Eq, Hash, Structural)]
pub enum SandboxPathOperation {
    Execute,
    Read,
    Write,
}

/// The label of an operation.
pub open spec fn operation_name(op: SandboxPathOperation) -> Seq<char> {
    match op {
        SandboxPathOperation::Execute => "execute"@,
        SandboxPathOperation::Read => "read"@,
        SandboxPathOperation::Write => "write"@,
    }
}

impl SandboxPathOperation {
    pub fn as_str(self) -> (r: &'static str)
        ensures
            r@ == operation_name(self),
    {
        match self {
            SandboxPathOperation::Execute => "execute",
            SandboxPathOperation::Read => "read",
            SandboxPathOperation::Write => "write",
        }
    }
}

/// A word of the command that may name a path.
#[derive(Debug, Clone, Copy)]
pub struct PathCandidate<'a> {
    /// The word, without surrounding quotes (or a redirection's target).
    pub token: &'a str,
    /// The word stands where a command is expected, so a bare name is
    /// looked up on `PATH`.
    pub command_position: bool,
    pub operation: SandboxPathOperation,
}

// =============================================================================
// Words
// =============================================================================

/// A shell quote byte: `"`, `'` or a backtick.
pub open spec fn is_quote(b: u8) -> bool {
    b == 0x22 || b == 0x27 || b == 0x60
}

/// The number of quote bytes at the start of `t`.
pub open spec fn leading_quotes(t: Seq<u8>, i: int) -> int
    decreases t.len() - i,
{
    if 0 <= i < t.len() && is_quote(t[i]) {
        leading_quotes(t, i + 1)
    } else {
        i
    }
}

/// The end of `t` before its trailing quote bytes, not going below `lo`.
pub open spec fn trailing_quotes(t: Seq<u8>, lo: int, j: int) -> int
    decreases j,
{
    if 0 <= lo < j <= t.len() && is_quote(t[j - 1]) {
        trailing_quotes(t, lo, j - 1)
    } else {
        j
    }
}

/// `str::trim_matches` with the shell quote characters: the word without
/// leading and trailing quotes.
pub open spec fn unquoted(t: Seq<u8>) -> Seq<u8> {
    let s = leading_quotes(t, 0);
    t.subrange(s, trailing_quotes(t, s, t.len() as int))
}

proof fn lemma_quote_bounds(t: Seq<u8>)
    ensures
        0 <= leading_quotes(t, 0) <= t.len(),
        leading_quotes(t, 0) <= trailing_quotes(t, leading_quotes(t, 0), t.len() as int) <= t.len(),
        leading_quotes(t, 0) == 0 || leading_quotes(t, 0) == t.len() || t[leading_quotes(t, 0)] < 0x80 || t[leading_quotes(t, 0) - 1] < 0x80,
        ({
            let e = trailing_quotes(t, leading_quotes(t, 0), t.len() as int);
            e == 0 || e == t.len() || t[e] < 0x80 || t[e - 1] < 0x80
        }),
{
    lemma_leading(t, 0);
    lemma_trailing(t, leading_quotes(t, 0), t.len() as int);
}

proof fn lemma_leading(t: Seq<u8>, i: int)
    requires
        0 <= i <= t.len(),
        i == 0 || is_quote(t[i - 1]),
    ensures
        i <= leading_quotes(t, i) <= t.len(),
        leading_quotes(t, i) == 0 || is_quote(t[leading_quotes(t, i) - 1]),
    decreases t.len() - i,
{
    if 0 <= i < t.len() && is_quote(t[i]) {
        lemma_leading(t, i + 1);
    }
}

proof fn lemma_trailing(t: Seq<u8>, lo: int, j: int)
    requires
        0 <= lo <= j <= t.len(),
        j == t.len() || is_quote(t[j]),
    ensures
        lo <= trailing_quotes(t, lo, j) <= j,
        trailing_quotes(t, lo, j) == t.len() || is_quote(t[trailing_quotes(t, lo, j)]),
    decreases j,
{
    if 0 <= lo < j <= t.len() && is_quote(t[j - 1]) {
        lemma_trailing(t, lo, j - 1);
    }
}

/// Remove surrounding shell quotes from a word.
pub fn strip_shell_quotes(token: &str) -> (r: &str)
    ensures
        r.spec_bytes() == unquoted(token.spec_bytes()),
{
    let b = token.as_bytes();
    let ghost t = b@;
    let mut s: usize = 0;
    while s < b.len() && (b[s] == 0x22 || b[s] == 0x27 || b[s] == 0x60)
        invariant
            s <= t.len(),
            b@ == t,
            leading_quotes(t, s as int) == leading_quotes(t, 0),
        decreases t.len() - s,
    {
        s += 1;
    }
    let mut e: usize = b.len();
    while e > s && (b[e - 1] == 0x22 || b[e - 1] == 0x27 || b[e - 1] == 0x60)
        invariant
            s <= e <= t.len(),
            b@ == t,
            s == leading_quotes(t, 0),
            trailing_quotes(t, s as int, e as int) == trailing_quotes(t, s as int, t.len() as int),
        decreases e,
    {
        e -= 1;
    }
    proof {
        lemma_quote_bounds(t);
    }
    ascii_cut(token, s, e)
}

/// The words that end one command and start another.
pub open spec fn separator_words() -> Seq<Seq<u8>> {
    seq![
        "|".spec_bytes(),
        "||".spec_bytes(),
        "&&".spec_bytes(),
        "&".spec_bytes(),
        ";".spec_bytes(),
        ";;".spec_bytes(),
        "(".spec_bytes(),
        ")".spec_bytes(),
        "{".spec_bytes(),
        "}".spec_bytes(),
        "then".spec_bytes(),
        "do".spec_bytes(),
        "else".spec_bytes(),
        "fi".spec_bytes(),
        "done".spec_bytes(),
    ]
}

/// The word ends one command and starts another.
pub open spec fn is_separator(t: Seq<u8>) -> bool {
    separator_words().contains(t)
}

fn in_list(t: &[u8], list: &[&str]) -> (r: bool)
    ensures
        r == list@.map_values(|s: &str| s.spec_bytes()).contains(t@),
{
    let ghost lb = list@.map_values(|s: &str| s.spec_bytes());
    let mut k: usize = 0;
    while k < list.len()
        invariant
            k <= list@.len(),
            lb == list@.map_values(|s: &str| s.spec_bytes()),
            forall|q: int| 0 <= q < k ==> #[trigger] lb[q] != t@,
        decreases list@.len() - k,
    {
        if slice_eq(t, list[k].as_bytes()) {
            assert(lb[k as int] == t@);
            return true;
        }
        k += 1;
    }
    false
}

/// Shell words that end one command and start another; the next bare word
/// is a command looked up on `PATH` rather than a file argument.
pub fn is_command_separator(token: &str) -> (r: bool)
    ensures
        r == is_separator(token.spec_bytes()),
{
    let list: [&str; 15] = ["|", "||", "&&", "&", ";", ";;", "(", ")", "{", "}", "then", "do", "else", "fi", "done"];
    assert(list@.map_values(|s: &str| s.spec_bytes()) =~= separator_words());
    in_list(token.as_bytes(), &list)
}

/// Words that never name paths: flags, expansions, operators,
/// redirections, assignments and test brackets.
pub open spec fn is_noise(t: Seq<u8>) -> bool {
    ||| (t.len() > 0 && (t[0] == 0x2d || t[0] == 0x24))
    ||| has_byte(t, 0x3e) || has_byte(t, 0x3c) || has_byte(t, 0x3d)
    ||| is_separator(t)
    ||| t == "!".spec_bytes() || t == "[".spec_bytes() || t == "]".spec_bytes()
}

pub fn is_shell_noise(token: &str) -> (r: bool)
    ensures
        r == is_noise(token.spec_bytes()),
{
    let b = token.as_bytes();
    if b.len() > 0 && (b[0] == 0x2d || b[0] == 0x24) {
        return true;
    }
    if has_byte_slice(b, 0x3e) || has_byte_slice(b, 0x3c) || has_byte_slice(b, 0x3d) {
        return true;
    }
    let brackets: [&str; 3] = ["!", "[", "]"];
    assert(brackets@.map_values(|s: &str| s.spec_bytes()) =~= seq![
        "!".spec_bytes(),
        "[".spec_bytes(),
        "]".spec_bytes(),
    ]);
    is_command_separator(token) || in_list(b, &brackets)
}

/// The target of a write redirection word: `>`, `>>`, `&>`, or a file
/// descriptor digits before `>` or `>>`; the target is the rest of the word
/// (empty when the next word is the target).  Redirections into a file
/// descriptor (`>&2`) are not file writes.
pub open spec fn redirection_target(t: Seq<u8>) -> Option<Seq<u8>> {
    match crate::text::first_occurrence(t, seq![0x3eu8]) {
        None => None,
        Some(idx) => {
            let prefix = t.subrange(0, idx);
            if !(prefix.len() == 0 || prefix == "&".spec_bytes() || (forall|k: int|
                0 <= k < prefix.len() ==> is_ascii_digit(#[trigger] prefix[k]))) {
                None
            } else {
                let rest = t.subrange(idx + 1, t.len() as int);
                let target = if rest.len() > 0 && rest[0] == 0x3e {
                    rest.subrange(1, rest.len() as int)
                } else {
                    rest
                };
                if target.len() > 0 && target[0] == 0x26 {
                    None
                } else {
                    Some(target)
                }
            }
        },
    }
}

pub fn write_redirection_target(token: &str) -> (r: Option<&str>)
    ensures
        match r {
            Some(x) => redirection_target(token.spec_bytes()) == Some(x.spec_bytes()),
            None => redirection_target(token.spec_bytes()) is None,
        },
{
    let b = token.as_bytes();
    let blen = b.len();
    let gt: [u8; 1] = [0x3e];
    assert(gt@ =~= seq![0x3eu8]);
    let index = match crate::text::find_bytes(b, &gt) {
        Some(i) => i,
        None => {
            return None;
        },
    };
    proof {
        crate::text::lemma_find_from_bounds(b@, gt@, 0);
    }
    let mut digits = true;
    let mut k: usize = 0;
    while k < index
        invariant
            k <= index < b@.len(),
            digits <==> forall|q: int| 0 <= q < k ==> is_ascii_digit(#[trigger] b@[q]),
        decreases index - k,
    {
        if !is_ascii_digit_byte(b[k]) {
            digits = false;
        }
        k += 1;
    }
    let ghost prefix = b@.subrange(0, index as int);
    assert(digits <==> forall|q: int| 0 <= q < prefix.len() ==> is_ascii_digit(#[trigger] prefix[q])) by {
        if digits {
            assert forall|q: int| 0 <= q < prefix.len() implies is_ascii_digit(#[trigger] prefix[q]) by {
                assert(prefix[q] == b@[q]);
            }
        } else {
            let q = choose|q: int| 0 <= q < index && !is_ascii_digit(#[trigger] b@[q]);
            assert(prefix[q] == b@[q]);
        }
    }
    let amp: [u8; 1] = [0x26];
    proof {
        reveal_strlit("&");
        assert(is_ascii("&"));
        crate::text::lemma_ascii_str_bytes("&");
        assert("&".spec_bytes() =~= amp@);
    }
    let prefix_is_amp = index == 1 && b[0] == 0x26;
    assert(prefix_is_amp <==> prefix == "&".spec_bytes()) by {
        if prefix_is_amp {
            assert(prefix =~= amp@);
        }
        if prefix == "&".spec_bytes() {
            assert(prefix.len() == 1);
            assert(prefix[0] == amp@[0]);
        }
    }
    if !(index == 0 || prefix_is_amp || digits) {
        return None;
    }
    let mut start = index + 1;
    if start < b.len() && b[start] == 0x3e {
        start = start + 1;
    }
    if start < b.len() && b[start] == 0x26 {
        return None;
    }
    Some(ascii_cut(token, start, b.len()))
}

/// How ordinary arguments of `command` are used: copy-like commands write
/// their last argument and read the others, modifying commands write all of
/// them, everything else reads.
pub open spec fn argument_operation(command: Seq<u8>, last_argument: bool) -> SandboxPathOperation {
    if command == "cp".spec_bytes() || command == "install".spec_bytes() || command == "ln".spec_bytes()
        || command == "mv".spec_bytes() {
        if last_argument {
            SandboxPathOperation::Write
        } else {
            SandboxPathOperation::Read
        }
    } else if writing_commands().contains(command) {
        SandboxPathOperation::Write
    } else {
        SandboxPathOperation::Read
    }
}

/// Commands that write to every argument.
pub open spec fn writing_commands() -> Seq<Seq<u8>> {
    seq![
        "chmod".spec_bytes(),
        "chown".spec_bytes(),
        "chgrp".spec_bytes(),
        "mkdir".spec_bytes(),
        "mkfifo".spec_bytes(),
        "mknod".spec_bytes(),
        "rm".spec_bytes(),
        "rmdir".spec_bytes(),
        "shred".spec_bytes(),
        "tee".spec_bytes(),
        "touch".spec_bytes(),
        "truncate".spec_bytes(),
        "unlink".spec_bytes(),
    ]
}

pub fn command_argument_operation(command: &str, last_argument: bool) -> (r: SandboxPathOperation)
    ensures
        r == argument_operation(command.spec_bytes(), last_argument),
{
    let copying: [&str; 4] = ["cp", "install", "ln", "mv"];
    let writing: [&str; 13] = [
        "chmod",
        "chown",
        "chgrp",
        "mkdir",
        "mkfifo",
        "mknod",
        "rm",
        "rmdir",
        "shred",
        "tee",
        "touch",
        "truncate",
        "unlink",
    ];
    let c = command.as_bytes();
    let ghost copy_list = copying@.map_values(|s: &str| s.spec_bytes());
    assert(copy_list =~= seq!["cp".spec_bytes(), "install".spec_bytes(), "ln".spec_bytes(), "mv".spec_bytes()]);
    assert(writing@.map_values(|s: &str| s.spec_bytes()) =~= writing_commands());
    let is_copy = in_list(c, &copying);
    assert(is_copy <==> (c@ == "cp".spec_bytes() || c@ == "install".spec_bytes() || c@ == "ln".spec_bytes()
        || c@ == "mv".spec_bytes())) by {
        if c@ == "cp".spec_bytes() {
            assert(copy_list[0] == c@);
        }
        if c@ == "install".spec_bytes() {
            assert(copy_list[1] == c@);
        }
        if c@ == "ln".spec_bytes() {
            assert(copy_list[2] == c@);
        }
        if c@ == "mv".spec_bytes() {
            assert(copy_list[3] == c@);
        }
    }
    if is_copy {
        if last_argument {
            SandboxPathOperation::Write
        } else {
            SandboxPathOperation::Read
        }
    } else if in_list(c, &writing) {
        SandboxPathOperation::Write
    } else {
        SandboxPathOperation::Read
    }
}

/// The name a command word runs, for argument inference: the part after
/// its last `/`.
pub fn command_name(token: &str) -> (r: &str)
    ensures
        r.spec_bytes() == after_last_slash(token.spec_bytes()),
{
    let b = token.as_bytes();
    let len = b.len();
    let mut start = len;
    assert(b@.subrange(0, len as int) =~= b@);
    assert(b@.subrange(len as int, len as int) =~= Seq::<u8>::empty());
    while start > 0 && b[start - 1] != 0x2f
        invariant
            start <= len,
            len == b@.len(),
            after_last_slash(b@) == after_last_slash(b@.subrange(0, start as int)) + b@.subrange(
                start as int,
                len as int,
            ),
        decreases start,
    {
        let ghost pre = b@.subrange(0, start as int);
        assert(pre.drop_last() =~= b@.subrange(0, start - 1));
        assert(b@.subrange(start - 1, len as int) =~= seq![pre.last()] + b@.subrange(start as int, len as int));
        start -= 1;
    }
    proof {
        if start > 0 {
            assert(after_last_slash(b@.subrange(0, start as int)) =~= Seq::<u8>::empty());
        } else {
            assert(after_last_slash(b@.subrange(0, 0)) =~= Seq::<u8>::empty());
        }
    }
    ascii_cut(token, start, len)
}

// =============================================================================
// The scan
// =============================================================================

/// A path candidate as values: the word's bytes, whether it stood where a
/// command is expected, and the operation it needed.
pub struct CandidateModel {
    pub token: Seq<u8>,
    pub command_position: bool,
    pub operation: SandboxPathOperation,
}

impl<'a> PathCandidate<'a> {
    pub open spec fn model(self) -> CandidateModel {
        CandidateModel {
            token: self.token.spec_bytes(),
            command_position: self.command_position,
            operation: self.operation,
        }
    }
}

/// The scan's position in the command: whether a command word is expected
/// next, the name of the current command, and an operation owed to the next
/// word (the target of a detached `>`).
pub struct ScanModel {
    pub expect_command: bool,
    pub current_command: Seq<u8>,
    pub pending: Option<SandboxPathOperation>,
}

/// The state at the start of a command.
pub open spec fn command_start() -> ScanModel {
    ScanModel { expect_command: true, current_command: Seq::empty(), pending: None }
}

/// One word of the scan: the next state and the candidate the word gives.
pub open spec fn scan_step(raw: Seq<u8>, st: ScanModel, last_argument: bool) -> (ScanModel, Option<CandidateModel>) {
    let token = unquoted(raw);
    if token.len() == 0 {
        (st, None)
    } else {
        match redirection_target(token) {
            Some(target) => {
                if target.len() == 0 {
                    (ScanModel { pending: Some(SandboxPathOperation::Write), ..st }, None)
                } else {
                    (st, Some(CandidateModel { token: target, command_position: false, operation: SandboxPathOperation::Write }))
                }
            },
            None => {
                if is_separator(token) {
                    (command_start(), None)
                } else if is_noise(token) {
                    (st, None)
                } else {
                    let operation = match st.pending {
                        Some(op) => op,
                        None => if st.expect_command {
                            SandboxPathOperation::Execute
                        } else {
                            argument_operation(st.current_command, last_argument)
                        },
                    };
                    let next = if st.expect_command {
                        ScanModel { expect_command: false, current_command: after_last_slash(token), pending: None }
                    } else {
                        ScanModel { pending: None, ..st }
                    };
                    (next, Some(CandidateModel { token, command_position: st.expect_command, operation }))
                }
            },
        }
    }
}

/// No word of `toks` from `j` on is an ordinary argument of the current
/// command; `skip` says the word at `j` is a redirection's target.
pub open spec fn no_later_argument(toks: Seq<Seq<u8>>, j: int, skip: bool) -> bool
    decreases toks.len() - j,
{
    if j < 0 || j >= toks.len() {
        true
    } else if skip {
        no_later_argument(toks, j + 1, false)
    } else {
        let t = unquoted(toks[j]);
        match redirection_target(t) {
            Some(target) => no_later_argument(toks, j + 1, target.len() == 0),
            None => if is_separator(t) {
                true
            } else if is_noise(t) {
                no_later_argument(toks, j + 1, false)
            } else {
                false
            },
        }
    }
}

/// The word at `index` is the last ordinary argument of its command.
pub open spec fn is_last_argument(toks: Seq<Seq<u8>>, index: int) -> bool {
    no_later_argument(toks, index + 1, false)
}

/// The state and the candidates after the first `n` words.
pub open spec fn scan_prefix(toks: Seq<Seq<u8>>, n: nat) -> (ScanModel, Seq<CandidateModel>)
    decreases n,
{
    if n == 0 {
        (command_start(), Seq::empty())
    } else {
        let (st, out) = scan_prefix(toks, (n - 1) as nat);
        let (next, c) = scan_step(toks[n - 1], st, is_last_argument(toks, n - 1));
        match c {
            Some(x) => (next, out.push(x)),
            None => (next, out),
        }
    }
}

/// The words of a command, as bytes.
pub open spec fn word_bytes(command: Seq<char>) -> Seq<Seq<u8>> {
    words(command).map_values(|w: Seq<char>| encode_utf8(w))
}

/// The path candidates of a whole command.
pub open spec fn command_candidates(command: Seq<char>) -> Seq<CandidateModel> {
    scan_prefix(word_bytes(command), word_bytes(command).len()).1
}

/// A word where a command is expected, with no write redirection owed to
/// it, is a candidate in command position that needed execution.
pub proof fn lemma_command_word_is_executed(raw: Seq<u8>, last_argument: bool)
    requires
        unquoted(raw).len() > 0,
        redirection_target(unquoted(raw)) is None,
        !is_noise(unquoted(raw)),
    ensures
        scan_step(raw, command_start(), last_argument).1 == Some(
            CandidateModel {
                token: unquoted(raw),
                command_position: true,
                operation: SandboxPathOperation::Execute,
            },
        ),
        !scan_step(raw, command_start(), last_argument).0.expect_command,
{
}

/// Once a command word was seen, the words after it (until a separator)
/// are never looked up as commands: an argument named like an executable is
/// still a file.
pub proof fn lemma_arguments_are_not_commands(raw: Seq<u8>, st: ScanModel, last_argument: bool)
    requires
        !st.expect_command,
    ensures
        scan_step(raw, st, last_argument).1 matches Some(c) ==> !c.command_position,
{
}

/// A write redirection never names a command: its attached target is a
/// write candidate, and a detached one makes the next word a write.
pub proof fn lemma_redirection_targets_are_writes(raw: Seq<u8>, st: ScanModel, last_argument: bool)
    requires
        unquoted(raw).len() > 0,
        redirection_target(unquoted(raw)) is Some,
    ensures
        scan_step(raw, st, last_argument).1 matches Some(c) ==> c.operation == SandboxPathOperation::Write
            && !c.command_position && redirection_target(unquoted(raw)) == Some(c.token),
        scan_step(raw, st, last_argument).1 is None ==> scan_step(raw, st, last_argument).0.pending == Some(
            SandboxPathOperation::Write,
        ),
{
}

/// A command separator forgets the current command: the next word is looked
/// up as a command again.
pub proof fn lemma_separator_starts_a_command(raw: Seq<u8>, st: ScanModel, last_argument: bool)
    requires
        unquoted(raw).len() > 0,
        redirection_target(unquoted(raw)) is None,
        is_separator(unquoted(raw)),
    ensures
        scan_step(raw, st, last_argument) == (command_start(), None::<CandidateModel>),
{
}

/// The spellings of the command names the laws below speak of.
proof fn lemma_command_name_bytes()
    ensures
        "chmod".spec_bytes().len() == 5, "chmod".spec_bytes()[0] == 99u8,
        "chown".spec_bytes().len() == 5, "chown".spec_bytes()[0] == 99u8,
        "chgrp".spec_bytes().len() == 5, "chgrp".spec_bytes()[0] == 99u8,
        "mkdir".spec_bytes().len() == 5, "mkdir".spec_bytes()[0] == 109u8,
        "mkfifo".spec_bytes().len() == 6, "mkfifo".spec_bytes()[0] == 109u8,
        "mknod".spec_bytes().len() == 5, "mknod".spec_bytes()[0] == 109u8,
        "rm".spec_bytes().len() == 2, "rm".spec_bytes()[0] == 114u8,
        "rmdir".spec_bytes().len() == 5, "rmdir".spec_bytes()[0] == 114u8,
        "shred".spec_bytes().len() == 5, "shred".spec_bytes()[0] == 115u8,
        "tee".spec_bytes().len() == 3, "tee".spec_bytes()[0] == 116u8,
        "touch".spec_bytes().len() == 5, "touch".spec_bytes()[0] == 116u8,
        "truncate".spec_bytes().len() == 8, "truncate".spec_bytes()[0] == 116u8,
        "unlink".spec_bytes().len() == 6, "unlink".spec_bytes()[0] == 117u8,
        "cp".spec_bytes().len() == 2, "cp".spec_bytes()[0] == 99u8,
        "install".spec_bytes().len() == 7, "install".spec_bytes()[0] == 105u8,
        "ln".spec_bytes().len() == 2, "ln".spec_bytes()[0] == 108u8,
        "mv".spec_bytes().len() == 2, "mv".spec_bytes()[0] == 109u8,
        "cp".spec_bytes()[1] == 112u8,
        "ln".spec_bytes()[1] == 110u8,
        "mv".spec_bytes()[1] == 118u8,
        "rm".spec_bytes()[1] == 109u8,
{
    reveal_strlit("chmod");
    assert(is_ascii("chmod"));
    crate::text::lemma_ascii_str_bytes("chmod");
    reveal_strlit("chown");
    assert(is_ascii("chown"));
    crate::text::lemma_ascii_str_bytes("chown");
    reveal_strlit("chgrp");
    assert(is_ascii("chgrp"));
    crate::text::lemma_ascii_str_bytes("chgrp");
    reveal_strlit("mkdir");
    assert(is_ascii("mkdir"));
    crate::text::lemma_ascii_str_bytes("mkdir");
    reveal_strlit("mkfifo");
    assert(is_ascii("mkfifo"));
    crate::text::lemma_ascii_str_bytes("mkfifo");
    reveal_strlit("mknod");
    assert(is_ascii("mknod"));
    crate::text::lemma_ascii_str_bytes("mknod");
    reveal_strlit("rm");
    assert(is_ascii("rm"));
    crate::text::lemma_ascii_str_bytes("rm");
    reveal_strlit("rmdir");
    assert(is_ascii("rmdir"));
    crate::text::lemma_ascii_str_bytes("rmdir");
    reveal_strlit("shred");
    assert(is_ascii("shred"));
    crate::text::lemma_ascii_str_bytes("shred");
    reveal_strlit("tee");
    assert(is_ascii("tee"));
    crate::text::lemma_ascii_str_bytes("tee");
    reveal_strlit("touch");
    assert(is_ascii("touch"));
    crate::text::lemma_ascii_str_bytes("touch");
    reveal_strlit("truncate");
    assert(is_ascii("truncate"));
    crate::text::lemma_ascii_str_bytes("truncate");
    reveal_strlit("unlink");
    assert(is_ascii("unlink"));
    crate::text::lemma_ascii_str_bytes("unlink");
    reveal_strlit("cp");
    assert(is_ascii("cp"));
    crate::text::lemma_ascii_str_bytes("cp");
    reveal_strlit("install");
    assert(is_ascii("install"));
    crate::text::lemma_ascii_str_bytes("install");
    reveal_strlit("ln");
    assert(is_ascii("ln"));
    crate::text::lemma_ascii_str_bytes("ln");
    reveal_strlit("mv");
    assert(is_ascii("mv"));
    crate::text::lemma_ascii_str_bytes("mv");
}

/// The commands that change the files they are given (`chmod`, `chown`,
/// `chgrp`, `mkdir`, `mkfifo`, `mknod`, `rm`, `rmdir`, `shred`, `tee`,
/// `touch`, `truncate`, `unlink`) need write access to every ordinary
/// argument, the last one or not.
pub proof fn lemma_modifying_commands_write_every_argument(command: Seq<u8>, last_argument: bool)
    requires
        command == "chmod".spec_bytes() ||
        command == "chown".spec_bytes() ||
        command == "chgrp".spec_bytes() ||
        command == "mkdir".spec_bytes() ||
        command == "mkfifo".spec_bytes() ||
        command == "mknod".spec_bytes() ||
        command == "rm".spec_bytes() ||
        command == "rmdir".spec_bytes() ||
        command == "shred".spec_bytes() ||
        command == "tee".spec_bytes() ||
        command == "touch".spec_bytes() ||
        command == "truncate".spec_bytes() ||
        command == "unlink".spec_bytes(),
    ensures
        argument_operation(command, last_argument) == SandboxPathOperation::Write,
{
    lemma_command_name_bytes();
    let w = writing_commands();
    if command == "chmod".spec_bytes() { assert(w[0] == command); }
    if command == "chown".spec_bytes() { assert(w[1] == command); }
    if command == "chgrp".spec_bytes() { assert(w[2] == command); }
    if command == "mkdir".spec_bytes() { assert(w[3] == command); }
    if command == "mkfifo".spec_bytes() { assert(w[4] == command); }
    if command == "mknod".spec_bytes() { assert(w[5] == command); }
    if command == "rm".spec_bytes() { assert(w[6] == command); }
    if command == "rmdir".spec_bytes() { assert(w[7] == command); }
    if command == "shred".spec_bytes() { assert(w[8] == command); }
    if command == "tee".spec_bytes() { assert(w[9] == command); }
    if command == "touch".spec_bytes() { assert(w[10] == command); }
    if command == "truncate".spec_bytes() { assert(w[11] == command); }
    if command == "unlink".spec_bytes() { assert(w[12] == command); }
}

/// The copying commands (`cp`, `install`, `ln`, `mv`) write their last
/// argument and read the others.
pub proof fn lemma_copying_commands_write_the_destination(command: Seq<u8>, last_argument: bool)
    requires
        command == "cp".spec_bytes() || command == "install".spec_bytes() || command == "ln".spec_bytes()
            || command == "mv".spec_bytes(),
    ensures
        argument_operation(command, last_argument) == if last_argument {
            SandboxPathOperation::Write
        } else {
            SandboxPathOperation::Read
        },
{
}

/// In a scan, an ordinary argument (no redirection, separator or noise
/// word) of a modifying command, with no redirection pending, is a path that
/// needed write access, named as written and not looked up as a command.
pub proof fn lemma_modifying_command_arguments_are_writes(raw: Seq<u8>, st: ScanModel, last_argument: bool)
    requires
        !st.expect_command,
        st.pending is None,
        st.current_command == "chmod".spec_bytes() ||
        st.current_command == "chown".spec_bytes() ||
        st.current_command == "chgrp".spec_bytes() ||
        st.current_command == "mkdir".spec_bytes() ||
        st.current_command == "mkfifo".spec_bytes() ||
        st.current_command == "mknod".spec_bytes() ||
        st.current_command == "rm".spec_bytes() ||
        st.current_command == "rmdir".spec_bytes() ||
        st.current_command == "shred".spec_bytes() ||
        st.current_command == "tee".spec_bytes() ||
        st.current_command == "touch".spec_bytes() ||
        st.current_command == "truncate".spec_bytes() ||
        st.current_command == "unlink".spec_bytes(),
        unquoted(raw).len() > 0,
        redirection_target(unquoted(raw)) is None,
        !is_separator(unquoted(raw)),
        !is_noise(unquoted(raw)),
    ensures
        scan_step(raw, st, last_argument).1 == Some(
            CandidateModel {
                token: unquoted(raw),
                command_position: false,
                operation: SandboxPathOperation::Write,
            },
        ),
{
    lemma_modifying_commands_write_every_argument(st.current_command, last_argument);
}

/// The scan's state over one command line.
pub struct SandboxScanState<'a> {
    pub expect_command: bool,
    pub current_command: &'a str,
    pub pending_operation: Option<SandboxPathOperation>,
}

impl<'a> SandboxScanState<'a> {
    pub open spec fn model(self) -> ScanModel {
        ScanModel {
            expect_command: self.expect_command,
            current_command: self.current_command.spec_bytes(),
            pending: self.pending_operation,
        }
    }

    pub fn new() -> (r: Self)
        ensures
            r.model() == command_start(),
    {
        let r = SandboxScanState { expect_command: true, current_command: "", pending_operation: None };
        proof {
            reveal_strlit("");
        }
        r
    }

    pub fn reset_command(&mut self)
        ensures
            final(self).model() == command_start(),
    {
        self.expect_command = true;
        self.current_command = "";
        self.pending_operation = None;
        proof {
            reveal_strlit("");
        }
    }
}

/// A write redirection: a detached `>` makes the next word its target; an
/// attached target is a candidate at once.
pub fn scan_write_redirection<'a>(target: &'a str, state: &mut SandboxScanState<'a>) -> (r: Option<PathCandidate<'a>>)
    ensures
        target.spec_bytes().len() == 0 ==> final(state).model() == (ScanModel {
            pending: Some(SandboxPathOperation::Write),
            ..old(state).model()
        }) && r is None,
        target.spec_bytes().len() > 0 ==> *final(state) == *old(state) && r == Some(PathCandidate {
            token: target,
            command_position: false,
            operation: SandboxPathOperation::Write,
        }),
{
    if target.as_bytes().len() == 0 {
        state.pending_operation = Some(SandboxPathOperation::Write);
        return None;
    }
    Some(PathCandidate { token: target, command_position: false, operation: SandboxPathOperation::Write })
}

/// Scan one word of a failed command: update the state and give the word as
/// a path candidate when it may name one.
pub fn scan_sandbox_token<'a>(raw: &'a str, state: &mut SandboxScanState<'a>, last_argument: bool) -> (r: Option<
    PathCandidate<'a>,
>)
    ensures
        (final(state).model(), match r {
            Some(c) => Some(c.model()),
            None => None,
        }) == scan_step(raw.spec_bytes(), old(state).model(), last_argument),
{
    let token = strip_shell_quotes(raw);
    if token.as_bytes().len() == 0 {
        return None;
    }
    match write_redirection_target(token) {
        Some(target) => {
            return scan_write_redirection(target, state);
        },
        None => {},
    }
    if is_command_separator(token) {
        state.reset_command();
        return None;
    }
    if is_shell_noise(token) {
        return None;
    }
    let was_command = state.expect_command;
    let pending = state.pending_operation;
    state.pending_operation = None;
    let operation = match pending {
        Some(op) => op,
        None => if was_command {
            SandboxPathOperation::Execute
        } else {
            command_argument_operation(state.current_command, last_argument)
        },
    };
    if was_command {
        state.current_command = command_name(token);
        state.expect_command = false;
    }
    Some(PathCandidate { token, command_position: was_command, operation })
}

/// Whether no later word of its command is an ordinary argument, so that the
/// word at `index` is the last one.  Redirections and their targets are
/// skipped: they are written on their own account.
pub fn is_last_command_argument(tokens: &[&str], index: usize) -> (r: bool)
    ensures
        r == is_last_argument(tokens@.map_values(|s: &str| s.spec_bytes()), index as int),
{
    let ghost toks = tokens@.map_values(|s: &str| s.spec_bytes());
    if index >= tokens.len() {
        return true;
    }
    let mut skip = false;
    let mut j: usize = index + 1;
    while j < tokens.len()
        invariant
            index < j <= tokens@.len(),
            toks == tokens@.map_values(|s: &str| s.spec_bytes()),
            no_later_argument(toks, j as int, skip) == is_last_argument(toks, index as int),
        decreases tokens@.len() - j,
    {
        let token = strip_shell_quotes(tokens[j]);
        assert(toks[j as int] == tokens@[j as int].spec_bytes());
        if skip {
            skip = false;
        } else {
            match write_redirection_target(token) {
                Some(target) => {
                    skip = target.as_bytes().len() == 0;
                },
                None => {
                    if is_command_separator(token) {
                        return true;
                    }
                    if !is_shell_noise(token) {
                        return false;
                    }
                },
            }
        }
        j += 1;
    }
    true
}

/// The words of a failed sandboxed command that may name paths, each with
/// the operation the command likely needed, in order.  A bare word in
/// command position is an executable looked up on `PATH`; other words are
/// files relative to the working directory.
pub fn sandbox_path_candidates(command: &str) -> (r: Vec<PathCandidate<'_>>)
    ensures
        r@.map_values(|c: PathCandidate| c.model()) == command_candidates(command@),
{
    let tokens = split_whitespace_vec(command);
    let ghost toks = tokens@.map_values(|s: &str| s.spec_bytes());
    assert(toks =~= word_bytes(command@)) by {
        assert forall|i: int| 0 <= i < toks.len() implies toks[i] == word_bytes(command@)[i] by {
            assert(crate::text::views_of(tokens@)[i] == tokens@[i]@);
        }
    }
    let mut state = SandboxScanState::new();
    let mut out: Vec<PathCandidate> = Vec::new();
    let mut index: usize = 0;
    while index < tokens.len()
        invariant
            index <= tokens@.len(),
            toks == tokens@.map_values(|s: &str| s.spec_bytes()),
            (state.model(), out@.map_values(|c: PathCandidate| c.model())) == scan_prefix(toks, index as nat),
        decreases tokens@.len() - index,
    {
        let last = is_last_command_argument(tokens.as_slice(), index);
        let ghost before = out@;
        let found = scan_sandbox_token(tokens[index], &mut state, last);
        match found {
            Some(c) => {
                out.push(c);
                assert(out@.map_values(|c: PathCandidate| c.model()) =~= before.map_values(
                    |c: PathCandidate| c.model(),
                ).push(c.model()));
            },
            None => {},
        }
        index += 1;
    }
    out
}

// =============================================================================
// Where a candidate lives
// =============================================================================

/// How a candidate word names a path: under the home directory (`~/rest`),
/// the home directory itself, an absolute path, a path relative to the
/// working directory, or a bare word (an executable on `PATH` in command
/// position, else a file in the working directory).
#[derive(Debug, Clone, Copy, PartialEq, Eq)]
pub enum PathLocation<'a> {
    InHome(&'a str),
    Home,
    Absolute,
    Relative,
    Bare,
}

/// The location a word names, as values.
pub enum LocationModel {
    InHome(Seq<u8>),
    Home,
    Absolute,
    Relative,
    Bare,
}

pub open spec fn location_of(t: Seq<u8>) -> LocationModel {
    if t.len() >= 2 && t[0] == 0x7e && t[1] == 0x2f {
        LocationModel::InHome(t.subrange(2, t.len() as int))
    } else if t == seq![0x7eu8] {
        LocationModel::Home
    } else if t.len() > 0 && t[0] == 0x2f {
        LocationModel::Absolute
    } else if has_byte(t, 0x2f) {
        LocationModel::Relative
    } else {
        LocationModel::Bare
    }
}

impl<'a> PathLocation<'a> {
    pub open spec fn model(self) -> LocationModel {
        match self {
            PathLocation::InHome(rest) => LocationModel::InHome(rest.spec_bytes()),
            PathLocation::Home => LocationModel::Home,
            PathLocation::Absolute => LocationModel::Absolute,
            PathLocation::Relative => LocationModel::Relative,
            PathLocation::Bare => LocationModel::Bare,
        }
    }
}

/// Classify a candidate word by where the path it names lives; the caller
/// joins it to the home or working directory and checks that it exists.
pub fn path_location(token: &str) -> (r: PathLocation<'_>)
    ensures
        r.model() == location_of(token.spec_bytes()),
{
    let b = token.as_bytes();
    let len = b.len();
    if len >= 2 && b[0] == 0x7e && b[1] == 0x2f {
        return PathLocation::InHome(ascii_cut(token, 2, len));
    }
    if len == 1 && b[0] == 0x7e {
        assert(b@ =~= seq![0x7eu8]);
        return PathLocation::Home;
    }
    if len > 0 && b[0] == 0x2f {
        return PathLocation::Absolute;
    }
    if has_byte_slice(b, 0x2f) {
        return PathLocation::Relative;
    }
    PathLocation::Bare
}

// =============================================================================
// Reporting
// =============================================================================

/// A denied path as a bullet line naming the operation.
pub open spec fn path_ref_line(path: Seq<char>, op: SandboxPathOperation) -> Seq<char> {
    "  - "@ + path + " ("@ + operation_name(op) + ")"@
}

/// A denied path as a completion-audit permission label.
pub open spec fn path_permission_label(path: Seq<char>, op: SandboxPathOperation) -> Seq<char> {
    "sandbox: "@ + operation_name(op) + " "@ + path
}

pub fn format_path_ref(path: &str, operation: SandboxPathOperation) -> (r: String)
    ensures
        r@ == path_ref_line(path@, operation),
{
    let mut s = <String as StringExecFns>::from_str("  - ");
    s.append(path);
    s.append(" (");
    s.append(operation.as_str());
    s.append(")");
    s
}

pub fn permission_label(path: &str, operation: SandboxPathOperation) -> (r: String)
    ensures
        r@ == path_permission_label(path@, operation),
{
    let mut s = <String as StringExecFns>::from_str("sandbox: ");
    s.append(operation.as_str());
    s.append(" ");
    s.append(path);
    s
}

/// Whether a resolved reference names a missing grant: a write needs the
/// path to be writable, a read or an execution needs it to be allowed.
pub fn is_denied(operation: SandboxPathOperation, allowed: bool, writable: bool) -> (r: bool)
    ensures
        r == (if operation == SandboxPathOperation::Write {
            !writable
        } else {
            !allowed
        }),
{
    match operation {
        SandboxPathOperation::Write => !writable,
        SandboxPathOperation::Execute | SandboxPathOperation::Read => !allowed,
    }
}

/// The entry at `i` is the first with its path and operation.
pub open spec fn first_of_kind(refs: Seq<(Seq<u8>, SandboxPathOperation)>, i: int) -> bool {
    forall|j: int| 0 <= j < i ==> #[trigger] refs[j] != refs[i]
}

/// The positions of the entries that come first with their path and
/// operation, in order, among the first `n`.
pub open spec fn first_positions(refs: Seq<(Seq<u8>, SandboxPathOperation)>, n: nat) -> Seq<int>
    decreases n,
{
    if n == 0 {
        Seq::empty()
    } else if first_of_kind(refs, n - 1) {
        first_positions(refs, (n - 1) as nat).push(n - 1)
    } else {
        first_positions(refs, (n - 1) as nat)
    }
}

/// The positions of the resolved references to keep: each path and
/// operation once, at its first occurrence.
pub fn distinct_path_refs(refs: &[(Vec<u8>, SandboxPathOperation)]) -> (r: Vec<usize>)
    ensures
        r@.map_values(|i: usize| i as int) == first_positions(
            refs@.map_values(|e: (Vec<u8>, SandboxPathOperation)| (e.0@, e.1)),
            refs@.len(),
        ),
{
    let ghost keys = refs@.map_values(|e: (Vec<u8>, SandboxPathOperation)| (e.0@, e.1));
    let mut kept: Vec<usize> = Vec::new();
    let mut i: usize = 0;
    while i < refs.len()
        invariant
            i <= refs@.len(),
            keys == refs@.map_values(|e: (Vec<u8>, SandboxPathOperation)| (e.0@, e.1)),
            kept@.map_values(|k: usize| k as int) == first_positions(keys, i as nat),
        decreases refs@.len() - i,
    {
        let mut first = true;
        let mut j: usize = 0;
        while j < i
            invariant
                j <= i < refs@.len(),
                keys == refs@.map_values(|e: (Vec<u8>, SandboxPathOperation)| (e.0@, e.1)),
                first <==> forall|q: int| 0 <= q < j ==> #[trigger] keys[q] != keys[i as int],
            decreases i - j,
        {
            let same = refs[j].1 == refs[i].1 && slice_eq(refs[j].0.as_slice(), refs[i].0.as_slice());
            assert(same <==> keys[j as int] == keys[i as int]);
            if same {
                first = false;
            }
            j += 1;
        }
        let ghost before = kept@;
        if first {
            kept.push(i);
            assert(kept@.map_values(|k: usize| k as int) =~= before.map_values(|k: usize| k as int).push(i as int));
        }
        i += 1;
    }
    kept
}

} // verus!
