//! Duplicate mutation guard for tool execution.
//!
//! Within a single assistant turn, the model may issue several tool calls.
//! This guard lets only the first mutation of a given file through and
//! rejects the later ones with a message, so that the model re-reads the file
//! and issues one follow-up mutation.
//!
//! The guard decides on plain values: each call comes with the file it would
//! mutate, when it is an executing mutation whose target could be resolved
//! (as a canonical path), and with whatever plan the hook stage produced for
//! it, which is passed through untouched.  Targets are compared as paths, by
//! their components, so `/w//a.rs` and `/w/a.rs` are the same file.
use vstd::prelude::*;
use vstd::string::*;
use vstd::utf8::*;

use crate::text::slice_eq;

verus! {

broadcast use vstd::seq::group_seq_axioms;

/// The resolved plan for a single tool call within an assistant turn.
#[derive(Debug)]
pub enum ScheduledToolPlan<P> {
    /// Pass through to normal hook processing (execute or block).
    Hook(P),
    /// The tool call was rejected because a mutation for the same file was
    /// already scheduled in this turn.
    RejectedDuplicateMutation { output: String },
}

/// The file that a call would mutate, as compared: its normalized path.
pub open spec fn target_key<P>(call: (String, String, P, Option<String>)) -> Option<Seq<char>> {
    match call.3 {
        Some(p) => Some(normalized_path(p@)),
        None => None,
    }
}

/// The file that a call would mutate, as characters.
pub open spec fn target_of<P>(call: (String, String, P, Option<String>)) -> Option<Seq<char>> {
    match call.3 {
        Some(p) => Some(p@),
        None => None,
    }
}

/// The text of a path as `std::path::Path` compares it on Unix, by its
/// components: repeated slashes, `.` parts other than a leading one, and a
/// trailing slash dropped; a leading `/` kept as the root.  Two paths are
/// equal as `PathBuf`s exactly when these texts are equal, since a component
/// holds no slash.
pub open spec fn normalized_path(p: Seq<char>) -> Seq<char> {
    normalized_from(p, 0, seq![], seq![], true)
}

/// `out` with the part `cur` added: the first part opens the path (an empty
/// one is the root, unless the path ends there), a later one is dropped when
/// empty or `.` and otherwise joined with a slash.
pub open spec fn with_part(out: Seq<char>, cur: Seq<char>, first: bool, at_end: bool) -> Seq<char> {
    if first {
        if cur.len() == 0 {
            if at_end {
                out
            } else {
                seq!['/']
            }
        } else {
            cur
        }
    } else if cur.len() == 0 || cur == seq!['.'] {
        out
    } else if out == seq!['/'] {
        out + cur
    } else {
        out + seq!['/'] + cur
    }
}

/// The normalized text of `p` from character `i` on, with the text `out`
/// so far and the part `cur` being read.
pub open spec fn normalized_from(p: Seq<char>, i: int, out: Seq<char>, cur: Seq<char>, first: bool) -> Seq<char>
    decreases p.len() - i,
{
    if i < 0 || i >= p.len() {
        with_part(out, cur, first, true)
    } else if p[i] == '/' {
        normalized_from(p, i + 1, with_part(out, cur, first, false), seq![], false)
    } else {
        normalized_from(p, i + 1, out, cur.push(p[i]), first)
    }
}

fn push_part(out: Vec<char>, cur: &Vec<char>, first: bool, at_end: bool) -> (r: Vec<char>)
    ensures
        r@ == with_part(out@, cur@, first, at_end),
{
    if first {
        if cur.len() == 0 {
            if at_end {
                out
            } else {
                let mut r: Vec<char> = Vec::new();
                r.push('/');
                assert(r@ =~= seq!['/']);
                r
            }
        } else {
            cur.clone()
        }
    } else if cur.len() == 0 || (cur.len() == 1 && cur[0] == '.') {
        assert(cur.len() == 1 && cur[0] == '.' ==> cur@ =~= seq!['.']);
        out
    } else {
        let mut r = out;
        let root = r.len() == 1 && r[0] == '/';
        assert(root <==> r@ == seq!['/']) by {
            if r@ == seq!['/'] {
                assert(r@[0] == '/');
            }
            if root {
                assert(r@ =~= seq!['/']);
            }
        }
        if !root {
            r.push('/');
        }
        let ghost mid = r@;
        let mut k: usize = 0;
        while k < cur.len()
            invariant
                k <= cur@.len(),
                r@ == mid + cur@.subrange(0, k as int),
            decreases cur@.len() - k,
        {
            r.push(cur[k]);
            k += 1;
            assert(r@ =~= mid + cur@.subrange(0, k as int));
        }
        assert(cur@.subrange(0, cur@.len() as int) =~= cur@);
        r
    }
}

/// The normalized text of a path (see `normalized_path`).
pub fn normalize_path(p: &str) -> (r: String)
    ensures
        r@ == normalized_path(p@),
{
    let cs = crate::bash_output::str_chars(p);
    let mut out: Vec<char> = Vec::new();
    let mut cur: Vec<char> = Vec::new();
    let mut first = true;
    let mut i: usize = 0;
    while i < cs.len()
        invariant
            cs@ == p@,
            i <= cs@.len(),
            normalized_from(p@, i as int, out@, cur@, first) == normalized_path(p@),
        decreases cs@.len() - i,
    {
        if cs[i] == '/' {
            out = push_part(out, &cur, first, false);
            cur = Vec::new();
            first = false;
            assert(cur@ =~= Seq::<char>::empty());
        } else {
            cur.push(cs[i]);
        }
        i += 1;
    }
    let out = push_part(out, &cur, first, true);
    crate::text::string_from_chars(out.as_slice())
}

/// The tool name that claimed `path` first, among the claims so far.
pub open spec fn claimant(claims: Seq<(Seq<char>, Seq<char>)>, path: Seq<char>) -> Option<Seq<char>>
    decreases claims.len(),
{
    if claims.len() == 0 {
        None
    } else if claims[0].0 == path {
        Some(claims[0].1)
    } else {
        claimant(claims.drop_first(), path)
    }
}

/// The `(normalized path, tool name)` claims made by the first `i` calls: a
/// call claims its target when nobody has claimed it yet.
pub open spec fn claims_before<P>(calls: Seq<(String, String, P, Option<String>)>, i: int) -> Seq<
    (Seq<char>, Seq<char>),
>
    decreases i,
{
    if i <= 0 {
        seq![]
    } else {
        let earlier = claims_before(calls, i - 1);
        match target_key(calls[i - 1]) {
            Some(p) => if claimant(earlier, p) is None {
                earlier.push((p, calls[i - 1].1@))
            } else {
                earlier
            },
            None => earlier,
        }
    }
}

/// The message for a call of `tool_name` rejected because a call of
/// `first_tool_name` already mutates `path`.
pub open spec fn rejection_text(tool_name: Seq<char>, first_tool_name: Seq<char>, path: Seq<char>) -> Seq<
    char,
> {
    "Error: Rejected this "@ + tool_name + " call because another "@ + first_tool_name
        + " call for the same file was already issued in this assistant turn: "@ + path
        + ". Wait for the previous tool result, re-read the file, and then issue one follow-up Edit or Write call if more changes are needed."@
}

/// What the guard schedules for call `i`.
pub open spec fn scheduled<P>(calls: Seq<(String, String, P, Option<String>)>, i: int, s: ScheduledToolPlan<P>) -> bool {
    match target_of(calls[i]) {
        Some(p) => match claimant(claims_before(calls, i), normalized_path(p)) {
            Some(first) => (s matches ScheduledToolPlan::RejectedDuplicateMutation { output } && output@
                == rejection_text(calls[i].1@, first, p)),
            None => s == ScheduledToolPlan::Hook(calls[i].2),
        },
        None => s == ScheduledToolPlan::Hook(calls[i].2),
    }
}

fn duplicate_mutation_rejection_output(tool_name: &str, first_tool_name: &str, path: &str) -> (r: String)
    ensures
        r@ == rejection_text(tool_name@, first_tool_name@, path@),
{
    let mut out = <String as StringExecFns>::from_str("Error: Rejected this ");
    out.append(tool_name);
    out.append(" call because another ");
    out.append(first_tool_name);
    out.append(" call for the same file was already issued in this assistant turn: ");
    out.append(path);
    out.append(
        ". Wait for the previous tool result, re-read the file, and then issue one follow-up Edit or Write call if more changes are needed.",
    );
    out
}

/// The position of the claim on `path` among `paths`, if any.
fn find_claim(paths: &Vec<String>, names: &Vec<String>, path: &str, Ghost(claims): Ghost<
    Seq<(Seq<char>, Seq<char>)>,
>) -> (r: Option<usize>)
    requires
        paths@.len() == claims.len(),
        names@.len() == claims.len(),
        forall|k: int| 0 <= k < claims.len() ==> (#[trigger] claims[k]).0 == paths@[k]@ && claims[k].1 == names@[k]@,
    ensures
        match r {
            Some(k) => k < claims.len() && claimant(claims, path@) == Some(names@[k as int]@),
            None => claimant(claims, path@) is None,
        },
{
    let mut k: usize = 0;
    assert(claims.subrange(0, claims.len() as int) =~= claims);
    while k < paths.len()
        invariant
            k <= paths@.len(),
            paths@.len() == claims.len(),
            names@.len() == claims.len(),
            forall|q: int| 0 <= q < claims.len() ==> (#[trigger] claims[q]).0 == paths@[q]@ && claims[q].1 == names@[q]@,
            claimant(claims, path@) == claimant(claims.subrange(k as int, claims.len() as int), path@),
        decreases paths@.len() - k,
    {
        let ghost rest = claims.subrange(k as int, claims.len() as int);
        assert(rest[0] == claims[k as int]);
        assert(rest.drop_first() =~= claims.subrange(k + 1, claims.len() as int));
        proof {
            encode_utf8_decode_utf8(paths@[k as int]@);
            encode_utf8_decode_utf8(path@);
        }
        if slice_eq(paths[k].as_str().as_bytes(), path.as_bytes()) {
            return Some(k);
        }
        k += 1;
    }
    None
}

/// Examine a batch of tool calls and reject any that would mutate a file
/// that already has a scheduled mutation in the same turn.
///
/// Each call is `(call id, tool name, hook plan, mutated file)`, where the
/// file is given only for executing mutations whose target resolved.
/// Non-mutating calls and calls whose target cannot be determined are passed
/// through unchanged.  Only the first mutation targeting a given file
/// survives; later mutations for the same path are replaced with
/// [`ScheduledToolPlan::RejectedDuplicateMutation`].
pub fn reject_duplicate_mutating_tool_calls<P>(tool_plans: Vec<(String, String, P, Option<String>)>) -> (r: Vec<
    (String, String, ScheduledToolPlan<P>),
>)
    ensures
        r@.len() == tool_plans@.len(),
        forall|i: int|
            0 <= i < r@.len() ==> (#[trigger] r@[i]).0 == tool_plans@[i].0 && r@[i].1 == tool_plans@[i].1
                && scheduled(tool_plans@, i, r@[i].2),
{
    let ghost calls = tool_plans@;
    let n = tool_plans.len();
    let mut rest = tool_plans;
    let mut seen_paths: Vec<String> = Vec::new();
    let mut seen_names: Vec<String> = Vec::new();
    let mut out: Vec<(String, String, ScheduledToolPlan<P>)> = Vec::new();
    let mut i: usize = 0;
    while i < n
        invariant
            n == calls.len(),
            i <= n,
            rest@ == calls.subrange(i as int, n as int),
            out@.len() == i,
            forall|q: int|
                0 <= q < i ==> (#[trigger] out@[q]).0 == calls[q].0 && out@[q].1 == calls[q].1 && scheduled(
                    calls,
                    q,
                    out@[q].2,
                ),
            seen_paths@.len() == claims_before(calls, i as int).len(),
            seen_names@.len() == claims_before(calls, i as int).len(),
            forall|k: int|
                0 <= k < claims_before(calls, i as int).len() ==> (#[trigger] claims_before(calls, i as int)[k]).0
                    == seen_paths@[k]@ && claims_before(calls, i as int)[k].1 == seen_names@[k]@,
        decreases n - i,
    {
        assert(rest@[0] == calls[i as int]);
        let (call_id, name, plan, target) = rest.remove(0);
        assert(rest@ =~= calls.subrange(i + 1, n as int));
        let ghost claims = claims_before(calls, i as int);
        assert(claims_before(calls, i + 1) == match target_key(calls[i as int]) {
            Some(p) => if claimant(claims, p) is None {
                claims.push((p, calls[i as int].1@))
            } else {
                claims
            },
            None => claims,
        });
        let scheduled_plan = match target {
            None => ScheduledToolPlan::Hook(plan),
            Some(path) => {
                let key = normalize_path(path.as_str());
                match find_claim(&seen_paths, &seen_names, key.as_str(), Ghost(claims)) {
                    Some(k) => {
                        let output = duplicate_mutation_rejection_output(
                            name.as_str(),
                            seen_names[k].as_str(),
                            path.as_str(),
                        );
                        ScheduledToolPlan::RejectedDuplicateMutation { output }
                    },
                    None => {
                        let ghost before_paths = seen_paths@;
                        let ghost before_names = seen_names@;
                        seen_paths.push(key);
                        seen_names.push(name.clone());
                        proof {
                            let next = claims_before(calls, i + 1);
                            assert(next == claims.push((normalized_path(calls[i as int].3->0@), calls[i as int].1@)));
                            assert forall|k: int| 0 <= k < next.len() implies (#[trigger] next[k]).0
                                == seen_paths@[k]@ && next[k].1 == seen_names@[k]@ by {
                                if k < claims.len() {
                                    assert(next[k] == claims[k]);
                                    assert(seen_paths@[k] == before_paths[k]);
                                    assert(seen_names@[k] == before_names[k]);
                                }
                            }
                        }
                        ScheduledToolPlan::Hook(plan)
                    },
                }
            },
        };
        out.push((call_id, name, scheduled_plan));
        i += 1;
    }
    out
}

// =============================================================================
// Laws
// =============================================================================

proof fn lemma_claimant_push(claims: Seq<(Seq<char>, Seq<char>)>, c: (Seq<char>, Seq<char>), path: Seq<char>)
    ensures
        claimant(claims.push(c), path) == (if claimant(claims, path) is Some {
            claimant(claims, path)
        } else if c.0 == path {
            Some(c.1)
        } else {
            None
        }),
    decreases claims.len(),
{
    if claims.len() == 0 {
        assert(claims.push(c).drop_first() =~= Seq::<(Seq<char>, Seq<char>)>::empty());
    } else {
        assert(claims.push(c)[0] == claims[0]);
        assert(claims.push(c).drop_first() =~= claims.drop_first().push(c));
        lemma_claimant_push(claims.drop_first(), c, path);
    }
}

/// The claim on a path, if any, belongs to the first earlier call that
/// targets it.
proof fn lemma_claims_first_target<P>(calls: Seq<(String, String, P, Option<String>)>, i: int, path: Seq<char>)
    requires
        0 <= i <= calls.len(),
    ensures
        (forall|j: int| 0 <= j < i ==> target_key(#[trigger] calls[j]) != Some(path)) ==> claimant(
            claims_before(calls, i),
            path,
        ) is None,
        forall|j: int|
            0 <= j < i && target_key(#[trigger] calls[j]) == Some(path) && (forall|k: int|
                0 <= k < j ==> target_key(#[trigger] calls[k]) != Some(path)) ==> claimant(
                claims_before(calls, i),
                path,
            ) == Some(calls[j].1@),
    decreases i,
{
    if i > 0 {
        lemma_claims_first_target(calls, i - 1, path);
        let earlier = claims_before(calls, i - 1);
        match target_key(calls[i - 1]) {
            Some(p) => if claimant(earlier, p) is None {
                lemma_claimant_push(earlier, (p, calls[i - 1].1@), path);
            },
            None => {},
        }
    }
}

/// Only the first mutation of a file goes through: a call whose target no
/// earlier call mutates keeps its plan, and a call whose target an earlier
/// call mutates (the same path once normalized) is rejected, naming the tool
/// of the first such call and the rejected call's own path.
pub proof fn lemma_first_mutation_wins<P>(calls: Seq<(String, String, P, Option<String>)>, i: int, s: ScheduledToolPlan<P>)
    requires
        0 <= i < calls.len(),
        scheduled(calls, i, s),
    ensures
        (target_key(calls[i]) is None || forall|j: int| 0 <= j < i ==> target_key(#[trigger] calls[j]) != target_key(
            calls[i],
        )) ==> s == ScheduledToolPlan::Hook(calls[i].2),
        forall|j: int|
            0 <= j < i && target_key(calls[i]) is Some && target_key(#[trigger] calls[j]) == target_key(calls[i])
                && (forall|k: int| 0 <= k < j ==> target_key(#[trigger] calls[k]) != target_key(calls[i]))
                ==> (s matches ScheduledToolPlan::RejectedDuplicateMutation { output } && output@
                == rejection_text(calls[i].1@, calls[j].1@, target_of(calls[i])->0)),
{
    if let Some(p) = target_key(calls[i]) {
        lemma_claims_first_target(calls, i, p);
    }
}

} // verus!
