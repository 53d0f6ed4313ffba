//! Skill activation bookkeeping for the Read tool.
//!
//! Reading a skill's file activates the skill.  Within a session each skill
//! is activated once: a read of an active skill, or of one whose activation
//! is still in progress in the same tool batch, is answered with a short
//! notice instead of the skill body.
//!
//! The state is two sets of skill names, modelled as vectors without
//! repetitions: the active skills and the pending ones (reserved, not yet
//! loaded).  No name is both.
use vstd::prelude::*;
use vstd::string::*;
use vstd::utf8::*;

use crate::text::slice_eq;

verus! {

broadcast use vstd::seq::group_seq_axioms;

/// A skill activated by a read, with the canonical path of its file.
#[derive(Debug, Clone)]
pub struct SkillActivation {
    pub name: String,
    pub path: String,
}

/// The answer of a tool call, with the skill it activated, if any.
#[derive(Debug, Clone)]
pub struct ToolExecutionOutput {
    pub output: String,
    pub skill_activation: Option<SkillActivation>,
}

/// The answer to a reservation of `name` with the given active and pending
/// skills.
pub open spec fn reservation_of(active: Set<Seq<char>>, pending: Set<Seq<char>>, name: Seq<char>) -> SkillReservation {
    if active.contains(name) {
        SkillReservation::AlreadyActive
    } else if pending.contains(name) {
        SkillReservation::AlreadyPending
    } else {
        SkillReservation::Reserved
    }
}

/// Active and pending skill names.  The fields are private, so every value
/// is made by `new` and changed by the methods below, which keep it
/// well-formed.
#[derive(Debug)]
pub struct SkillActivations {
    active: Vec<String>,
    pending: Vec<String>,
}

#[derive(Debug, Clone, Copy, PartialEq, Eq)]
pub enum SkillReservation {
    Reserved,
    AlreadyActive,
    AlreadyPending,
}

/// The character views of a sequence of strings.
pub open spec fn names_of(v: Seq<String>) -> Seq<Seq<char>> {
    v.map_values(|s: String| s@)
}

impl SkillActivations {
    /// The active skill names.
    pub closed spec fn active_set(&self) -> Set<Seq<char>> {
        names_of(self.active@).to_set()
    }

    /// The pending skill names.
    pub closed spec fn pending_set(&self) -> Set<Seq<char>> {
        names_of(self.pending@).to_set()
    }

    /// No name is listed twice, and no name is both active and pending.
    pub closed spec fn wf(&self) -> bool {
        &&& names_of(self.active@).no_duplicates()
        &&& names_of(self.pending@).no_duplicates()
        &&& self.active_set().disjoint(self.pending_set())
    }

    /// No skill active or pending.
    pub fn new() -> (r: Self)
        ensures
            r.wf(),
            r.active_set() == Set::<Seq<char>>::empty(),
            r.pending_set() == Set::<Seq<char>>::empty(),
    {
        let r = SkillActivations { active: Vec::new(), pending: Vec::new() };
        assert(names_of(r.active@) =~= Seq::<Seq<char>>::empty());
        assert(names_of(r.pending@) =~= Seq::<Seq<char>>::empty());
        r
    }

    /// The active skill names, each listed once.
    pub fn active_names(&self) -> (r: &[String])
        requires
            self.wf(),
        ensures
            names_of(r@).to_set() == self.active_set(),
            names_of(r@).no_duplicates(),
    {
        self.active.as_slice()
    }

    /// The pending skill names, each listed once.
    pub fn pending_names(&self) -> (r: &[String])
        requires
            self.wf(),
        ensures
            names_of(r@).to_set() == self.pending_set(),
            names_of(r@).no_duplicates(),
    {
        self.pending.as_slice()
    }

    /// Make exactly `skills` active and drop every pending reservation.
    pub fn replace_active(&mut self, skills: Vec<String>)
        ensures
            final(self).wf(),
            final(self).active_set() == names_of(skills@).to_set(),
            final(self).pending_set() == Set::<Seq<char>>::empty(),
    {
        let mut active: Vec<String> = Vec::new();
        let mut i: usize = 0;
        while i < skills.len()
            invariant
                i <= skills@.len(),
                names_of(active@).no_duplicates(),
                names_of(active@).to_set() == names_of(skills@.subrange(0, i as int)).to_set(),
            decreases skills@.len() - i,
        {
            let ghost before = active@;
            if index_of(&active, skills[i].as_str()).is_none() {
                active.push(skills[i].clone());
                proof {
                    lemma_names_push(before, skills@[i as int]);
                }
            }
            proof {
                assert(skills@.subrange(0, i + 1) =~= skills@.subrange(0, i as int).push(skills@[i as int]));
                lemma_names_push(skills@.subrange(0, i as int), skills@[i as int]);
                assert(names_of(active@).to_set() =~= names_of(skills@.subrange(0, i + 1)).to_set());
            }
            i += 1;
        }
        assert(skills@.subrange(0, skills@.len() as int) =~= skills@);
        self.active = active;
        self.pending = Vec::new();
        assert(names_of(self.pending@) =~= Seq::<Seq<char>>::empty());
    }

    /// Reserve `name` for activation, unless it is active or already
    /// reserved.
    pub fn reserve(&mut self, name: &str) -> (r: SkillReservation)
        requires
            old(self).wf(),
        ensures
            final(self).wf(),
            final(self).active_set() == old(self).active_set(),
            r == reservation_of(old(self).active_set(), old(self).pending_set(), name@),
            final(self).pending_set() == (if r == SkillReservation::Reserved {
                old(self).pending_set().insert(name@)
            } else {
                old(self).pending_set()
            }),
    {
        if index_of(&self.active, name).is_some() {
            return SkillReservation::AlreadyActive;
        }
        if index_of(&self.pending, name).is_some() {
            return SkillReservation::AlreadyPending;
        }
        let ghost before = self.pending@;
        let owned = name.to_owned();
        self.pending.push(owned);
        proof {
            lemma_names_push(before, owned);
        }
        SkillReservation::Reserved
    }

    /// The reserved skill `name` finished loading: it is active now.
    pub fn complete(&mut self, name: &str)
        requires
            old(self).wf(),
        ensures
            final(self).wf(),
            final(self).pending_set() == old(self).pending_set().remove(name@),
            final(self).active_set() == old(self).active_set().insert(name@),
    {
        self.remove_pending(name);
        if index_of(&self.active, name).is_none() {
            let ghost before = self.active@;
            let owned = name.to_owned();
            self.active.push(owned);
            proof {
                lemma_names_push(before, owned);
            }
        }
        assert(self.active_set() =~= old(self).active_set().insert(name@));
    }

    /// The reserved skill `name` failed to load: it is neither pending nor
    /// made active.
    pub fn fail(&mut self, name: &str)
        requires
            old(self).wf(),
        ensures
            final(self).wf(),
            final(self).pending_set() == old(self).pending_set().remove(name@),
            final(self).active_set() == old(self).active_set(),
    {
        self.remove_pending(name);
    }

    fn remove_pending(&mut self, name: &str)
        requires
            old(self).wf(),
        ensures
            final(self).wf(),
            final(self).pending_set() == old(self).pending_set().remove(name@),
            final(self).active@ == old(self).active@,
    {
        if let Some(k) = index_of(&self.pending, name) {
            let ghost before = self.pending@;
            self.pending.remove(k);
            proof {
                assert(self.pending@ =~= before.remove(k as int));
                lemma_names_remove(before, k as int);
            }
        } else {
            assert(!names_of(self.pending@).contains(name@));
            assert(self.pending_set() =~= old(self).pending_set().remove(name@));
        }
    }
}

proof fn lemma_names_push(v: Seq<String>, s: String)
    ensures
        names_of(v.push(s)) == names_of(v).push(s@),
        names_of(v.push(s)).to_set() == names_of(v).to_set().insert(s@),
        names_of(v).no_duplicates() && !names_of(v).contains(s@) ==> names_of(v.push(s)).no_duplicates(),
{
    assert(names_of(v.push(s)) =~= names_of(v).push(s@));
    names_of(v).lemma_push_to_set_commute(s@);
}

proof fn lemma_names_remove(v: Seq<String>, k: int)
    requires
        0 <= k < v.len(),
        names_of(v).no_duplicates(),
    ensures
        names_of(v.remove(k)) == names_of(v).remove(k),
        names_of(v.remove(k)).no_duplicates(),
        names_of(v.remove(k)).to_set() == names_of(v).to_set().remove(v[k]@),
{
    assert(names_of(v.remove(k)) =~= names_of(v).remove(k));
    let n = names_of(v);
    let m = n.remove(k);
    assert forall|x: Seq<char>| m.to_set().contains(x) <==> n.to_set().remove(v[k]@).contains(x) by {
        if m.contains(x) {
            let j = choose|j: int| 0 <= j < m.len() && m[j] == x;
            if j < k {
                assert(n[j] == x);
                assert(x != n[k]);
            } else {
                assert(n[j + 1] == x);
                assert(x != n[k]);
            }
        }
        if n.contains(x) && x != v[k]@ {
            let j = choose|j: int| 0 <= j < n.len() && n[j] == x;
            assert(j != k);
            if j < k {
                assert(m[j] == x);
            } else {
                assert(m[j - 1] == x);
            }
        }
    }
    assert(m.to_set() =~= n.to_set().remove(v[k]@));
}

/// The position of `name` in `v`.
fn index_of(v: &Vec<String>, name: &str) -> (r: Option<usize>)
    ensures
        r is Some <==> names_of(v@).contains(name@),
        r matches Some(k) ==> k < v@.len() && v@[k as int]@ == name@,
{
    let mut k: usize = 0;
    while k < v.len()
        invariant
            k <= v@.len(),
            forall|q: int| 0 <= q < k ==> (#[trigger] v@[q])@ != name@,
        decreases v@.len() - k,
    {
        proof {
            encode_utf8_decode_utf8(v@[k as int]@);
            encode_utf8_decode_utf8(name@);
        }
        if slice_eq(v[k].as_str().as_bytes(), name.as_bytes()) {
            assert(names_of(v@)[k as int] == name@);
            return Some(k);
        }
        k += 1;
    }
    assert forall|j: int| 0 <= j < names_of(v@).len() implies names_of(v@)[j] != name@ by {
        assert(names_of(v@)[j] == v@[j]@);
    }
    None
}

// =============================================================================
// Reading a skill file
// =============================================================================

/// What a Read call does once the skill behind its file is known.
#[derive(Debug)]
pub enum SkillReadStep {
    /// Not a skill read: run the tool as usual.
    Execute,
    /// Answer with this notice and do not read the file.
    Skip { output: String },
    /// The skill was reserved: load its body, then call `finish_skill_read`.
    Load,
}

/// The notice for a read of an active skill.
pub open spec fn already_active_text(skill: Seq<char>) -> Seq<char> {
    "Skill '"@ + skill + "' is already active in this session. Its instructions are already in the conversation context."@
}

/// The notice for a read of a skill whose activation is in progress.
pub open spec fn already_pending_text(skill: Seq<char>) -> Seq<char> {
    "Skill '"@ + skill
        + "' activation is already in progress in this tool batch. Its instructions will be included when that read completes."@
}

/// Decide a tool call of `tool_name` whose file belongs to the skill
/// `skill_name` (`None` when the call is no read of a skill file): reserve
/// the skill, or answer that it is active or pending.
pub fn begin_skill_read(activations: &mut SkillActivations, tool_name: &str, skill_name: Option<&str>) -> (r:
    SkillReadStep)
    requires
        old(activations).wf(),
    ensures
        final(activations).wf(),
        final(activations).active_set() == old(activations).active_set(),
        tool_name@ != "Read"@ || skill_name is None ==> r is Execute && *final(activations) == *old(activations),
        tool_name@ == "Read"@ && skill_name is Some ==> {
            let s = skill_name->0@;
            if old(activations).active_set().contains(s) {
                &&& r matches SkillReadStep::Skip { output } && output@ == already_active_text(s)
                &&& final(activations).pending_set() == old(activations).pending_set()
            } else if old(activations).pending_set().contains(s) {
                &&& r matches SkillReadStep::Skip { output } && output@ == already_pending_text(s)
                &&& final(activations).pending_set() == old(activations).pending_set()
            } else {
                &&& r is Load
                &&& final(activations).pending_set() == old(activations).pending_set().insert(s)
            }
        },
{
    proof {
        encode_utf8_decode_utf8(tool_name@);
        encode_utf8_decode_utf8("Read"@);
    }
    let skill = match skill_name {
        Some(s) => s,
        None => {
            return SkillReadStep::Execute;
        },
    };
    if !slice_eq(tool_name.as_bytes(), "Read".as_bytes()) {
        return SkillReadStep::Execute;
    }
    match activations.reserve(skill) {
        SkillReservation::Reserved => SkillReadStep::Load,
        SkillReservation::AlreadyActive => {
            let mut output = <String as StringExecFns>::from_str("Skill '");
            output.append(skill);
            output.append(
                "' is already active in this session. Its instructions are already in the conversation context.",
            );
            SkillReadStep::Skip { output }
        },
        SkillReservation::AlreadyPending => {
            let mut output = <String as StringExecFns>::from_str("Skill '");
            output.append(skill);
            output.append(
                "' activation is already in progress in this tool batch. Its instructions will be included when that read completes.",
            );
            SkillReadStep::Skip { output }
        },
    }
}

/// The error for a skill body that failed to load.
pub open spec fn load_failure_text(location: Seq<char>, error: Seq<char>) -> Seq<char> {
    "Failed to load skill '"@ + location + "': "@ + error
}

/// Settle a reserved skill once its body was loaded (or not): the skill
/// becomes active and its body is the answer, or the reservation is dropped
/// and the error names the skill file.
pub fn finish_skill_read(
    activations: &mut SkillActivations,
    skill_name: &str,
    location: &str,
    path: String,
    loaded: Result<String, String>,
) -> (r: Result<ToolExecutionOutput, String>)
    requires
        old(activations).wf(),
    ensures
        final(activations).wf(),
        final(activations).pending_set() == old(activations).pending_set().remove(skill_name@),
        match loaded {
            Ok(body) => {
                &&& final(activations).active_set() == old(activations).active_set().insert(skill_name@)
                &&& r matches Ok(out) && out.output@ == body@ && (out.skill_activation matches Some(a)
                    && a.name@ == skill_name@ && a.path@ == path@)
            },
            Err(e) => {
                &&& final(activations).active_set() == old(activations).active_set()
                &&& r matches Err(m) && m@ == load_failure_text(location@, e@)
            },
        },
{
    match loaded {
        Err(error) => {
            activations.fail(skill_name);
            let mut m = <String as StringExecFns>::from_str("Failed to load skill '");
            m.append(location);
            m.append("': ");
            m.append(error.as_str());
            Err(m)
        },
        Ok(output) => {
            activations.complete(skill_name);
            Ok(
                ToolExecutionOutput {
                    output,
                    skill_activation: Some(SkillActivation { name: skill_name.to_owned(), path }),
                },
            )
        },
    }
}

// =============================================================================
// Laws
// =============================================================================

/// A completed skill stays active: once its reservation is completed, every
/// later reservation of it answers that it is already active.
pub proof fn lemma_completed_skill_is_active(active: Set<Seq<char>>, pending: Set<Seq<char>>, name: Seq<char>)
    ensures
        reservation_of(active.insert(name), pending.remove(name), name) == SkillReservation::AlreadyActive,
{
}

/// A skill is loaded once per batch: while its reservation is pending,
/// another reservation answers that it is in progress.
pub proof fn lemma_pending_skill_is_not_reserved_twice(
    active: Set<Seq<char>>,
    pending: Set<Seq<char>>,
    name: Seq<char>,
)
    requires
        reservation_of(active, pending, name) == SkillReservation::Reserved,
    ensures
        reservation_of(active, pending.insert(name), name) == SkillReservation::AlreadyPending,
{
}

/// A failed load leaves no trace: the skill can be reserved again.
pub proof fn lemma_failed_skill_can_be_retried(active: Set<Seq<char>>, pending: Set<Seq<char>>, name: Seq<char>)
    requires
        reservation_of(active, pending, name) == SkillReservation::Reserved,
    ensures
        reservation_of(active, pending.insert(name).remove(name), name) == SkillReservation::Reserved,
{
}

} // verus!
