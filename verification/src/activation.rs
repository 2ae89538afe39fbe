//! Making an installed version the current one: the single pointer is taken
//! away where there is one, and set anew.

use crate::error::ErrorKind;
use crate::package::Outcome;
use crate::storage::{Location, LocationView, Root};
use crate::versions::{normalized_tag, Version};
use vstd::prelude::*;

verus! {

/// Where an activation stands: the action that it waits for.
#[derive(Clone, Copy, Debug, PartialEq, Eq, Structural)]
pub enum ActivationStep {
    ProbePointer,
    RemovePointer,
    Link,
    Done,
    Failed(ErrorKind),
}

/// What the caller does next for an activation.
#[derive(Clone, Copy, Debug, PartialEq, Eq, Structural)]
pub enum ActivationAction {
    /// Tell whether the current pointer exists.
    Probe,
    /// Delete the current pointer.
    Remove,
    /// Create the current pointer, with the version's directory as target.
    Link,
    /// Nothing: the version is the current one.
    Finish,
    /// Nothing: the activation has failed.
    Abort(ErrorKind),
}

/// The activation of one installed version.
#[derive(Debug, Clone)]
pub struct Activation {
    pub tag: String,
    pub step: ActivationStep,
}

/// The action that a step waits for.
pub open spec fn activation_pending(step: ActivationStep) -> ActivationAction {
    match step {
        ActivationStep::ProbePointer => ActivationAction::Probe,
        ActivationStep::RemovePointer => ActivationAction::Remove,
        ActivationStep::Link => ActivationAction::Link,
        ActivationStep::Done => ActivationAction::Finish,
        ActivationStep::Failed(kind) => ActivationAction::Abort(kind),
    }
}

/// The step that follows a step, given how its action ended. A pointer
/// that is there is removed before the new one is made; every action that
/// cannot be carried out, and every event that does not answer the pending
/// action, makes the activation fail.
pub open spec fn activation_next(step: ActivationStep, outcome: Outcome) -> ActivationStep {
    match step {
        ActivationStep::ProbePointer => match outcome {
            Outcome::Found(true) => ActivationStep::RemovePointer,
            Outcome::Found(false) => ActivationStep::Link,
            _ => ActivationStep::Failed(ErrorKind::IoFailure),
        },
        ActivationStep::RemovePointer => match outcome {
            Outcome::Succeeded => ActivationStep::Link,
            _ => ActivationStep::Failed(ErrorKind::IoFailure),
        },
        ActivationStep::Link => match outcome {
            Outcome::Succeeded => ActivationStep::Done,
            _ => ActivationStep::Failed(ErrorKind::IoFailure),
        },
        ActivationStep::Done => step,
        ActivationStep::Failed(kind) => step,
    }
}

/// The directory of the installed version with that normalized tag.
pub open spec fn version_location(tag: Seq<char>) -> LocationView {
    LocationView { root: Root::Versions, parts: seq![tag] }
}

/// The place of the current pointer.
pub open spec fn pointer_location() -> LocationView {
    LocationView { root: Root::Current, parts: Seq::empty() }
}

impl Version {
    /// Sets up the activation of this version. Nothing tests that the
    /// version is installed: that is the caller's part.
    pub fn activate(&self) -> (r: Activation)
        ensures
            r.tag@ == normalized_tag(self.tag_name@),
            r.step == ActivationStep::ProbePointer,
    {
        Activation { tag: self.get_tag_name(), step: ActivationStep::ProbePointer }
    }
}

impl Activation {
    /// The action that the activation waits for.
    pub fn action(&self) -> (r: ActivationAction)
        ensures
            r == activation_pending(self.step),
    {
        match self.step {
            ActivationStep::ProbePointer => ActivationAction::Probe,
            ActivationStep::RemovePointer => ActivationAction::Remove,
            ActivationStep::Link => ActivationAction::Link,
            ActivationStep::Done => ActivationAction::Finish,
            ActivationStep::Failed(kind) => ActivationAction::Abort(kind),
        }
    }

    /// Takes in how the pending action ended, and tells the next action.
    pub fn step(&mut self, outcome: Outcome) -> (r: ActivationAction)
        ensures
            final(self).step == activation_next(old(self).step, outcome),
            final(self).tag == old(self).tag,
            r == activation_pending(final(self).step),
    {
        let next = match self.step {
            ActivationStep::ProbePointer => match outcome {
                Outcome::Found(true) => ActivationStep::RemovePointer,
                Outcome::Found(false) => ActivationStep::Link,
                _ => ActivationStep::Failed(ErrorKind::IoFailure),
            },
            ActivationStep::RemovePointer => match outcome {
                Outcome::Succeeded => ActivationStep::Link,
                _ => ActivationStep::Failed(ErrorKind::IoFailure),
            },
            ActivationStep::Link => match outcome {
                Outcome::Succeeded => ActivationStep::Done,
                _ => ActivationStep::Failed(ErrorKind::IoFailure),
            },
            ActivationStep::Done => ActivationStep::Done,
            ActivationStep::Failed(kind) => ActivationStep::Failed(kind),
        };
        self.step = next;
        self.action()
    }

    /// The directory that the pointer is made to name.
    pub fn target(&self) -> (r: Location)
        ensures
            r@ == version_location(self.tag@),
    {
        let mut parts: Vec<String> = Vec::new();
        parts.push(self.tag.clone());
        let r = Location { root: Root::Versions, parts };
        proof {
            assert(r@.parts =~= seq![self.tag@]);
        }
        r
    }

    /// The place of the pointer.
    pub fn pointer(&self) -> (r: Location)
        ensures
            r@ == pointer_location(),
    {
        let r = Location { root: Root::Current, parts: Vec::new() };
        proof {
            assert(r@.parts =~= Seq::<Seq<char>>::empty());
        }
        r
    }
}

/// How an action ends on a pointer that behaves as a link on disk does: a
/// probe tells whether it is there, a removal succeeds, and a link can be
/// made only where none is.
pub open spec fn pointer_outcome(pointer: Option<Seq<char>>, action: ActivationAction) -> Outcome {
    match action {
        ActivationAction::Probe => Outcome::Found(pointer is Some),
        ActivationAction::Link => if pointer is Some {
            Outcome::Failed
        } else {
            Outcome::Succeeded
        },
        _ => Outcome::Succeeded,
    }
}

/// The pointer after an action of the activation of `tag`. It names one
/// version or none, never two.
pub open spec fn pointer_after(
    pointer: Option<Seq<char>>,
    tag: Seq<char>,
    action: ActivationAction,
) -> Option<Seq<char>> {
    match action {
        ActivationAction::Remove => None,
        ActivationAction::Link => if pointer is Some {
            pointer
        } else {
            Some(tag)
        },
        _ => pointer,
    }
}

/// Where an activation of `tag` and the pointer stand after at most `fuel`
/// actions.
pub open spec fn activation_run(
    step: ActivationStep,
    pointer: Option<Seq<char>>,
    tag: Seq<char>,
    fuel: nat,
) -> (ActivationStep, Option<Seq<char>>)
    decreases fuel,
{
    if fuel == 0 || step is Done || step is Failed {
        (step, pointer)
    } else {
        activation_run(
            activation_next(step, pointer_outcome(pointer, activation_pending(step))),
            pointer_after(pointer, tag, activation_pending(step)),
            tag,
            (fuel - 1) as nat,
        )
    }
}

/// Whatever the pointer named before, after an activation it names the
/// activated version, and the activation is done within three actions.
pub proof fn lemma_activation_sets_pointer(pointer: Option<Seq<char>>, tag: Seq<char>)
    ensures
        activation_run(ActivationStep::ProbePointer, pointer, tag, 3) == (
            ActivationStep::Done,
            Some(tag),
        ),
{
    reveal_with_fuel(activation_run, 4);
}

/// After one version was activated and then another, the pointer names the
/// second, and so not the first where the two differ.
pub proof fn lemma_second_activation_wins(
    pointer: Option<Seq<char>>,
    first: Seq<char>,
    second: Seq<char>,
)
    ensures
        ({
            let between = activation_run(ActivationStep::ProbePointer, pointer, first, 3).1;
            let last = activation_run(ActivationStep::ProbePointer, between, second, 3).1;
            between == Some(first) && last == Some(second) && (first != second ==> last != Some(
                first,
            ))
        }),
{
    lemma_activation_sets_pointer(pointer, first);
    lemma_activation_sets_pointer(Some(first), second);
}

} // verus!
