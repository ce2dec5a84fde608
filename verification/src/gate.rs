//! The capability gate: which experimental capabilities are enabled.

use crate::error::{OpError, OpErrorView};
use crate::text::same_text;
use vstd::prelude::*;

verus! {

/// The set of names that a list of capability names stands for.
pub open spec fn names_of(names: Seq<String>) -> Set<Seq<char>> {
    Set::new(|name: Seq<char>| exists|i: int| 0 <= i < names.len() && (#[trigger] names[i])@ == name)
}

/// The capabilities that are enabled. Its view is the set of their names.
#[derive(Debug, PartialEq, Eq)]
pub struct CapabilityGate {
    enabled: Vec<String>,
}

impl View for CapabilityGate {
    type V = Set<Seq<char>>;

    closed spec fn view(&self) -> Set<Seq<char>> {
        names_of(self.enabled@)
    }
}

/// What is answered for a capability: nothing where it is enabled, the
/// failure that names it where it is not.
pub open spec fn gate_answer(enabled: Set<Seq<char>>, capability: Seq<char>) -> Option<
    OpErrorView,
> {
    if enabled.contains(capability) {
        None
    } else {
        Some(OpErrorView::UnstableFeature { capability })
    }
}

impl CapabilityGate {
    /// A gate with nothing enabled.
    pub fn new() -> (gate: Self)
        ensures
            gate@ == Set::<Seq<char>>::empty(),
    {
        let gate = CapabilityGate { enabled: Vec::new() };
        assert(gate@ =~= Set::<Seq<char>>::empty());
        gate
    }

    /// Whether `capability` is enabled.
    pub fn is_enabled(&self, capability: &str) -> (enabled: bool)
        ensures
            enabled == self@.contains(capability@),
    {
        let mut i: usize = 0;
        while i < self.enabled.len()
            invariant
                i <= self.enabled@.len(),
                forall|k: int| 0 <= k < i ==> (#[trigger] self.enabled@[k])@ != capability@,
            decreases self.enabled@.len() - i,
        {
            if same_text(self.enabled[i].as_str(), capability) {
                return true;
            }
            i += 1;
        }
        false
    }

    /// Enables `capability`.
    pub fn enable(&mut self, capability: &str)
        ensures
            final(self)@ == old(self)@.insert(capability@),
    {
        if !self.is_enabled(capability) {
            let ghost before = self.enabled@;
            let name = capability.to_owned();
            self.enabled.push(name);
            assert forall|n: Seq<char>|
                names_of(self.enabled@).contains(n) <==> names_of(before).insert(
                    capability@,
                ).contains(n) by {
                if names_of(before).contains(n) {
                    let i = choose|i: int| 0 <= i < before.len() && (#[trigger] before[i])@ == n;
                    assert(self.enabled@[i]@ == n);
                }
                if n == capability@ {
                    assert(self.enabled@[before.len() as int]@ == n);
                }
                if names_of(self.enabled@).contains(n) {
                    let i = choose|i: int|
                        0 <= i < self.enabled@.len() && (#[trigger] self.enabled@[i])@ == n;
                    if i < before.len() {
                        assert(before[i]@ == n);
                    }
                }
            }
            assert(self@ =~= old(self)@.insert(capability@));
        } else {
            assert(self@ =~= old(self)@.insert(capability@));
        }
    }

    /// Passes where `capability` is enabled and fails with
    /// [`OpError::UnstableFeature`], which names it, where it is not.
    pub fn check(&self, capability: &str) -> (answer: Result<(), OpError>)
        ensures
            answer is Ok <==> gate_answer(self@, capability@) is None,
            answer matches Err(e) ==> gate_answer(self@, capability@) == Some(e@),
    {
        if self.is_enabled(capability) {
            Ok(())
        } else {
            Err(OpError::UnstableFeature { capability: capability.to_owned() })
        }
    }
}

} // verus!
