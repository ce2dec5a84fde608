//! The op registry: the table from op names to what the dispatcher needs to
//! know of each op. It is filled while the host starts up and sealed when
//! start-up is over; from then on it only answers lookups.

use crate::codec::ArgSchema;
use crate::text_map::TextMap;
use vstd::prelude::*;

verus! {

/// What the registry holds for one op: the capability that must be enabled
/// for it, if any, the record that its arguments decode to, and its handler.
#[derive(Debug, PartialEq, Eq)]
pub struct OpEntry<H> {
    pub capability: Option<String>,
    pub schema: ArgSchema,
    pub handler: H,
}

/// Why an op could not be registered.
#[derive(Debug, Clone, Copy, PartialEq, Eq, Structural)]
pub enum RegisterError {
    /// Start-up is over: the registry is sealed.
    AlreadyInitialized,
    /// Another op is registered under the name.
    NameTaken,
}

/// The table of ops. Its view is the map from names to entries.
#[derive(Debug, PartialEq, Eq)]
pub struct OpRegistry<H> {
    ops: TextMap<OpEntry<H>>,
    sealed: bool,
}

impl<H> View for OpRegistry<H> {
    type V = Map<Seq<char>, OpEntry<H>>;

    closed spec fn view(&self) -> Map<Seq<char>, OpEntry<H>> {
        self.ops@
    }
}

impl<H> OpRegistry<H> {
    /// Whether start-up is over.
    pub closed spec fn sealed(&self) -> bool {
        self.sealed
    }

    /// An empty registry, open for registration.
    pub fn new() -> (registry: Self)
        ensures
            registry@ == Map::<Seq<char>, OpEntry<H>>::empty(),
            !registry.sealed(),
    {
        OpRegistry { ops: TextMap::new(), sealed: false }
    }

    /// Registers an op under `name`. Fails with
    /// [`RegisterError::AlreadyInitialized`] once the registry is sealed, and
    /// with [`RegisterError::NameTaken`] where the name is in use; a failed
    /// registration leaves the registry as it was.
    pub fn register(
        &mut self,
        name: String,
        capability: Option<String>,
        schema: ArgSchema,
        handler: H,
    ) -> (registered: Result<(), RegisterError>)
        ensures
            final(self).sealed() == old(self).sealed(),
            registered == (if old(self).sealed() {
                Err::<(), RegisterError>(RegisterError::AlreadyInitialized)
            } else if old(self)@.contains_key(name@) {
                Err::<(), RegisterError>(RegisterError::NameTaken)
            } else {
                Ok::<(), RegisterError>(())
            }),
            final(self)@ == (if registered is Ok {
                old(self)@.insert(name@, OpEntry { capability, schema, handler })
            } else {
                old(self)@
            }),
    {
        if self.sealed {
            return Err(RegisterError::AlreadyInitialized);
        }
        if self.ops.contains(name.as_str()) {
            return Err(RegisterError::NameTaken);
        }
        self.ops.insert(name, OpEntry { capability, schema, handler });
        Ok(())
    }

    /// Ends start-up: from now on every registration fails.
    pub fn seal(&mut self)
        ensures
            final(self).sealed(),
            final(self)@ == old(self)@,
    {
        self.sealed = true;
    }

    /// Whether start-up is over.
    pub fn is_sealed(&self) -> (sealed: bool)
        ensures
            sealed == self.sealed(),
    {
        self.sealed
    }

    /// The entry registered under `name`, where there is one.
    pub fn lookup(&self, name: &str) -> (entry: Option<&OpEntry<H>>)
        ensures
            entry is Some <==> self@.contains_key(name@),
            entry matches Some(e) ==> *e == self@[name@],
    {
        self.ops.get(name)
    }

    /// The number of registered ops.
    pub fn len(&self) -> (n: usize)
        ensures
            n == self@.len(),
    {
        self.ops.len()
    }
}

} // verus!
