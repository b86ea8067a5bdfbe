use vstd::prelude::*;

use crate::error::NativeExtensionsError;
use crate::registry::Registry;

verus! {

/// Identifies a drop session.
#[derive(Debug, Clone, Copy, PartialEq, Eq, Hash, Structural)]
pub struct DropSessionId(pub i64);

/// Identifies an item within a drop session; stays the same between events.
#[derive(Debug, Clone, Copy, PartialEq, Eq, Hash, Structural)]
pub struct DropItemId(pub i64);

/// An event that names only its session.
#[derive(Debug, Clone, Copy, PartialEq, Eq, Structural)]
pub struct BaseDropEvent {
    pub session_id: DropSessionId,
}

/// The per isolate contexts of a drag or drop manager, of type `C`.
pub struct IsolateContexts<C> {
    contexts: Registry<C>,
}

/// The context of `isolate`, or the error for a missing one.
pub open spec fn context_lookup<C>(contexts: Map<i64, (i64, C)>, isolate: i64) -> Result<
    C,
    NativeExtensionsError,
> {
    if contexts.contains_key(isolate) {
        Ok(contexts[isolate].1)
    } else {
        Err(NativeExtensionsError::PlatformContextNotFound)
    }
}

impl<C> IsolateContexts<C> {
    /// The contexts by isolate; each is keyed by the isolate that owns it.
    pub closed spec fn view_map(&self) -> Map<i64, (i64, C)> {
        self.contexts@
    }

    pub open spec fn wf(&self) -> bool {
        forall|k: i64| #[trigger] self.view_map().contains_key(k) ==> self.view_map()[k].0 == k
    }

    pub fn new() -> (res: Self)
        ensures
            res.wf(),
            res.view_map() == Map::<i64, (i64, C)>::empty(),
    {
        IsolateContexts { contexts: Registry::new() }
    }

    /// Whether `isolate` has a context already; a second one is not created
    /// (it can be asked for again after a hot reload).
    pub fn has_context(&self, isolate: i64) -> (res: bool)
        ensures
            res == self.view_map().contains_key(isolate),
    {
        self.contexts.contains(isolate)
    }

    /// Adds the context of an isolate that had none.
    pub fn add_context(&mut self, isolate: i64, context: C)
        requires
            old(self).wf(),
            !old(self).view_map().contains_key(isolate),
        ensures
            final(self).wf(),
            final(self).view_map() == old(self).view_map().insert(isolate, (isolate, context)),
    {
        self.contexts.insert(isolate, isolate, context);
    }

    /// The context of `isolate`.
    pub fn get_context(&self, isolate: i64) -> (res: Result<&C, NativeExtensionsError>)
        ensures
            match res {
                Ok(c) => context_lookup(self.view_map(), isolate) == Ok::<C, NativeExtensionsError>(
                    *c,
                ),
                Err(e) => context_lookup(self.view_map(), isolate) == Err::<
                    C,
                    NativeExtensionsError,
                >(e),
            },
    {
        match self.contexts.get(isolate) {
            Some(e) => Ok(&e.1),
            None => Err(NativeExtensionsError::PlatformContextNotFound),
        }
    }

    /// Drops the context of an isolate that goes away.
    pub fn on_isolate_destroyed(&mut self, isolate: i64)
        requires
            old(self).wf(),
        ensures
            final(self).wf(),
            final(self).view_map() == old(self).view_map().remove(isolate),
    {
        let _ = self.contexts.remove(isolate);
    }
}

/// The drop contexts, one per isolate.
pub struct DropManager<C> {
    pub contexts: IsolateContexts<C>,
}

impl<C> DropManager<C> {
    pub fn new() -> (res: Self)
        ensures
            res.contexts.wf(),
            res.contexts.view_map() == Map::<i64, (i64, C)>::empty(),
    {
        DropManager { contexts: IsolateContexts::new() }
    }

    /// The context of `isolate`, to register drop formats with.
    pub fn register_drop_formats(&self, isolate: i64) -> (res: Result<&C, NativeExtensionsError>)
        ensures
            match res {
                Ok(c) => context_lookup(self.contexts.view_map(), isolate) == Ok::<
                    C,
                    NativeExtensionsError,
                >(*c),
                Err(e) => context_lookup(self.contexts.view_map(), isolate) == Err::<
                    C,
                    NativeExtensionsError,
                >(e),
            },
    {
        self.contexts.get_context(isolate)
    }
}

} // verus!
