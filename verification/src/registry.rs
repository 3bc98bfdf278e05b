//! The registry of shared singletons: `true`, `false`, `null` and the empty
//! string, made on first demand and shared from then on.

use crate::value::{share, Handle, Json, Value};
use std::rc::Rc;
use vstd::prelude::*;

verus! {

/// The names of the singletons.
#[derive(Debug, Clone, Copy, PartialEq, Eq, Structural)]
pub enum Singleton {
    True,
    False,
    Null,
    EmptyString,
}

/// The storage of an initialised registry: one cell for each singleton.
struct Cells {
    truth: Handle,
    falsity: Handle,
    null: Handle,
    empty: Handle,
}

/// The registry. It starts without storage and makes it on the first
/// acquisition; after that it only hands out shares of what it holds.
pub struct SingletonRegistry {
    cells: Option<Cells>,
}

/// The value that a singleton stands for.
pub open spec fn canonical(which: Singleton) -> Json {
    match which {
        Singleton::True => Json::Bool(true),
        Singleton::False => Json::Bool(false),
        Singleton::Null => Json::Null,
        Singleton::EmptyString => Json::String(Seq::empty()),
    }
}

impl Cells {
    spec fn cell(&self, which: Singleton) -> Handle {
        match which {
            Singleton::True => self.truth,
            Singleton::False => self.falsity,
            Singleton::Null => self.null,
            Singleton::EmptyString => self.empty,
        }
    }
}

/// What one acquisition of `which` does: `pre` is the registry before, `post`
/// the registry after, and `handle` the share handed out.
///
/// The registry has storage afterwards; storage that was there is the storage
/// that stays; and the share is the cell of `which` in it.
pub open spec fn acquired(
    pre: SingletonRegistry,
    which: Singleton,
    post: SingletonRegistry,
    handle: Handle,
) -> bool {
    &&& post.is_initialized()
    &&& pre.is_initialized() ==> post == pre
    &&& handle == post.cell(which)
}

impl SingletonRegistry {
    #[verifier::type_invariant]
    spec fn inv(&self) -> bool {
        self.cells matches Some(cells) ==> forall|which: Singleton| #[trigger]
            cells.cell(which)@ == canonical(which)
    }

    /// Whether the storage has been made.
    pub closed spec fn is_initialized(&self) -> bool {
        self.cells is Some
    }

    /// The cell of `which` in the storage.
    pub closed spec fn cell(&self, which: Singleton) -> Handle {
        self.cells->0.cell(which)
    }

    /// A registry without storage.
    pub fn new() -> (registry: SingletonRegistry)
        ensures
            !registry.is_initialized(),
    {
        SingletonRegistry { cells: None }
    }

    /// Whether the storage has been made.
    pub fn initialized(&self) -> (r: bool)
        ensures
            r == self.is_initialized(),
    {
        self.cells.is_some()
    }

    /// Makes the storage unless it is there already.
    pub fn init(&mut self)
        ensures
            final(self).is_initialized(),
            old(self).is_initialized() ==> *final(self) == *old(self),
            forall|which: Singleton| #[trigger] final(self).cell(which)@ == canonical(which),
    {
        proof {
            use_type_invariant(&*self);
        }
        if self.cells.is_none() {
            let cells = Cells {
                truth: Rc::new(Value::Bool(true)),
                falsity: Rc::new(Value::Bool(false)),
                null: Rc::new(Value::Null),
                empty: Rc::new(Value::String(String::new())),
            };
            proof {
                assert(cells.empty@ == canonical(Singleton::EmptyString));
                assert forall|which: Singleton| #[trigger]
                    cells.cell(which)@ == canonical(which) by {}
            }
            *self = SingletonRegistry { cells: Some(cells) };
        }
    }

    /// A share of the singleton `which`.
    pub fn get(&mut self, which: Singleton) -> (handle: Handle)
        ensures
            acquired(*old(self), which, *final(self), handle),
            handle@ == canonical(which),
    {
        self.init();
        proof {
            use_type_invariant(&*self);
        }
        match &self.cells {
            Some(cells) => {
                assert(cells.cell(which)@ == canonical(which));
                match which {
                    Singleton::True => share(&cells.truth),
                    Singleton::False => share(&cells.falsity),
                    Singleton::Null => share(&cells.null),
                    Singleton::EmptyString => share(&cells.empty),
                }
            },
            None => unreached(),
        }
    }
}

/// Two acquisitions of one singleton, one after the other, hand out the same
/// cell of the same storage: the second finds the storage that the first left
/// and leaves it as it was.
pub proof fn lemma_singleton_identity(
    which: Singleton,
    pre: SingletonRegistry,
    mid: SingletonRegistry,
    first: Handle,
    post: SingletonRegistry,
    second: Handle,
)
    requires
        acquired(pre, which, mid, first),
        acquired(mid, which, post, second),
    ensures
        post == mid,
        first == second,
        first == post.cell(which),
{
}

/// Once the storage is there, no acquisition changes it, whichever singleton
/// is asked for: every later acquisition of `which` hands out the cell that
/// the first one handed out.
pub proof fn lemma_storage_is_stable(
    which: Singleton,
    other: Singleton,
    pre: SingletonRegistry,
    mid: SingletonRegistry,
    first: Handle,
    between: Handle,
    later: SingletonRegistry,
    post: SingletonRegistry,
    second: Handle,
)
    requires
        acquired(pre, which, mid, first),
        acquired(mid, other, later, between),
        acquired(later, which, post, second),
    ensures
        post == mid,
        first == second,
{
}

} // verus!
