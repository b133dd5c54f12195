//! The resource handle registry.
//!
//! Each native aggregate lives in a registry slot behind an opaque handle:
//! the host holds only the handle, never the value.  Handles are reference
//! counted; a slot is reclaimed when its count reaches zero.  A mutating
//! caller first asks for unique ownership: when the count exceeds one, the
//! value is cloned into a fresh slot, so other live handles keep observing
//! the value they had (copy on write).

use vstd::prelude::*;

use crate::error::EngineError;
use crate::frame::DataFrame;
use crate::lazy::LazyFrame;
use crate::series::{Series, SeriesModel};
use crate::lazy::StepModel;

verus! {

/// The capability tag of a handle.
#[derive(Clone, Copy, PartialEq, Eq, Structural, Debug)]
pub enum HandleKind {
    Frame,
    Lazy,
    Column,
}

/// One native aggregate owned by the registry.
#[derive(Debug)]
pub enum Aggregate {
    Frame(DataFrame),
    Lazy(LazyFrame),
    Column(Series),
}

/// The model of an aggregate.
pub enum AggregateModel {
    Frame(Seq<SeriesModel>),
    Lazy((Seq<SeriesModel>, Seq<StepModel>)),
    Column(SeriesModel),
}

impl View for Aggregate {
    type V = AggregateModel;

    open spec fn view(&self) -> AggregateModel {
        match self {
            Aggregate::Frame(d) => AggregateModel::Frame(d@),
            Aggregate::Lazy(l) => AggregateModel::Lazy(l@),
            Aggregate::Column(s) => AggregateModel::Column(s@),
        }
    }
}

/// The kind an aggregate belongs to.
pub open spec fn spec_kind_of(m: AggregateModel) -> HandleKind {
    match m {
        AggregateModel::Frame(_) => HandleKind::Frame,
        AggregateModel::Lazy(_) => HandleKind::Lazy,
        AggregateModel::Column(_) => HandleKind::Column,
    }
}

/// An opaque reference to one registry slot.
#[derive(Clone, Copy, PartialEq, Eq, Structural, Debug)]
pub struct Handle {
    pub id: usize,
}

/// One live slot: the owned value and its reference count.
#[derive(Debug)]
pub struct Entry {
    pub value: Aggregate,
    pub refs: usize,
}

/// The registry: a vector of slots, reclaimed slots left as `None`.
pub struct Registry {
    pub slots: Vec<Option<Entry>>,
}

/// The model of a registry: per slot, the value's model and its count.
pub open spec fn reg_view(r: &Registry) -> Seq<Option<(AggregateModel, int)>> {
    Seq::new(
        r.slots@.len(),
        |i: int|
            match r.slots@[i] {
                Some(e) => Some((e.value@, e.refs as int)),
                None => None,
            },
    )
}

impl Registry {
    /// Every live slot is referenced at least once.
    pub open spec fn wf(&self) -> bool {
        forall|i: int|
            0 <= i < reg_view(self).len() ==> ((#[trigger] reg_view(self)[i]) matches Some(e)
                ==> e.1 >= 1)
    }

    /// An empty registry.
    pub fn new() -> (r: Registry)
        ensures
            r.wf(),
            reg_view(&r).len() == 0,
    {
        Registry { slots: Vec::new() }
    }

    /// Whether a handle refers to a live slot.
    pub open spec fn spec_live(&self, h: Handle) -> bool {
        h.id < reg_view(self).len() && reg_view(self)[h.id as int] is Some
    }

    /// Wraps a native value in a fresh handle with one reference.
    pub fn wrap(&mut self, value: Aggregate) -> (h: Handle)
        requires
            old(self).wf(),
        ensures
            final(self).wf(),
            h.id == reg_view(old(self)).len(),
            reg_view(final(self)) =~= reg_view(old(self)).push(Some((value@, 1int))),
            final(self).spec_live(h),
    {
        let id = self.slots.len();
        let ghost vm = value@;
        self.slots.push(Some(Entry { value, refs: 1 }));
        proof {
            assert(reg_view(self) =~= reg_view(old(self)).push(Some((vm, 1int))));
            assert forall|i: int|
                0 <= i < reg_view(self).len() implies ((#[trigger] reg_view(self)[i]) matches Some(
                e,
            ) ==> e.1 >= 1) by {
                if i < reg_view(old(self)).len() {
                    assert(reg_view(self)[i] == reg_view(old(self))[i]);
                }
            }
        }
        Handle { id }
    }

    /// Borrows the value a handle refers to, checking the capability tag.
    /// A dead or out-of-range handle fails with `Handle`; a live handle of
    /// another kind fails with `TypeMismatch`.
    pub fn unwrap(&self, h: Handle, kind: HandleKind) -> (r: Result<&Aggregate, EngineError>)
        ensures
            r is Ok <==> (self.spec_live(h) && (reg_view(self)[h.id as int] matches Some(e)
                && spec_kind_of(e.0) == kind)),
            r matches Err(e) ==> {
                &&& !self.spec_live(h) ==> e is Handle
                &&& self.spec_live(h) ==> e is TypeMismatch
            },
            r matches Ok(v) ==> reg_view(self)[h.id as int] matches Some(e) && e.0 == v@,
    {
        if h.id >= self.slots.len() {
            return Err(EngineError::Handle(String::from_str("handle is out of range")));
        }
        match &self.slots[h.id] {
            None => Err(EngineError::Handle(String::from_str("handle is no longer live"))),
            Some(entry) => {
                let k = match &entry.value {
                    Aggregate::Frame(_) => HandleKind::Frame,
                    Aggregate::Lazy(_) => HandleKind::Lazy,
                    Aggregate::Column(_) => HandleKind::Column,
                };
                if k != kind {
                    Err(
                        EngineError::TypeMismatch(
                            String::from_str("handle does not hold this kind of value"),
                        ),
                    )
                } else {
                    Ok(&entry.value)
                }
            },
        }
    }

    /// Duplicates a handle: the same slot, one more reference.  Fails with
    /// `Handle` on a dead handle and with `ComputationFailure` when the
    /// count cannot grow.
    pub fn clone_ref(&mut self, h: Handle) -> (r: Result<Handle, EngineError>)
        requires
            old(self).wf(),
        ensures
            final(self).wf(),
            r matches Err(e) ==> {
                &&& (e is Handle || e is ComputationFailure)
                &&& reg_view(final(self)) =~= reg_view(old(self))
            },
            r matches Ok(h2) ==> {
                &&& h2 == h
                &&& old(self).spec_live(h)
                &&& (reg_view(old(self))[h.id as int] matches Some(e) && reg_view(final(self))
                    =~= reg_view(old(self)).update(h.id as int, Some((e.0, e.1 + 1))))
            },
            !old(self).spec_live(h) ==> (r matches Err(e) && e is Handle),
    {
        if h.id >= self.slots.len() {
            assert(reg_view(self) =~= reg_view(old(self)));
            return Err(EngineError::Handle(String::from_str("handle is out of range")));
        }
        let refs = match &self.slots[h.id] {
            None => {
                assert(reg_view(self) =~= reg_view(old(self)));
                return Err(EngineError::Handle(String::from_str("handle is no longer live")));
            },
            Some(entry) => entry.refs,
        };
        match refs.checked_add(1) {
            None => {
                assert(reg_view(self) =~= reg_view(old(self)));
                Err(
                    EngineError::ComputationFailure(
                        String::from_str("reference count cannot grow"),
                    ),
                )
            },
            Some(n) => {
                let slot = self.slots.remove(h.id);
                let entry = match slot {
                    Some(e) => e,
                    None => {
                        proof {
                            assert(false);
                        }
                        return Err(EngineError::Handle(String::new()));
                    },
                };
                self.slots.insert(h.id, Some(Entry { value: entry.value, refs: n }));
                proof {
                    let old_e = (match reg_view(old(self))[h.id as int] {
                        Some(e) => e,
                        None => (AggregateModel::Frame(Seq::empty()), 0int),
                    });
                    assert(reg_view(self) =~= reg_view(old(self)).update(
                        h.id as int,
                        Some((old_e.0, old_e.1 + 1)),
                    ));
                }
                Ok(h)
            },
        }
    }

    /// Releases one reference; the slot is reclaimed when none is left.
    /// Fails with `Handle` on a dead handle.
    pub fn release(&mut self, h: Handle) -> (r: Result<(), EngineError>)
        requires
            old(self).wf(),
        ensures
            final(self).wf(),
            r is Ok <==> old(self).spec_live(h),
            r matches Err(e) ==> (e is Handle && reg_view(final(self)) =~= reg_view(old(self))),
            r is Ok ==> (reg_view(old(self))[h.id as int] matches Some(e) && reg_view(
                final(self),
            ) =~= reg_view(old(self)).update(
                h.id as int,
                if e.1 == 1 {
                    None
                } else {
                    Some((e.0, e.1 - 1))
                },
            )),
    {
        if h.id >= self.slots.len() {
            assert(reg_view(self) =~= reg_view(old(self)));
            return Err(EngineError::Handle(String::from_str("handle is out of range")));
        }
        let refs = match &self.slots[h.id] {
            None => {
                assert(reg_view(self) =~= reg_view(old(self)));
                return Err(EngineError::Handle(String::from_str("handle is no longer live")));
            },
            Some(entry) => entry.refs,
        };
        let slot = self.slots.remove(h.id);
        if refs == 1 {
            self.slots.insert(h.id, None);
            proof {
                assert(reg_view(self) =~= reg_view(old(self)).update(h.id as int, None));
            }
            Ok(())
        } else {
            let entry = match slot {
                Some(e) => e,
                None => {
                    proof {
                        assert(false);
                    }
                    return Err(EngineError::Handle(String::new()));
                },
            };
            self.slots.insert(h.id, Some(Entry { value: entry.value, refs: refs - 1 }));
            proof {
                let old_e = (match reg_view(old(self))[h.id as int] {
                    Some(e) => e,
                    None => (AggregateModel::Frame(Seq::empty()), 0int),
                });
                assert(reg_view(self) =~= reg_view(old(self)).update(
                    h.id as int,
                    Some((old_e.0, old_e.1 - 1)),
                ));
            }
            Ok(())
        }
    }

    /// Whether the handle is the only reference to its slot: a mutating
    /// operation may work in place exactly then; otherwise it must clone
    /// first, so other live handles keep the value they observe.
    pub fn is_unique(&self, h: Handle) -> (r: Result<bool, EngineError>)
        ensures
            r is Ok <==> self.spec_live(h),
            r matches Err(e) ==> e is Handle,
            r matches Ok(u) ==> reg_view(self)[h.id as int] matches Some(e) && u == (e.1 == 1),
    {
        if h.id >= self.slots.len() {
            return Err(EngineError::Handle(String::from_str("handle is out of range")));
        }
        match &self.slots[h.id] {
            None => Err(EngineError::Handle(String::from_str("handle is no longer live"))),
            Some(entry) => Ok(entry.refs == 1),
        }
    }
}

} // verus!
