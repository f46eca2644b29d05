//! A split-ownership smart pointer whose release is governed by fraction
//! arithmetic instead of a shared counter.
//!
//! An [`Frc`] holds a value on the heap together with a share of its
//! ownership. Splitting a handle halves its share and hands the other half to
//! a new handle; merging adds two shares up again. The value can be taken
//! out only by a handle whose share is whole.

pub mod family;
pub mod frac;
pub mod share;
mod storage;
pub mod text;

use crate::frac::Frac;
use crate::share::Share;
use crate::storage::{address_of, reclaim, share_storage, store};
use crate::text::push_text;
use std::sync::Arc;
use vstd::prelude::*;

verus! {

/// A handle on a heap value that owns a share of it.
///
/// `addr` is the address of the allocation: two handles alias the same
/// value exactly if their addresses are equal. `frac` decides when the value
/// may be taken out; the storage itself stays alive as long as any handle on
/// it does, and is freed with the last of them if they are dropped without
/// having been merged.
#[derive(Debug)]
pub struct Frc<T: ?Sized> {
    item: Arc<T>,
    addr: usize,
    frac: Frac,
}

/// The two fractions whose merge was refused: the receiver's, then the
/// argument's.
#[derive(Debug, Clone, Copy)]
pub struct FracOverflowInfo(pub Frac, pub Frac);

/// Why two handles could not be merged.
#[derive(Debug, Clone, Copy)]
pub enum MergeErrKind {
    /// The combined share cannot be represented.
    FractionOverflow(FracOverflowInfo),
    /// The handles do not alias the same allocation.
    IncompatibleFrcs,
}

/// A refused merge. `other` is the handle that was to be merged, intact.
#[derive(Debug)]
pub struct MergeErr<T: ?Sized> {
    pub other: Frc<T>,
    kind: MergeErrKind,
}

impl MergeErrKind {
    /// The reason in words. An overflow names the two fractions.
    pub open spec fn message(self) -> Seq<char> {
        match self {
            MergeErrKind::FractionOverflow(FracOverflowInfo(lhs, rhs)) => {
                "The inner fractions are too different ("@ + Frac::rendered(lhs@) + " and "@
                    + Frac::rendered(rhs@)
                    + "), and adding them together causes an overflow!"@
            },
            MergeErrKind::IncompatibleFrcs => "Tried merging two Frcs owning different data!"@,
        }
    }

    /// The reason in words.
    pub fn to_string(&self) -> (r: String)
        ensures
            r@ == self.message(),
    {
        match self {
            MergeErrKind::FractionOverflow(FracOverflowInfo(lhs, rhs)) => {
                let mut text = "The inner fractions are too different (".to_owned();
                let left = lhs.to_string();
                push_text(&mut text, left.as_str());
                push_text(&mut text, " and ");
                let right = rhs.to_string();
                push_text(&mut text, right.as_str());
                push_text(&mut text, "), and adding them together causes an overflow!");
                text
            },
            MergeErrKind::IncompatibleFrcs => {
                "Tried merging two Frcs owning different data!".to_owned()
            },
        }
    }
}

impl<T: ?Sized> MergeErr<T> {
    /// The handle that was to be merged: the field `other`.
    pub closed spec fn rejected(&self) -> Frc<T> {
        self.other
    }

    /// Why the merge was refused.
    pub closed spec fn reason(&self) -> MergeErrKind {
        self.kind
    }

    /// The handle that was to be merged.
    pub fn into_other(self) -> (r: Frc<T>)
        ensures
            r == self.rejected(),
    {
        self.other
    }

    /// Why the merge was refused.
    pub fn kind(&self) -> (r: MergeErrKind)
        ensures
            r == self.reason(),
    {
        self.kind
    }

    /// The error in words.
    pub fn to_string(&self) -> (r: String)
        ensures
            r@ == self.reason().message(),
    {
        self.kind.to_string()
    }
}

impl<T: ?Sized> Frc<T> {
    /// The address of the allocation that this handle refers to.
    pub closed spec fn address(&self) -> usize {
        self.addr
    }

    /// The fraction that this handle holds.
    pub closed spec fn frac(&self) -> Frac {
        self.frac
    }

    /// The share of ownership that this handle holds.
    pub open spec fn share(&self) -> Share {
        self.frac()@
    }

    /// The value that this handle refers to.
    pub closed spec fn pointee(&self) -> &T {
        &*self.item
    }

    /// Whether `other` is this handle but for its share.
    pub open spec fn same_target(&self, other: &Self) -> bool {
        self.address() == other.address() && self.pointee() == other.pointee()
    }

    fn from_inner(item: Arc<T>) -> (r: Self)
        ensures
            r.pointee() == &*item,
            r.share() == Share::whole(),
            r.share().valid(),
    {
        let addr = address_of(&item);
        Frc { item, addr, frac: Frac::new() }
    }

    /// Moves a boxed value into shared storage and returns the handle that
    /// owns it whole.
    pub fn from_box(item: Box<T>) -> (r: Self)
        ensures
            r.pointee() == &*item,
            r.share() == Share::whole(),
            r.share().valid(),
    {
        Self::from_inner(store(item))
    }

    /// The address of the allocation, as a number.
    pub fn addr(&self) -> (r: usize)
        ensures
            r == self.address(),
    {
        self.addr
    }

    /// A copy of the fraction that this handle holds.
    pub fn fraction(&self) -> (r: Frac)
        ensures
            r == self.frac(),
    {
        self.frac
    }

    /// Whether this handle owns the value whole.
    pub fn is_whole(&self) -> (r: bool)
        ensures
            r == self.share().is_whole(),
            self.share().valid(),
    {
        self.frac.is_one()
    }

    /// Read access to the value.
    pub fn get(&self) -> (r: &T)
        ensures
            r == self.pointee(),
    {
        &*self.item
    }
}

impl<T> Frc<T> {
    /// Puts `v` on the heap and returns the handle that owns it whole.
    pub fn new(v: T) -> (r: Self)
        ensures
            *r.pointee() == v,
            r.share() == Share::whole(),
            r.share().valid(),
    {
        Self::from_inner(Arc::new(v))
    }

    /// Takes the value out if this handle owns it whole, releasing the
    /// storage; otherwise returns the handle as it was.
    ///
    /// A handle whose share is not whole is always returned. For a whole
    /// share the storage decides, as in `unwrap_unchecked`.
    pub fn try_unwrap(self) -> (r: Result<T, Self>)
        ensures
            match r {
                Ok(value) => self.share().is_whole() && value == *self.pointee(),
                Err(kept) => kept == self,
            },
    {
        if self.frac.is_one() {
            self.unwrap_unchecked()
        } else {
            Err(self)
        }
    }

    /// Takes the value out without asking whether this handle's share is
    /// whole, releasing the storage.
    ///
    /// The storage gives the value up only to its last handle: while
    /// another handle on the allocation is alive, this handle is returned as
    /// it was.
    pub fn unwrap_unchecked(self) -> (r: Result<T, Self>)
        ensures
            match r {
                Ok(value) => value == *self.pointee(),
                Err(kept) => kept == self,
            },
    {
        Self::reclaimed(reclaim(self.item), self.addr, self.frac)
    }

    /// What `unwrap_unchecked` makes of the storage's answer: the value
    /// that was given up, or the handle put together again around the
    /// storage that was kept.
    fn reclaimed(answer: Result<T, Arc<T>>, addr: usize, frac: Frac) -> (r: Result<T, Self>)
        ensures
            match answer {
                Ok(value) => r == Ok::<T, Self>(value),
                Err(item) => r == Err::<T, Self>(Frc { item, addr, frac }),
            },
    {
        match answer {
            Ok(value) => Ok(value),
            Err(item) => Err(Frc { item, addr, frac }),
        }
    }
}

impl<T: ?Sized> Frc<T> {
    /// Whether this handle can still be split.
    pub fn can_split(&self) -> (r: bool)
        ensures
            r == Frac::splittable(self.share()),
    {
        self.frac.den() < usize::MAX
    }

    /// Halves this handle's share and returns a new handle on the same
    /// value that holds the other half.
    pub fn split(&mut self) -> (r: Self)
        requires
            Frac::splittable(old(self).share()),
        ensures
            final(self).same_target(old(self)),
            r.same_target(old(self)),
            final(self).share() == old(self).share().half(),
            r.share() == old(self).share().half(),
            final(self).share().valid(),
    {
        match self.frac.split() {
            Ok(frac) => Frc { item: share_storage(&self.item), addr: self.addr, frac },
            Err(_) => unreached(),
        }
    }

    /// Adds the share of `other` to this handle's without asking whether the
    /// two refer to the same allocation; that is left to the caller.
    ///
    /// The merge is refused exactly if the two shares are not mergeable; this
    /// handle is then unchanged, and `other` comes back in the error.
    pub fn merge_unchecked(&mut self, other: Self) -> (r: Result<(), MergeErr<T>>)
        ensures
            final(self).same_target(old(self)),
            final(self).share().valid(),
            match r {
                Ok(()) => {
                    &&& Frac::mergeable(old(self).share(), other.share())
                    &&& final(self).share().is_sum_of(old(self).share(), other.share())
                },
                Err(e) => {
                    &&& !Frac::mergeable(old(self).share(), other.share())
                    &&& final(self).frac() == old(self).frac()
                    &&& e.rejected() == other
                    &&& e.reason() == MergeErrKind::FractionOverflow(
                        FracOverflowInfo(old(self).frac(), other.frac()),
                    )
                },
            },
    {
        let before = self.frac;
        match self.frac.merge(other.frac) {
            Ok(()) => Ok(()),
            Err(_) => Err(
                MergeErr {
                    kind: MergeErrKind::FractionOverflow(FracOverflowInfo(before, other.frac)),
                    other,
                },
            ),
        }
    }

    /// Adds the share of `other` to this handle's, if both refer to the same
    /// allocation and their shares are mergeable.
    ///
    /// Otherwise this handle is unchanged and the error holds `other`,
    /// intact, and the reason: handles on different allocations are
    /// incompatible; for handles on the same allocation whose shares are not
    /// mergeable the fraction overflows.
    pub fn try_merge(&mut self, other: Self) -> (r: Result<(), MergeErr<T>>)
        ensures
            final(self).same_target(old(self)),
            final(self).share().valid(),
            match r {
                Ok(()) => {
                    &&& old(self).address() == other.address()
                    &&& Frac::mergeable(old(self).share(), other.share())
                    &&& final(self).share().is_sum_of(old(self).share(), other.share())
                },
                Err(e) => {
                    &&& final(self).frac() == old(self).frac()
                    &&& e.rejected() == other
                    &&& e.reason() == if old(self).address() != other.address() {
                        MergeErrKind::IncompatibleFrcs
                    } else {
                        MergeErrKind::FractionOverflow(
                            FracOverflowInfo(old(self).frac(), other.frac()),
                        )
                    }
                    &&& old(self).address() != other.address() || !Frac::mergeable(
                        old(self).share(),
                        other.share(),
                    )
                },
            },
    {
        if self.addr == other.addr {
            self.merge_unchecked(other)
        } else {
            proof {
                use_type_invariant(&self.frac);
                self.frac.lemma_well_formed();
            }
            Err(MergeErr { kind: MergeErrKind::IncompatibleFrcs, other })
        }
    }

    /// Adds the share of `other`, a handle on the same allocation, to this
    /// handle's.
    pub fn merge(&mut self, other: Self)
        requires
            old(self).address() == other.address(),
            Frac::mergeable(old(self).share(), other.share()),
        ensures
            final(self).same_target(old(self)),
            final(self).share().is_sum_of(old(self).share(), other.share()),
            final(self).share().valid(),
    {
        match self.try_merge(other) {
            Ok(()) => {},
            Err(_) => unreached(),
        }
    }
}

impl<T: ?Sized> std::ops::Deref for Frc<T> {
    type Target = T;

    fn deref(&self) -> (r: &T)
        ensures
            r == self.pointee(),
    {
        &*self.item
    }
}

impl<T: ?Sized> From<Box<T>> for Frc<T> {
    fn from(item: Box<T>) -> (r: Self)
        ensures
            r.pointee() == &*item,
            r.share() == Share::whole(),
    {
        Self::from_box(item)
    }
}

impl<T: ?Sized> vstd::std_specs::convert::FromSpecImpl<Box<T>> for Frc<T> {
    open spec fn obeys_from_spec() -> bool {
        false
    }

    open spec fn from_spec(item: Box<T>) -> Self {
        arbitrary()
    }
}

} // verus!
