//! Strategies for turning data into the form it is stored in, and back.

use std::marker::PhantomData;
use vstd::prelude::*;

verus! {

/// Describes how to transform a [`Target`](`Strategy::Target`) into a
/// [`Stored`](`Strategy::Stored`) version, and back. Any implementation should form a
/// bijection between the two.
pub trait Strategy {
    /// The original version of the data to be stored.
    type Target;

    /// A stored version of the data which can be transformed back into a target.
    type Stored;

    /// Create a stored version of the provided target.
    fn store(target: &Self::Target) -> Self::Stored;

    /// Create a target version of the provided stored data.
    fn load(stored: &Self::Stored) -> Self::Target;

    /// Directly update an existing target with the data from the provided stored version: by
    /// default it is replaced by what `load` creates.
    fn update(target: &mut Self::Target, stored: &Self::Stored)
        default_ensures
            call_ensures(Self::load, (stored,), *final(target)),
    {
        *target = Self::load(stored);
    }
}

/// A [`Strategy`] based on [`Copy`]: the stored version is a copy.
pub struct CopyStrategy<T: Copy>(PhantomData<T>);

impl<T: Copy> Strategy for CopyStrategy<T> {
    type Target = T;

    type Stored = T;

    fn store(target: &T) -> (r: T)
        ensures
            r == *target,
    {
        *target
    }

    fn load(stored: &T) -> (r: T)
        ensures
            r == *stored,
    {
        *stored
    }
}

/// A [`Strategy`] based on [`Clone`]: the stored version is a clone.
pub struct CloneStrategy<T: Clone>(PhantomData<T>);

impl<T: Clone> Strategy for CloneStrategy<T> {
    type Target = T;

    type Stored = T;

    fn store(target: &T) -> (r: T)
        ensures
            cloned::<T>(*target, r),
    {
        target.clone()
    }

    fn load(stored: &T) -> (r: T)
        ensures
            cloned::<T>(*stored, r),
    {
        stored.clone()
    }

    fn update(target: &mut T, stored: &T)
        ensures
            cloned::<T>(*stored, *final(target)),
    {
        *target = stored.clone();
    }
}

} // verus!
