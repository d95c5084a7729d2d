//! Phantom-type [`Mode`] markers — `Affine` (`!Send`) vs `Stealing`
//! (`Send + Sync`).

use vstd::prelude::*;

use core::marker::PhantomData;
use std::rc::Rc;

use crate::task::sealed::Sealed;

verus! {

/// `!Send` marker — the task is pinned to the worker that spawned it.
///
/// The `Rc` phantom blocks the auto-derived `Send` and `Sync` impls.
pub struct Affine(PhantomData<Rc<()>>);

/// `Send + Sync` marker — the task may be stolen by another worker.
pub struct Stealing(PhantomData<()>);

/// Sealed marker trait selecting between [`Affine`] and [`Stealing`].
pub trait Mode: Sealed {}

impl Sealed for Affine {}

impl Mode for Affine {}

impl Sealed for Stealing {}

impl Mode for Stealing {}

} // verus!
