//! Reluctivities that depend on the magnetic flux.

use crate::linalg::scalar::Scalar;
use crate::problems::flux_elements::{inner, point_values, points_match, PointValues};
use crate::problems::flux_elements::{inner_product, FluxElement, MaterialPoint};
use crate::text::owned;
use vstd::prelude::*;
use vstd::string::*;

verus! {

/// A material: its reluctivity at a point for a squared flux, how this grows with the squared
/// flux, and the reluctivity of the linear problem that stands for it.
pub trait SpatialReluctivity<T: Scalar>: Sized {
    /// What is wrong with the material.
    spec fn fault(&self) -> Option<Seq<char>>;

    spec fn nu_spec(&self, point: Seq<T>, magnetic_flux_squared: T) -> T;

    spec fn d_nu_ds_spec(&self, point: Seq<T>, magnetic_flux_squared: T) -> T;

    spec fn linear_reference_spec(&self, point: Seq<T>) -> T;

    fn validate(&self) -> (checked: Result<(), String>)
        ensures
            match self.fault() {
                Some(message) => checked matches Err(text) && text@ == message,
                None => checked is Ok,
            },
    ;

    fn nu(&self, point: [T; 3], magnetic_flux_squared: T) -> (nu: T)
        ensures
            nu == self.nu_spec(point@, magnetic_flux_squared),
    ;

    fn d_nu_ds(&self, point: [T; 3], magnetic_flux_squared: T) -> (dnu: T)
        ensures
            dnu == self.d_nu_ds_spec(point@, magnetic_flux_squared),
    ;

    fn linear_reference_reluctivity(&self, point: [T; 3]) -> (nu: T)
        ensures
            nu == self.linear_reference_spec(point@),
    ;
}

/// Finite and above zero.
pub open spec fn positive<T: Scalar>(value: T) -> bool {
    value.is_finite_spec() && !value.is_at_most_spec(T::zero_spec())
}

/// Finite and not below zero.
pub open spec fn nonnegative<T: Scalar>(value: T) -> bool {
    value.is_finite_spec() && !value.is_below_spec(T::zero_spec())
}

/// A reluctivity that grows linearly with the squared flux.
pub open spec fn growing_nu<T: Scalar>(nu0: T, beta: T, s: T) -> T {
    nu0.times_spec(T::one_spec().plus_spec(beta.times_spec(s)))
}

/// A reluctivity `nu0 (1 + beta s)` for a squared flux `s`.
#[derive(Debug, Clone, Copy, PartialEq)]
pub struct NonlinearReluctivityLaw<T> {
    pub nu0: T,
    pub beta: T,
}

impl<T: Scalar> NonlinearReluctivityLaw<T> {
    /// What is wrong with the parameters.
    pub open spec fn parameter_fault(&self) -> Option<Seq<char>> {
        if !positive(self.nu0) {
            Some("nonlinear reluctivity nu0 must be finite and positive"@)
        } else if !nonnegative(self.beta) {
            Some("nonlinear reluctivity beta must be finite and nonnegative"@)
        } else {
            None
        }
    }

    /// The law with the given parameters, if these are in order.
    pub fn new(nu0: T, beta: T) -> (law: Result<Self, String>)
        ensures
            match (NonlinearReluctivityLaw { nu0, beta }).parameter_fault() {
                Some(message) => law matches Err(text) && text@ == message,
                None => law == Ok::<Self, String>(NonlinearReluctivityLaw { nu0, beta }),
            },
    {
        let law = NonlinearReluctivityLaw { nu0, beta };
        match law.check() {
            Err(text) => Err(text),
            Ok(_) => Ok(law),
        }
    }

    fn check(&self) -> (checked: Result<(), String>)
        ensures
            match self.parameter_fault() {
                Some(message) => checked matches Err(text) && text@ == message,
                None => checked is Ok,
            },
    {
        if !self.nu0.is_finite() || self.nu0.is_at_most(T::zero()) {
            return Err(owned("nonlinear reluctivity nu0 must be finite and positive"));
        }
        if !self.beta.is_finite() || self.beta.is_below(T::zero()) {
            return Err(owned("nonlinear reluctivity beta must be finite and nonnegative"));
        }
        Ok(())
    }
}

impl<T: Scalar> SpatialReluctivity<T> for NonlinearReluctivityLaw<T> {
    open spec fn fault(&self) -> Option<Seq<char>> {
        self.parameter_fault()
    }

    open spec fn nu_spec(&self, point: Seq<T>, magnetic_flux_squared: T) -> T {
        growing_nu(self.nu0, self.beta, magnetic_flux_squared)
    }

    open spec fn d_nu_ds_spec(&self, point: Seq<T>, magnetic_flux_squared: T) -> T {
        self.nu0.times_spec(self.beta)
    }

    open spec fn linear_reference_spec(&self, point: Seq<T>) -> T {
        self.nu0
    }

    fn validate(&self) -> (checked: Result<(), String>) {
        self.check()
    }

    fn nu(&self, point: [T; 3], magnetic_flux_squared: T) -> (nu: T) {
        self.nu0.times(T::one().plus(self.beta.times(magnetic_flux_squared)))
    }

    fn d_nu_ds(&self, point: [T; 3], magnetic_flux_squared: T) -> (dnu: T) {
        self.nu0.times(self.beta)
    }

    fn linear_reference_reluctivity(&self, point: [T; 3]) -> (nu: T) {
        self.nu0
    }
}

/// The reluctivity `nu0 (1 + beta s)` of an eddy-current problem.
#[derive(Debug, Clone, Copy, PartialEq)]
pub struct NonlinearEddyCurrentReluctivityLaw<T> {
    pub nu0: T,
    pub beta: T,
}

impl<T: Scalar> NonlinearEddyCurrentReluctivityLaw<T> {
    /// What is wrong with the parameters.
    pub open spec fn fault(&self) -> Option<Seq<char>> {
        if !positive(self.nu0) {
            Some("nonlinear eddy-current reluctivity nu0 must be finite and positive"@)
        } else if !nonnegative(self.beta) {
            Some("nonlinear eddy-current reluctivity beta must be finite and nonnegative"@)
        } else {
            None
        }
    }

    /// The law with the given parameters, if these are in order.
    pub fn new(nu0: T, beta: T) -> (law: Result<Self, String>)
        ensures
            match (NonlinearEddyCurrentReluctivityLaw { nu0, beta }).fault() {
                Some(message) => law matches Err(text) && text@ == message,
                None => law == Ok::<Self, String>(
                    NonlinearEddyCurrentReluctivityLaw { nu0, beta },
                ),
            },
    {
        let law = NonlinearEddyCurrentReluctivityLaw { nu0, beta };
        match law.validate() {
            Err(text) => Err(text),
            Ok(_) => Ok(law),
        }
    }

    pub fn validate(&self) -> (checked: Result<(), String>)
        ensures
            match self.fault() {
                Some(message) => checked matches Err(text) && text@ == message,
                None => checked is Ok,
            },
    {
        if !self.nu0.is_finite() || self.nu0.is_at_most(T::zero()) {
            return Err(
                owned("nonlinear eddy-current reluctivity nu0 must be finite and positive"),
            );
        }
        if !self.beta.is_finite() || self.beta.is_below(T::zero()) {
            return Err(
                owned("nonlinear eddy-current reluctivity beta must be finite and nonnegative"),
            );
        }
        Ok(())
    }

    /// The reluctivity for a squared flux.
    pub fn nu(&self, s: T) -> (nu: T)
        ensures
            nu == growing_nu(self.nu0, self.beta, s),
    {
        self.nu0.times(T::one().plus(self.beta.times(s)))
    }

    /// How the reluctivity grows with the squared flux.
    pub fn d_nu_ds(&self, s: T) -> (dnu: T)
        ensures
            dnu == self.nu0.times_spec(self.beta),
    {
        self.nu0.times(self.beta)
    }
}

/// The squared flux of a state on an element.
pub open spec fn flux_squared<T: Scalar>(element: FluxElement<T>, state: Seq<T>, dim: nat) -> T {
    let flux = element.flux_spec(state, dim);
    inner(flux, flux, dim as int)
}

/// The flux of a state on an element, with the reluctivity of a material there.
pub open spec fn material_point<T: Scalar, M: SpatialReluctivity<T>>(
    material: M,
    element: FluxElement<T>,
    barycenter: Seq<T>,
    state: Seq<T>,
    dim: nat,
) -> PointValues<T> {
    let s = flux_squared(element, state, dim);
    (
        element.flux_spec(state, dim),
        material.nu_spec(barycenter, s),
        material.d_nu_ds_spec(barycenter, s),
    )
}

/// The fluxes of a state with the reluctivity of a material on each element.
pub open spec fn material_values<T: Scalar, M: SpatialReluctivity<T>>(
    material: M,
    elements: Seq<FluxElement<T>>,
    barycenters: Seq<[T; 3]>,
    state: Seq<T>,
    dim: nat,
) -> Seq<PointValues<T>> {
    Seq::new(
        elements.len(),
        |e: int| material_point(material, elements[e], barycenters[e]@, state, dim),
    )
}

/// The fluxes of a state with the reluctivity of a material on each element.
pub fn material_points<T: Scalar, M: SpatialReluctivity<T>>(
    material: &M,
    elements: &[FluxElement<T>],
    barycenters: &[[T; 3]],
    state: &[T],
    dim: usize,
) -> (points: Vec<MaterialPoint<T>>)
    requires
        barycenters@.len() == elements@.len(),
        forall|e: int|
            0 <= e < elements@.len() ==> (#[trigger] elements@[e]).wf(
                state@.len() as int,
                dim as int,
            ),
    ensures
        point_values(points@) == material_values(
            *material,
            elements@,
            barycenters@,
            state@,
            dim as nat,
        ),
        points_match(elements@, points@, state@.len() as int, dim as int),
{
    let mut points: Vec<MaterialPoint<T>> = Vec::new();
    let mut e: usize = 0;
    while e < elements.len()
        invariant
            e <= elements@.len(),
            barycenters@.len() == elements@.len(),
            forall|i: int|
                0 <= i < elements@.len() ==> (#[trigger] elements@[i]).wf(
                    state@.len() as int,
                    dim as int,
                ),
            point_values(points@) =~= material_values(
                *material,
                elements@,
                barycenters@,
                state@,
                dim as nat,
            ).take(e as int),
            points@.len() == e,
            forall|i: int| 0 <= i < e ==> (#[trigger] points@[i]).flux@.len() == dim,
        decreases elements@.len() - e,
    {
        proof {
            assert(elements@[e as int].wf(state@.len() as int, dim as int));
        }
        let flux = elements[e].flux(state, dim);
        let s = inner_product(flux.as_slice(), flux.as_slice());
        let nu = material.nu(barycenters[e], s);
        let dnu = material.d_nu_ds(barycenters[e], s);
        let ghost before = points@;
        points.push(MaterialPoint { flux, nu, dnu });
        proof {
            assert forall|i: int| 0 <= i < e + 1 implies point_values(points@)[i]
                == material_values(*material, elements@, barycenters@, state@, dim as nat)[i] by {
                if i < e {
                    assert(points@[i] == before[i]);
                    assert(point_values(before)[i] == before[i]@);
                }
            }
        }
        e = e + 1;
    }
    points
}

} // verus!
