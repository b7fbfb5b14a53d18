//! The fields of the source problem on a torus. A point of the torus comes with the sines and
//! cosines of multiples of its angles along the small and the large circles.

use crate::linalg::scalar::Scalar;
use vstd::prelude::*;

verus! {

/// A point of a torus whose large circles have radius one.
#[derive(Clone, Copy, Debug)]
pub struct TorusPoint<T> {
    pub coords: [T; 3],
    pub sin_theta: T,
    pub cos_theta: T,
    pub sin_2theta: T,
    pub cos_2theta: T,
    pub sin_2phi: T,
    pub cos_2phi: T,
    pub sin_3phi: T,
    pub cos_3phi: T,
}

impl<T: Scalar> TorusPoint<T> {
    /// The distance from the axis of the torus.
    pub open spec fn rho(&self) -> T {
        let x = self.coords@[0];
        let y = self.coords@[1];
        x.times_spec(x).plus_spec(y.times_spec(y)).square_root_spec()
    }
}

/// The distance of a point from the axis of the torus.
pub fn distance_from_axis<T: Scalar>(p: TorusPoint<T>) -> (rho: T)
    ensures
        rho == p.rho(),
{
    let x = p.coords[0];
    let y = p.coords[1];
    x.times(x).plus(y.times(y)).square_root()
}

/// The radius of the small circles.
pub open spec fn minor_radius_spec<T: Scalar>() -> T {
    T::from_count_spec(3).over_spec(T::from_count_spec(10))
}

/// The radius of the small circles.
pub fn minor_radius<T: Scalar>() -> (r: T)
    ensures
        r == minor_radius_spec::<T>(),
{
    T::from_count(3).over(T::from_count(10))
}

/// The differential of the angle along the small circles.
pub open spec fn torus_dtheta_spec<T: Scalar>(p: TorusPoint<T>) -> Seq<T> {
    let x = p.coords@[0];
    let y = p.coords@[1];
    let z = p.coords@[2];
    let s = p.rho();
    let big = T::one_spec();
    let q = s.minus_spec(big).times_spec(s.minus_spec(big)).plus_spec(z.times_spec(z));
    seq![
        z.negated_spec().times_spec(x).over_spec(s.times_spec(q)),
        z.negated_spec().times_spec(y).over_spec(s.times_spec(q)),
        s.minus_spec(big).over_spec(q),
    ]
}

/// The differential of the angle along the small circles.
pub fn torus_dtheta<T: Scalar>(p: TorusPoint<T>) -> (coeffs: [T; 3])
    ensures
        coeffs@ == torus_dtheta_spec(p),
{
    let x = p.coords[0];
    let y = p.coords[1];
    let z = p.coords[2];
    let s = distance_from_axis(p);
    let big = T::one();
    let q = s.minus(big).times(s.minus(big)).plus(z.times(z));
    let coeffs = [
        z.negated().times(x).over(s.times(q)),
        z.negated().times(y).over(s.times(q)),
        s.minus(big).over(q),
    ];
    proof {
        assert(coeffs@ =~= torus_dtheta_spec(p));
    }
    coeffs
}

/// The differential of the angle along the large circles.
pub open spec fn torus_dphi_spec<T: Scalar>(p: TorusPoint<T>) -> Seq<T> {
    let x = p.coords@[0];
    let y = p.coords@[1];
    let s = p.rho();
    let none = T::zero_spec();
    seq![
        y.negated_spec().over_spec(s.times_spec(s)),
        x.over_spec(s.times_spec(s)),
        none,
    ]
}

/// The differential of the angle along the large circles.
pub fn torus_dphi<T: Scalar>(p: TorusPoint<T>) -> (coeffs: [T; 3])
    ensures
        coeffs@ == torus_dphi_spec(p),
{
    let x = p.coords[0];
    let y = p.coords[1];
    let s = distance_from_axis(p);
    let none = T::zero();
    let coeffs = [
        y.negated().over(s.times(s)),
        x.over(s.times(s)),
        none,
    ];
    proof {
        assert(coeffs@ =~= torus_dphi_spec(p));
    }
    coeffs
}

/// A one-form with the given coefficients for the two angles, in space.
pub open spec fn chart_one_form_to_xyz_spec<T: Scalar>(p: TorusPoint<T>, a_theta: T, a_phi: T) -> Seq<T> {
    let t = torus_dtheta_spec(p);
    let f = torus_dphi_spec(p);
    let t0 = t[0];
    let t1 = t[1];
    let t2 = t[2];
    let f0 = f[0];
    let f1 = f[1];
    let f2 = f[2];
    seq![
        a_theta.times_spec(t0).plus_spec(a_phi.times_spec(f0)),
        a_theta.times_spec(t1).plus_spec(a_phi.times_spec(f1)),
        a_theta.times_spec(t2).plus_spec(a_phi.times_spec(f2)),
    ]
}

/// A one-form with the given coefficients for the two angles, in space.
pub fn chart_one_form_to_xyz<T: Scalar>(p: TorusPoint<T>, a_theta: T, a_phi: T) -> (coeffs: [T; 3])
    ensures
        coeffs@ == chart_one_form_to_xyz_spec(p, a_theta, a_phi),
{
    let t = torus_dtheta(p);
    let f = torus_dphi(p);
    let t0 = t[0];
    let t1 = t[1];
    let t2 = t[2];
    let f0 = f[0];
    let f1 = f[1];
    let f2 = f[2];
    let coeffs = [
        a_theta.times(t0).plus(a_phi.times(f0)),
        a_theta.times(t1).plus(a_phi.times(f1)),
        a_theta.times(t2).plus(a_phi.times(f2)),
    ];
    proof {
        assert(coeffs@ =~= chart_one_form_to_xyz_spec(p, a_theta, a_phi));
    }
    coeffs
}

/// A two-form with the given coefficient for the two angles, in space.
pub open spec fn chart_two_form_to_xyz_spec<T: Scalar>(p: TorusPoint<T>, coeff_theta_phi: T) -> Seq<T> {
    let t = torus_dtheta_spec(p);
    let f = torus_dphi_spec(p);
    let t0 = t[0];
    let t1 = t[1];
    let t2 = t[2];
    let f0 = f[0];
    let f1 = f[1];
    let f2 = f[2];
    seq![
        coeff_theta_phi.times_spec(t0.times_spec(f1).minus_spec(t1.times_spec(f0))),
        coeff_theta_phi.times_spec(t0.times_spec(f2).minus_spec(t2.times_spec(f0))),
        coeff_theta_phi.times_spec(t1.times_spec(f2).minus_spec(t2.times_spec(f1))),
    ]
}

/// A two-form with the given coefficient for the two angles, in space.
pub fn chart_two_form_to_xyz<T: Scalar>(p: TorusPoint<T>, coeff_theta_phi: T) -> (coeffs: [T; 3])
    ensures
        coeffs@ == chart_two_form_to_xyz_spec(p, coeff_theta_phi),
{
    let t = torus_dtheta(p);
    let f = torus_dphi(p);
    let t0 = t[0];
    let t1 = t[1];
    let t2 = t[2];
    let f0 = f[0];
    let f1 = f[1];
    let f2 = f[2];
    let coeffs = [
        coeff_theta_phi.times(t0.times(f1).minus(t1.times(f0))),
        coeff_theta_phi.times(t0.times(f2).minus(t2.times(f0))),
        coeff_theta_phi.times(t1.times(f2).minus(t2.times(f1))),
    ];
    proof {
        assert(coeffs@ =~= chart_two_form_to_xyz_spec(p, coeff_theta_phi));
    }
    coeffs
}

/// The coefficient of the solution along the small circles.
pub open spec fn solution_theta_spec<T: Scalar>(p: TorusPoint<T>) -> T {
    let r = minor_radius_spec::<T>();
    let rho = p.rho();
    T::from_count_spec(2).times_spec(p.cos_2theta).times_spec(p.cos_3phi)
        .minus_spec(
            T::from_count_spec(2)
                .times_spec(r)
                .times_spec(p.cos_theta)
                .over_spec(rho)
                .times_spec(p.cos_2phi),
        )
}

/// The coefficient of the solution along the small circles.
pub fn solution_theta<T: Scalar>(p: TorusPoint<T>) -> (value: T)
    ensures
        value == solution_theta_spec(p),
{
    let r = minor_radius::<T>();
    let rho = distance_from_axis(p);
    T::from_count(2).times(p.cos_2theta).times(p.cos_3phi)
        .minus(T::from_count(2).times(r).times(p.cos_theta).over(rho).times(p.cos_2phi))
}

/// The coefficient of the solution along the large circles.
pub open spec fn solution_phi_spec<T: Scalar>(p: TorusPoint<T>) -> T {
    let r = minor_radius_spec::<T>();
    let rho = p.rho();
    T::from_count_spec(3).negated_spec().times_spec(p.sin_2theta).times_spec(p.sin_3phi)
        .minus_spec(rho.over_spec(r).times_spec(p.sin_theta).times_spec(p.sin_2phi))
}

/// The coefficient of the solution along the large circles.
pub fn solution_phi<T: Scalar>(p: TorusPoint<T>) -> (value: T)
    ensures
        value == solution_phi_spec(p),
{
    let r = minor_radius::<T>();
    let rho = distance_from_axis(p);
    T::from_count(3).negated().times(p.sin_2theta).times(p.sin_3phi)
        .minus(rho.over(r).times(p.sin_theta).times(p.sin_2phi))
}

/// The coefficient of the exterior derivative of the solution.
pub open spec fn derivative_coeff_spec<T: Scalar>(p: TorusPoint<T>) -> T {
    let r = minor_radius_spec::<T>();
    let rho = p.rho();
    p.sin_theta.times_spec(p.sin_theta)
        .minus_spec(
            rho.over_spec(r)
                .plus_spec(T::from_count_spec(4).times_spec(r).over_spec(rho))
                .times_spec(p.cos_theta),
        )
        .times_spec(p.sin_2phi)
}

/// The coefficient of the exterior derivative of the solution.
pub fn derivative_coeff<T: Scalar>(p: TorusPoint<T>) -> (value: T)
    ensures
        value == derivative_coeff_spec(p),
{
    let r = minor_radius::<T>();
    let rho = distance_from_axis(p);
    p.sin_theta.times(p.sin_theta)
        .minus(rho.over(r).plus(T::from_count(4).times(r).over(rho)).times(p.cos_theta))
        .times(p.sin_2phi)
}

/// The coefficient of the source along the small circles.
pub open spec fn source_theta_spec<T: Scalar>(p: TorusPoint<T>) -> T {
    let r = minor_radius_spec::<T>();
    let rho = p.rho();
    let rr = r.times_spec(r);
    let rho2 = rho.times_spec(rho);
    let ss = p.sin_theta.times_spec(p.sin_theta);
    let b = T::from_count_spec(1).over_spec(rr)
        .plus_spec(T::from_count_spec(4).over_spec(rho2)).times_spec(p.cos_theta)
        .minus_spec(ss.over_spec(r.times_spec(rho)));
    let a_prime = T::from_count_spec(2)
        .times_spec(
            T::from_count_spec(4).over_spec(rr).plus_spec(T::from_count_spec(9).over_spec(rho2)),
        )
        .times_spec(p.cos_2theta)
        .plus_spec(
            T::from_count_spec(18)
                .times_spec(r)
                .times_spec(p.sin_theta)
                .times_spec(p.sin_2theta)
                .over_spec(rho2.times_spec(rho)),
        )
        .plus_spec(
            T::from_count_spec(2)
                .times_spec(
                    p.cos_theta.times_spec(p.cos_2theta)
                        .minus_spec(
                            T::from_count_spec(2).times_spec(p.sin_theta).times_spec(p.sin_2theta),
                        ),
                )
                .over_spec(r.times_spec(rho)),
        )
        .plus_spec(T::from_count_spec(2).times_spec(ss).times_spec(p.cos_2theta).over_spec(rho2));
    a_prime.times_spec(p.cos_3phi)
        .minus_spec(
            T::from_count_spec(2).times_spec(r).over_spec(rho).times_spec(b).times_spec(p.cos_2phi),
        )
}

/// The coefficient of the source along the small circles.
pub fn source_theta<T: Scalar>(p: TorusPoint<T>) -> (value: T)
    ensures
        value == source_theta_spec(p),
{
    let r = minor_radius::<T>();
    let rho = distance_from_axis(p);
    let rr = r.times(r);
    let rho2 = rho.times(rho);
    let ss = p.sin_theta.times(p.sin_theta);
    let b = T::from_count(1).over(rr)
        .plus(T::from_count(4).over(rho2)).times(p.cos_theta)
        .minus(ss.over(r.times(rho)));
    let a_prime = T::from_count(2)
        .times(T::from_count(4).over(rr).plus(T::from_count(9).over(rho2))).times(p.cos_2theta)
        .plus(
            T::from_count(18).times(r).times(p.sin_theta).times(p.sin_2theta).over(rho2.times(rho)),
        )
        .plus(
            T::from_count(2)
                .times(
                    p.cos_theta.times(p.cos_2theta)
                        .minus(T::from_count(2).times(p.sin_theta).times(p.sin_2theta)),
                )
                .over(r.times(rho)),
        )
        .plus(T::from_count(2).times(ss).times(p.cos_2theta).over(rho2));
    a_prime.times(p.cos_3phi).minus(T::from_count(2).times(r).over(rho).times(b).times(p.cos_2phi))
}

/// The coefficient of the source along the large circles.
pub open spec fn source_phi_spec<T: Scalar>(p: TorusPoint<T>) -> T {
    let r = minor_radius_spec::<T>();
    let rho = p.rho();
    let rr = r.times_spec(r);
    let rho2 = rho.times_spec(rho);
    let ss = p.sin_theta.times_spec(p.sin_theta);
    let a = T::from_count_spec(4).over_spec(rr)
        .plus_spec(T::from_count_spec(9).over_spec(rho2)).times_spec(p.sin_2theta)
        .plus_spec(
            T::from_count_spec(2)
                .times_spec(p.sin_theta)
                .times_spec(p.cos_2theta)
                .over_spec(r.times_spec(rho)),
        );
    let b_prime = T::from_count_spec(8).times_spec(r).times_spec(p.sin_theta)
        .times_spec(p.cos_theta).over_spec(rho2.times_spec(rho))
        .minus_spec(
            T::from_count_spec(1).over_spec(rr)
                .plus_spec(T::from_count_spec(4).over_spec(rho2)).times_spec(p.sin_theta),
        )
        .minus_spec(
            T::from_count_spec(2)
                .times_spec(p.sin_theta)
                .times_spec(p.cos_theta)
                .over_spec(r.times_spec(rho)),
        )
        .minus_spec(ss.times_spec(p.sin_theta).over_spec(rho2));
    T::from_count_spec(3).negated_spec().times_spec(a).times_spec(p.sin_3phi)
        .plus_spec(rho.over_spec(r).times_spec(b_prime).times_spec(p.sin_2phi))
}

/// The coefficient of the source along the large circles.
pub fn source_phi<T: Scalar>(p: TorusPoint<T>) -> (value: T)
    ensures
        value == source_phi_spec(p),
{
    let r = minor_radius::<T>();
    let rho = distance_from_axis(p);
    let rr = r.times(r);
    let rho2 = rho.times(rho);
    let ss = p.sin_theta.times(p.sin_theta);
    let a = T::from_count(4).over(rr)
        .plus(T::from_count(9).over(rho2)).times(p.sin_2theta)
        .plus(T::from_count(2).times(p.sin_theta).times(p.cos_2theta).over(r.times(rho)));
    let b_prime = T::from_count(8).times(r).times(p.sin_theta).times(p.cos_theta)
        .over(rho2.times(rho))
        .minus(T::from_count(1).over(rr).plus(T::from_count(4).over(rho2)).times(p.sin_theta))
        .minus(T::from_count(2).times(p.sin_theta).times(p.cos_theta).over(r.times(rho)))
        .minus(ss.times(p.sin_theta).over(rho2));
    T::from_count(3).negated().times(a).times(p.sin_3phi)
        .plus(rho.over(r).times(b_prime).times(p.sin_2phi))
}

/// The solution of the source problem, a one-form in space.
pub fn torus_solution<T: Scalar>(p: TorusPoint<T>) -> (coeffs: [T; 3])
    ensures
        coeffs@ == chart_one_form_to_xyz_spec(p, solution_theta_spec(p), solution_phi_spec(p)),
{
    chart_one_form_to_xyz(p, solution_theta(p), solution_phi(p))
}

/// The exterior derivative of the solution, a two-form in space.
pub fn torus_dif_solution<T: Scalar>(p: TorusPoint<T>) -> (coeffs: [T; 3])
    ensures
        coeffs@ == chart_two_form_to_xyz_spec(p, derivative_coeff_spec(p)),
{
    chart_two_form_to_xyz(p, derivative_coeff(p))
}

/// The source of the problem, a one-form in space.
pub fn torus_source<T: Scalar>(p: TorusPoint<T>) -> (coeffs: [T; 3])
    ensures
        coeffs@ == chart_one_form_to_xyz_spec(p, source_theta_spec(p), source_phi_spec(p)),
{
    chart_one_form_to_xyz(p, source_theta(p), source_phi(p))
}

} // verus!
