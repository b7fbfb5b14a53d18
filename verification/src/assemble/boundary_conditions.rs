//! Essential boundary conditions on Galerkin systems.

use crate::assemble::dofs::{
    fixed_flags, fixed_rhs, pair_dofs, pairs_within, reintroduced, unit_entries, zero_pairs,
    zeroed_at,
};
use crate::assemble::dofs::{
    drop_dofs_galmat, fix_dofs_coeff, fix_dofs_zero, indices_to_flags,
    reintroduce_dropped_dofs_galsols,
};
use crate::linalg::csr::compressed;
use crate::linalg::scalar::Scalar;
use crate::linalg::sparse::{restricted, unset_before};
use crate::linalg::sparse::CooMatrix;
use crate::topology::boundary::of_dim;
use crate::topology::complex::Complex;
use crate::topology::handle::lemma_subsequence_shorter;
use crate::topology::handle::SimplexIdx;
use crate::topology::simplex::{boundary_faces, is_subsequence, parity_sign, signed_views};
use crate::topology::simplex::{Dim, Sign};
use crate::topology::skeleton::{unique, unique_of_distinct};
use vstd::prelude::*;

verus! {

/// The selected dofs with their coefficients, in order.
pub open spec fn selected_pairs<T>(
    dofs: Seq<usize>,
    selected: Option<Seq<bool>>,
    coeffs: Seq<T>,
) -> Seq<(usize, T)>
    decreases dofs.len(),
{
    if dofs.len() == 0 {
        Seq::empty()
    } else {
        let before = selected_pairs(dofs.drop_last(), selected, coeffs);
        let dof = dofs.last();
        if selected is None || selected->0[dof as int] {
            before.push((dof, coeffs[dof as int]))
        } else {
            before
        }
    }
}

/// The flags of an optional selection.
pub open spec fn selection(selected: Option<&[bool]>) -> Option<Seq<bool>> {
    match selected {
        Some(flags) => Some(flags@),
        None => None,
    }
}

fn select_pairs<T: Copy>(dofs: &[usize], selected: Option<&[bool]>, coeffs: &[T]) -> (pairs: Vec<
    (usize, T),
>)
    requires
        forall|i: int| 0 <= i < dofs@.len() ==> (#[trigger] dofs@[i]) < coeffs@.len(),
        selected is Some ==> selected->0@.len() == coeffs@.len(),
    ensures
        pairs@ == selected_pairs(dofs@, selection(selected), coeffs@),
        pairs_within(pairs@, coeffs@.len() as int),
{
    let mut pairs: Vec<(usize, T)> = Vec::new();
    let ghost flags = selection(selected);
    let mut i: usize = 0;
    proof {
        assert(dofs@.take(0) =~= Seq::<usize>::empty());
    }
    while i < dofs.len()
        invariant
            i <= dofs@.len(),
            forall|j: int| 0 <= j < dofs@.len() ==> (#[trigger] dofs@[j]) < coeffs@.len(),
            selected is Some ==> selected->0@.len() == coeffs@.len(),
            flags == selection(selected),
            pairs@ == selected_pairs(dofs@.take(i as int), flags, coeffs@),
            pairs_within(pairs@, coeffs@.len() as int),
        decreases dofs@.len() - i,
    {
        let dof: usize = dofs[i];
        proof {
            assert(dofs@[i as int] < coeffs@.len());
            assert(dofs@.take(i + 1).drop_last() =~= dofs@.take(i as int));
            assert(dofs@.take(i + 1).last() == dof);
        }
        let wanted = match selected {
            Some(flags) => flags[dof],
            None => true,
        };
        if wanted {
            pairs.push((dof, coeffs[dof]));
        }
        i = i + 1;
    }
    proof {
        assert(dofs@.take(i as int) =~= dofs@);
    }
    pairs
}

/// The boundary vertices of a complex, each once.
pub open spec fn boundary_vertex_list(complex: &Complex) -> Seq<usize> {
    unique(complex.boundary_facet_vertices().flatten())
}

/// The indices of the boundary simplices of a grade.
pub open spec fn boundary_simplex_list(complex: &Complex, grade: int) -> Seq<usize> {
    if grade >= complex.dimension() {
        Seq::empty()
    } else if grade == complex.dimension() - 1 {
        complex.boundary_facet_kidxs()
    } else {
        unique(complex.boundary_facet_subsimplices(grade).flatten())
    }
}

/// Drops the boundary vertices from a Galerkin matrix of the vertices.
pub fn drop_boundary_dofs_galmat<T: Copy>(complex: &Complex, galmat: &mut CooMatrix<T>)
    requires
        complex.wf(),
        complex.dimension() >= 1,
        old(galmat).wf(),
        old(galmat).rows() == complex.simplices(0).len(),
        old(galmat).cols() == complex.simplices(0).len(),
    ensures
        ({
            let n = complex.simplices(0).len();
            let flags = Seq::new(
                n,
                |i: int| boundary_vertex_list(complex).contains(i as usize),
            );
            &&& final(galmat).wf()
            &&& final(galmat).rows() == unset_before(flags, n as int)
            &&& final(galmat).cols() == unset_before(flags, n as int)
            &&& final(galmat).entries() == restricted(old(galmat).entries(), flags, flags)
        }),
{
    let vertices = complex.boundary_vertices();
    let flags = indices_to_flags(vertices.as_slice(), galmat.nrows());
    drop_dofs_galmat(flags.as_slice(), galmat);
}

/// Puts the boundary vertices, as zeros, back into each column of a solution.
pub fn reintroduce_boundary_dofs_galsols<T: Scalar>(complex: &Complex, galsols: &mut Vec<Vec<T>>)
    requires
        complex.wf(),
        complex.dimension() >= 1,
        forall|j: int|
            0 <= j < old(galsols)@.len() ==> (#[trigger] old(galsols)@[j])@.len()
                + boundary_vertex_list(complex).len() == complex.simplices(0).len(),
    ensures
        final(galsols)@.len() == old(galsols)@.len(),
        forall|j: int|
            0 <= j < final(galsols)@.len() ==> (#[trigger] final(galsols)@[j])@ == reintroduced(
                old(galsols)@[j]@,
                zero_pairs(boundary_vertex_list(complex)),
            ),
{
    let vertices = complex.boundary_vertices();
    proof {
        unique_of_distinct(vertices@);
        complex.has_dimension();
        complex.machine_sized_levels(0);
    }
    reintroduce_dropped_dofs_galsols(vertices.as_slice(), galsols);
}

/// Fixes the boundary vertices of a Galerkin system to zero.
pub fn enforce_homogeneous_dirichlet_bc<T: Scalar>(
    complex: &Complex,
    galmat: &mut CooMatrix<T>,
    galvec: &mut Vec<T>,
)
    requires
        complex.wf(),
        complex.dimension() >= 1,
        old(galmat).wf(),
        old(galmat).rows() == complex.simplices(0).len(),
        old(galmat).cols() == complex.simplices(0).len(),
        old(galvec)@.len() == complex.simplices(0).len(),
    ensures
        final(galmat).wf(),
        final(galmat).rows() == old(galmat).rows(),
        final(galmat).cols() == old(galmat).cols(),
        final(galmat).entries() == zeroed_at(
            old(galmat).entries(),
            Seq::new(
                old(galmat).rows(),
                |i: int| boundary_vertex_list(complex).contains(i as usize),
            ),
        ) + unit_entries(boundary_vertex_list(complex)),
        final(galvec)@ == Seq::new(
            old(galvec)@.len(),
            |i: int|
                if boundary_vertex_list(complex).contains(i as usize) {
                    T::zero_spec()
                } else {
                    old(galvec)@[i]
                },
        ),
{
    let vertices = complex.boundary_vertices();
    fix_dofs_zero(vertices.as_slice(), galmat, galvec);
}

/// Fixes the selected boundary vertices of a Galerkin system to the coefficients given for
/// them; all boundary vertices if there is no selection.
pub fn enforce_dirichlet_bc_partial<T: Scalar>(
    complex: &Complex,
    boundary_coeffs: &[T],
    galmat: &mut CooMatrix<T>,
    galvec: &mut Vec<T>,
    selected: Option<&[bool]>,
)
    requires
        complex.wf(),
        complex.dimension() >= 1,
        boundary_coeffs@.len() == complex.simplices(0).len(),
        selected is Some ==> selected->0@.len() == complex.simplices(0).len(),
        old(galmat).wf(),
        old(galmat).rows() == complex.simplices(0).len(),
        old(galmat).cols() == complex.simplices(0).len(),
        old(galvec)@.len() == complex.simplices(0).len(),
    ensures
        ({
            let pairs = selected_pairs(
                boundary_vertex_list(complex),
                selection(selected),
                boundary_coeffs@,
            );
            &&& final(galmat).wf()
            &&& final(galmat).rows() == old(galmat).rows()
            &&& final(galmat).cols() == old(galmat).cols()
            &&& final(galmat).entries() == zeroed_at(
                old(galmat).entries(),
                fixed_flags(pairs, old(galmat).rows()),
            ) + unit_entries(pair_dofs(pairs))
            &&& final(galvec)@ == fixed_rhs(
                old(galvec)@,
                compressed(old(galmat).entries()),
                pairs,
            )
        }),
{
    let vertices = complex.boundary_vertices();
    let pairs = select_pairs(vertices.as_slice(), selected, boundary_coeffs);
    fix_dofs_coeff(pairs.as_slice(), galmat, galvec);
}

/// Fixes the boundary vertices of a Galerkin system to the coefficients given for them.
pub fn enforce_dirichlet_bc<T: Scalar>(
    complex: &Complex,
    boundary_coeffs: &[T],
    galmat: &mut CooMatrix<T>,
    galvec: &mut Vec<T>,
)
    requires
        complex.wf(),
        complex.dimension() >= 1,
        boundary_coeffs@.len() == complex.simplices(0).len(),
        old(galmat).wf(),
        old(galmat).rows() == complex.simplices(0).len(),
        old(galmat).cols() == complex.simplices(0).len(),
        old(galvec)@.len() == complex.simplices(0).len(),
    ensures
        ({
            let pairs = selected_pairs(boundary_vertex_list(complex), None, boundary_coeffs@);
            &&& final(galmat).wf()
            &&& final(galmat).rows() == old(galmat).rows()
            &&& final(galmat).cols() == old(galmat).cols()
            &&& final(galmat).entries() == zeroed_at(
                old(galmat).entries(),
                fixed_flags(pairs, old(galmat).rows()),
            ) + unit_entries(pair_dofs(pairs))
            &&& final(galvec)@ == fixed_rhs(
                old(galvec)@,
                compressed(old(galmat).entries()),
                pairs,
            )
        }),
{
    enforce_dirichlet_bc_partial(complex, boundary_coeffs, galmat, galvec, None);
}

/// Fixes the selected boundary simplices of a grade to the coefficients given for them; all
/// boundary simplices if there is no selection.
pub fn enforce_essential_bc<T: Scalar>(
    grade: Dim,
    complex: &Complex,
    boundary_coeffs: &[T],
    galmat: &mut CooMatrix<T>,
    galvec: &mut Vec<T>,
    selected: Option<&[bool]>,
)
    requires
        complex.wf(),
        grade <= complex.dimension(),
        boundary_coeffs@.len() == complex.simplices(grade as int).len(),
        selected is Some ==> selected->0@.len() == complex.simplices(grade as int).len(),
        old(galmat).wf(),
        old(galmat).rows() == complex.simplices(grade as int).len(),
        old(galmat).cols() == complex.simplices(grade as int).len(),
        old(galvec)@.len() == complex.simplices(grade as int).len(),
    ensures
        ({
            let pairs = selected_pairs(
                boundary_simplex_list(complex, grade as int),
                selection(selected),
                boundary_coeffs@,
            );
            &&& final(galmat).wf()
            &&& final(galmat).rows() == old(galmat).rows()
            &&& final(galmat).cols() == old(galmat).cols()
            &&& final(galmat).entries() == zeroed_at(
                old(galmat).entries(),
                fixed_flags(pairs, old(galmat).rows()),
            ) + unit_entries(pair_dofs(pairs))
            &&& final(galvec)@ == fixed_rhs(
                old(galvec)@,
                compressed(old(galmat).entries()),
                pairs,
            )
        }),
{
    let simplices = complex.boundary_subcomplex_simplices(grade);
    let ghost listed = boundary_simplex_list(complex, grade as int);
    let mut dofs: Vec<usize> = Vec::new();
    let mut i: usize = 0;
    proof {
        if grade >= complex.dimension() {
            assert(simplices@ =~= of_dim(grade as int, listed));
        }
    }
    while i < simplices.len()
        invariant
            i <= simplices@.len(),
            simplices@ == of_dim(grade as int, listed),
            forall|j: int|
                0 <= j < simplices@.len() ==> (#[trigger] simplices@[j]).kidx < complex.simplices(
                    grade as int,
                ).len(),
            dofs@ =~= listed.take(i as int),
            forall|j: int|
                0 <= j < dofs@.len() ==> (#[trigger] dofs@[j]) < complex.simplices(
                    grade as int,
                ).len(),
        decreases simplices@.len() - i,
    {
        let simplex: SimplexIdx = simplices[i];
        proof {
            assert(simplices@[i as int].kidx < complex.simplices(grade as int).len());
        }
        dofs.push(simplex.kidx);
        i = i + 1;
    }
    proof {
        assert(listed.take(i as int) =~= listed);
    }
    let pairs = select_pairs(dofs.as_slice(), selected, boundary_coeffs);
    fix_dofs_coeff(pairs.as_slice(), galmat, galvec);
}

/// The sign with which a boundary facet occurs in the boundary of its one parent cell.
pub fn boundary_facet_sign(complex: &Complex, facet: usize) -> (sign: Sign)
    requires
        complex.wf(),
        complex.dimension() >= 1,
        facet < complex.simplices(complex.dimension() - 1).len(),
        complex.on_boundary(facet as int),
    ensures
        ({
            let parent = complex.cocells(complex.dimension() - 1, facet as int)[0].kidx as int;
            let cell = complex.simplices(complex.dimension())[parent];
            exists|j: int|
                0 <= j <= complex.dimension() && #[trigger] cell.remove(j) == complex.simplices(
                    complex.dimension() - 1,
                )[facet as int] && sign.value() == parity_sign(j) && forall|l: int|
                    j < l <= complex.dimension() ==> cell.remove(l) != complex.simplices(
                        complex.dimension() - 1,
                    )[facet as int]
        }),
{
    let dim: Dim = complex.dim();
    let ghost target = complex.simplices(dim - 1)[facet as int];
    proof {
        complex.cocells_are_cells(dim - 1, facet as int, 0);
        complex.simplex_facts(dim as int);
        complex.simplex_facts(dim - 1);
    }
    let parent: SimplexIdx = complex.cocells_of(dim - 1, facet)[0];
    let simplex = complex.simplex_at(dim - 1, facet);
    let faces = complex.simplex_at(dim, parent.kidx).boundary();
    let ghost cell = complex.simplices(dim as int)[parent.kidx as int];
    proof {
        assert(cell.len() == dim + 1);
        assert(faces@.len() == signed_views(faces@).len());
        complex.cocells_hold_simplex(dim - 1, facet as int, parent.kidx as int);
        assert(complex.cocells(dim - 1, facet as int).contains(
            complex.cocells(dim - 1, facet as int)[0],
        ));
        lemma_facet_is_face(target, cell);
    }
    let mut i: usize = 0;
    while i < faces.len()
        invariant
            i <= faces@.len(),
            faces@.len() == cell.len(),
            cell.len() == dim + 1,
            dim == complex.dimension(),
            target == complex.simplices(dim - 1)[facet as int],
            simplex@ == target,
            signed_views(faces@) == boundary_faces(cell),
            exists|j: int| 0 <= j <= dim && #[trigger] cell.remove(j) == target,
            forall|l: int| dim - i < l <= dim ==> #[trigger] cell.remove(l) != target,
            cell == complex.simplices(complex.dimension())[complex.cocells(
                complex.dimension() - 1,
                facet as int,
            )[0].kidx as int],
        decreases faces@.len() - i,
    {
        proof {
            assert(signed_views(faces@)[i as int] == boundary_faces(
                cell,
            )[i as int]);
        }
        if faces[i].simplex.same(simplex) {
            proof {
                let j = dim - i;
                assert(cell.remove(j) == target);
            }
            return faces[i].sign;
        }
        i = i + 1;
    }
    proof {
        let j = choose|j: int| 0 <= j <= dim && #[trigger] cell.remove(j) == target;
        assert(cell.remove(j) != target);
        assert(false);
    }
    Sign::Pos
}

/// A subsequence with one entry less than the whole leaves out one entry.
pub proof fn lemma_facet_is_face(t: Seq<usize>, s: Seq<usize>)
    requires
        is_subsequence(t, s),
        t.len() + 1 == s.len(),
    ensures
        exists|j: int| 0 <= j < s.len() && #[trigger] s.remove(j) == t,
    decreases s.len(),
{
    let tail = s.drop_first();
    if t.len() == 0 {
        assert(s.remove(0) =~= t);
    } else if t[0] == s[0] && is_subsequence(t.drop_first(), tail) {
        lemma_facet_is_face(t.drop_first(), tail);
        let j = choose|j: int| 0 <= j < tail.len() && #[trigger] tail.remove(j) == t.drop_first();
        assert(s.remove(j + 1) =~= seq![s[0]] + tail.remove(j));
        assert(seq![s[0]] + t.drop_first() =~= t);
    } else {
        lemma_subsequence_shorter(t, tail);
        lemma_full_subsequence(t, tail);
        assert(s.remove(0) =~= tail);
    }
}

proof fn lemma_full_subsequence(t: Seq<usize>, s: Seq<usize>)
    requires
        is_subsequence(t, s),
        t.len() == s.len(),
    ensures
        t == s,
    decreases s.len(),
{
    if s.len() > 0 {
        let tail = s.drop_first();
        if t[0] == s[0] && is_subsequence(t.drop_first(), tail) {
            lemma_full_subsequence(t.drop_first(), tail);
            assert(t =~= seq![t[0]] + t.drop_first());
            assert(s =~= seq![s[0]] + tail);
        } else {
            lemma_subsequence_shorter(t, tail);
        }
    } else {
        assert(t =~= s);
    }
}

} // verus!
