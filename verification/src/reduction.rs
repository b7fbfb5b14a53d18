//! Elimination of degrees of freedom (dofs) with prescribed values.

use crate::linalg::scalar::Scalar;
use crate::text::decimal;
use crate::text::{owned, push_decimal};
use vstd::prelude::*;
use vstd::string::*;

verus! {

/// A dof with its prescribed value.
#[derive(Debug, Clone, Copy, PartialEq)]
pub struct PrescribedDof<T> {
    pub index: usize,
    pub value: T,
}

/// Prescribed dofs of the state and of the auxiliary unknown of a problem.
#[derive(Debug, Clone, PartialEq)]
pub struct EssentialBoundarySpec<T> {
    pub state: Vec<PrescribedDof<T>>,
    pub auxiliary: Vec<PrescribedDof<T>>,
}

impl<T> Default for EssentialBoundarySpec<T> {
    /// Nothing is prescribed.
    fn default() -> (boundary: Self)
        ensures
            boundary.state@.len() == 0,
            boundary.auxiliary@.len() == 0,
    {
        EssentialBoundarySpec { state: Vec::new(), auxiliary: Vec::new() }
    }
}

/// The dofs of a list of prescribed values.
pub open spec fn dof_indices<T>(prescribed: Seq<PrescribedDof<T>>) -> Seq<usize> {
    Seq::new(prescribed.len(), |i: int| prescribed[i].index)
}

/// What is wrong with entry `i` of a list of prescribed dofs of a space of dimension `dim`.
pub open spec fn prescribed_fault<T: Scalar>(
    label: Seq<char>,
    dim: nat,
    prescribed: Seq<PrescribedDof<T>>,
    i: int,
) -> Option<Seq<char>> {
    let entry = prescribed[i];
    let subject = label + " prescribed dof "@ + decimal(entry.index as nat);
    if entry.index >= dim {
        Some(subject + " is outside dimension "@ + decimal(dim))
    } else if !entry.value.is_finite_spec() {
        Some(subject + " has non-finite value "@ + entry.value.display_spec())
    } else if dof_indices(prescribed).take(i).contains(entry.index) {
        Some(subject + " appears more than once"@)
    } else {
        None
    }
}

/// What is wrong with the first faulty entry among the first `n`, if there is one.
pub open spec fn first_prescribed_fault<T: Scalar>(
    label: Seq<char>,
    dim: nat,
    prescribed: Seq<PrescribedDof<T>>,
    n: int,
) -> Option<Seq<char>>
    decreases n,
{
    if n <= 0 {
        None
    } else {
        let earlier = first_prescribed_fault(label, dim, prescribed, n - 1);
        if earlier is Some {
            earlier
        } else {
            prescribed_fault(label, dim, prescribed, n - 1)
        }
    }
}

/// What is wrong with a list of prescribed dofs, if anything.
pub open spec fn prescribed_dofs_fault<T: Scalar>(
    label: Seq<char>,
    dim: nat,
    prescribed: Seq<PrescribedDof<T>>,
) -> Option<Seq<char>> {
    first_prescribed_fault(label, dim, prescribed, prescribed.len() as int)
}

/// The list of prescribed dofs is in order: all inside the space, finite, none twice.
pub open spec fn prescribed_ok<T: Scalar>(dim: nat, prescribed: Seq<PrescribedDof<T>>) -> bool {
    &&& dof_indices(prescribed).no_duplicates()
    &&& forall|i: int|
        0 <= i < prescribed.len() ==> (#[trigger] prescribed[i]).index < dim
            && prescribed[i].value.is_finite_spec()
}

proof fn lemma_later_fault<T: Scalar>(
    label: Seq<char>,
    dim: nat,
    prescribed: Seq<PrescribedDof<T>>,
    n: int,
    m: int,
)
    requires
        n <= m,
        first_prescribed_fault(label, dim, prescribed, n) is Some,
    ensures
        first_prescribed_fault(label, dim, prescribed, m) == first_prescribed_fault(
            label,
            dim,
            prescribed,
            n,
        ),
    decreases m - n,
{
    if n < m {
        lemma_later_fault(label, dim, prescribed, n, m - 1);
    }
}

/// A list of prescribed dofs has no fault exactly if every dof is inside the space, every
/// value is finite and no dof is listed twice.
pub proof fn no_fault_means_ok<T: Scalar>(
    label: Seq<char>,
    dim: nat,
    prescribed: Seq<PrescribedDof<T>>,
)
    ensures
        prescribed_dofs_fault(label, dim, prescribed) is None <==> prescribed_ok(dim, prescribed),
{
    lemma_prefix_fault(label, dim, prescribed, prescribed.len() as int);
    let ids = dof_indices(prescribed);
    if prescribed_dofs_fault(label, dim, prescribed) is None {
        assert forall|i: int, j: int| 0 <= i < j < ids.len() implies ids[i] != ids[j] by {
            if ids[i] == ids[j] {
                assert(prescribed_fault(label, dim, prescribed, j) is None);
                assert(ids.take(j)[i] == ids[j]);
                assert(ids.take(j).contains(prescribed[j].index));
            }
        }
        assert forall|i: int| 0 <= i < prescribed.len() implies (#[trigger] prescribed[i]).index
            < dim && prescribed[i].value.is_finite_spec() by {
            assert(prescribed_fault(label, dim, prescribed, i) is None);
        }
    }
    if prescribed_ok(dim, prescribed) {
        assert forall|i: int| 0 <= i < prescribed.len() implies prescribed_fault(
            label,
            dim,
            prescribed,
            i,
        ) is None by {
            assert(prescribed[i].index < dim);
            if ids.take(i).contains(prescribed[i].index) {
                let j = choose|j: int| 0 <= j < i && ids.take(i)[j] == prescribed[i].index;
                assert(ids[j] == ids[i]);
            }
        }
    }
}

proof fn lemma_prefix_fault<T: Scalar>(
    label: Seq<char>,
    dim: nat,
    prescribed: Seq<PrescribedDof<T>>,
    n: int,
)
    requires
        0 <= n <= prescribed.len(),
    ensures
        first_prescribed_fault(label, dim, prescribed, n) is None <==> forall|i: int|
            0 <= i < n ==> prescribed_fault(label, dim, prescribed, i) is None,
    decreases n,
{
    if n > 0 {
        lemma_prefix_fault(label, dim, prescribed, n - 1);
    }
}

fn subject(label: &str, index: usize) -> (text: String)
    ensures
        text@ == label@ + " prescribed dof "@ + decimal(index as nat),
{
    let mut text = owned(label);
    text.append(" prescribed dof ");
    push_decimal(&mut text, index);
    text
}

/// Checks a list of prescribed dofs of a space of dimension `full_dimension`.
pub fn validate_prescribed_dofs<T: Scalar>(
    label: &str,
    full_dimension: usize,
    prescribed: &[PrescribedDof<T>],
) -> (checked: Result<(), String>)
    ensures
        match checked {
            Ok(_) => prescribed_dofs_fault(label@, full_dimension as nat, prescribed@) is None,
            Err(e) => prescribed_dofs_fault(label@, full_dimension as nat, prescribed@) == Some(e@),
        },
{
    let mut seen: Vec<bool> = vec![false; full_dimension];
    let ghost ids = dof_indices(prescribed@);
    let mut i: usize = 0;
    proof {
        assert(ids.take(0) =~= Seq::<usize>::empty());
    }
    while i < prescribed.len()
        invariant
            i <= prescribed@.len(),
            ids == dof_indices(prescribed@),
            seen@.len() == full_dimension,
            forall|v: usize|
                v < full_dimension ==> (#[trigger] seen@[v as int] <==> ids.take(i as int).contains(
                    v,
                )),
            first_prescribed_fault(label@, full_dimension as nat, prescribed@, i as int) is None,
        decreases prescribed@.len() - i,
    {
        let entry = prescribed[i];
        let ghost n = (i + 1) as int;
        let ghost fault = prescribed_fault(label@, full_dimension as nat, prescribed@, i as int);
        proof {
            if fault is Some {
                lemma_later_fault(
                    label@,
                    full_dimension as nat,
                    prescribed@,
                    n,
                    prescribed@.len() as int,
                );
            }
        }
        if entry.index >= full_dimension {
            let mut message = subject(label, entry.index);
            message.append(" is outside dimension ");
            push_decimal(&mut message, full_dimension);
            return Err(message);
        }
        if !entry.value.is_finite() {
            let mut message = subject(label, entry.index);
            message.append(" has non-finite value ");
            message.append(entry.value.display().as_str());
            return Err(message);
        }
        if seen[entry.index] {
            let mut message = subject(label, entry.index);
            message.append(" appears more than once");
            return Err(message);
        }
        seen[entry.index] = true;
        proof {
            assert(ids.take(n) =~= ids.take(i as int).push(entry.index));
            assert forall|v: usize| v < full_dimension implies (#[trigger] seen@[v as int]
                <==> ids.take(n).contains(v)) by {
                if ids.take(i as int).contains(v) {
                    let j = choose|j: int| 0 <= j < i && ids.take(i as int)[j] == v;
                    assert(ids.take(n)[j] == v);
                }
                if v == entry.index {
                    assert(ids.take(n)[i as int] == v);
                }
            }
        }
        i = i + 1;
    }
    Ok(())
}


impl<T: Copy> EssentialBoundarySpec<T> {
    /// The specification that prescribes nothing.
    pub fn none() -> (spec_: Self)
        ensures
            spec_.state@ == Seq::<PrescribedDof<T>>::empty(),
            spec_.auxiliary@ == Seq::<PrescribedDof<T>>::empty(),
    {
        EssentialBoundarySpec { state: Vec::new(), auxiliary: Vec::new() }
    }

    /// Prescribes further dofs of the state.
    pub fn with_state(self, prescribed: Vec<PrescribedDof<T>>) -> (extended: Self)
        ensures
            extended.state@ == self.state@ + prescribed@,
            extended.auxiliary@ == self.auxiliary@,
    {
        let mut state = self.state;
        let mut added = prescribed;
        state.append(&mut added);
        EssentialBoundarySpec { state, auxiliary: self.auxiliary }
    }

    /// Prescribes further dofs of the auxiliary unknown.
    pub fn with_auxiliary(self, prescribed: Vec<PrescribedDof<T>>) -> (extended: Self)
        ensures
            extended.state@ == self.state@,
            extended.auxiliary@ == self.auxiliary@ + prescribed@,
    {
        let mut auxiliary = self.auxiliary;
        let mut added = prescribed;
        auxiliary.append(&mut added);
        EssentialBoundarySpec { state: self.state, auxiliary }
    }
}

impl<T: Scalar> EssentialBoundarySpec<T> {
    /// What is wrong with the specification: the state is looked at first.
    pub open spec fn fault(&self, state_dimension: nat, auxiliary_dimension: nat) -> Option<
        Seq<char>,
    > {
        let state = prescribed_dofs_fault("state"@, state_dimension, self.state@);
        if state is Some {
            state
        } else {
            prescribed_dofs_fault("auxiliary"@, auxiliary_dimension, self.auxiliary@)
        }
    }

    /// Checks both lists of prescribed dofs.
    pub fn validate(&self, state_dimension: usize, auxiliary_dimension: usize) -> (checked: Result<
        (),
        String,
    >)
        ensures
            match checked {
                Ok(_) => self.fault(state_dimension as nat, auxiliary_dimension as nat) is None,
                Err(e) => self.fault(state_dimension as nat, auxiliary_dimension as nat) == Some(
                    e@,
                ),
            },
    {
        match validate_prescribed_dofs("state", state_dimension, self.state.as_slice()) {
            Ok(_) => {},
            Err(e) => {
                return Err(e);
            },
        }
        validate_prescribed_dofs("auxiliary", auxiliary_dimension, self.auxiliary.as_slice())
    }
}

/// Which dofs of a space are unknown and which have prescribed values.
#[derive(Debug, Clone, PartialEq)]
pub struct DofLayout<T> {
    pub full_dimension: usize,
    pub active_dofs: Vec<usize>,
    pub prescribed_dofs: Vec<PrescribedDof<T>>,
}

/// What is wrong with active dof `i`.
pub open spec fn active_fault(dim: nat, active: Seq<usize>, i: int) -> Option<Seq<char>> {
    let subject = "active dof "@ + decimal(active[i] as nat);
    if active[i] >= dim {
        Some(subject + " is outside full dimension "@ + decimal(dim))
    } else if active.take(i).contains(active[i]) {
        Some(subject + " appears more than once"@)
    } else {
        None
    }
}

/// What is wrong with the first faulty active dof among the first `n`.
pub open spec fn first_active_fault(dim: nat, active: Seq<usize>, n: int) -> Option<Seq<char>>
    decreases n,
{
    if n <= 0 {
        None
    } else {
        let earlier = first_active_fault(dim, active, n - 1);
        if earlier is Some {
            earlier
        } else {
            active_fault(dim, active, n - 1)
        }
    }
}

/// The complaint about the first of `n` prescribed dofs that is also active.
pub open spec fn first_overlap(active: Seq<usize>, prescribed: Seq<usize>, n: int) -> Option<
    Seq<char>,
>
    decreases n,
{
    if n <= 0 {
        None
    } else {
        let earlier = first_overlap(active, prescribed, n - 1);
        if earlier is Some {
            earlier
        } else if active.contains(prescribed[n - 1]) {
            Some(
                "prescribed dof "@ + decimal(prescribed[n - 1] as nat)
                    + " must not also be active"@,
            )
        } else {
            None
        }
    }
}

/// What is wrong with a layout given by its parts: the prescribed dofs are looked at first,
/// then the active ones, then whether they overlap, then whether they cover the space.
pub open spec fn layout_fault<T: Scalar>(
    dim: nat,
    active: Seq<usize>,
    prescribed: Seq<PrescribedDof<T>>,
) -> Option<Seq<char>> {
    let ids = dof_indices(prescribed);
    let values = prescribed_dofs_fault("layout"@, dim, prescribed);
    let listed = first_active_fault(dim, active, active.len() as int);
    let overlap = first_overlap(active, ids, ids.len() as int);
    if values is Some {
        values
    } else if listed is Some {
        listed
    } else if overlap is Some {
        overlap
    } else if active.len() + prescribed.len() != dim {
        Some(
            "active and prescribed dofs cover "@ + decimal(active.len() + prescribed.len())
                + " entries, expected "@ + decimal(dim),
        )
    } else {
        None
    }
}

proof fn lemma_later_active_fault(dim: nat, active: Seq<usize>, n: int, m: int)
    requires
        n <= m,
        first_active_fault(dim, active, n) is Some,
    ensures
        first_active_fault(dim, active, m) == first_active_fault(dim, active, n),
    decreases m - n,
{
    if n < m {
        lemma_later_active_fault(dim, active, n, m - 1);
    }
}

proof fn lemma_later_overlap(active: Seq<usize>, prescribed: Seq<usize>, n: int, m: int)
    requires
        n <= m,
        first_overlap(active, prescribed, n) is Some,
    ensures
        first_overlap(active, prescribed, m) == first_overlap(active, prescribed, n),
    decreases m - n,
{
    if n < m {
        lemma_later_overlap(active, prescribed, n, m - 1);
    }
}

proof fn lemma_active_ok(dim: nat, active: Seq<usize>, n: int)
    requires
        0 <= n <= active.len(),
        first_active_fault(dim, active, n) is None,
    ensures
        active.take(n).no_duplicates(),
        forall|i: int| 0 <= i < n ==> (#[trigger] active[i]) < dim,
    decreases n,
{
    if n > 0 {
        lemma_active_ok(dim, active, n - 1);
        let front = active.take(n - 1);
        let all = active.take(n);
        assert(active_fault(dim, active, n - 1) is None);
        assert forall|i: int, j: int| 0 <= i < j < all.len() implies all[i] != all[j] by {
            if j == n - 1 {
                if all[i] == all[j] {
                    assert(front[i] == active[n - 1]);
                }
            } else {
                assert(front[i] == all[i] && front[j] == all[j]);
            }
        }
    }
}

proof fn lemma_no_overlap(active: Seq<usize>, prescribed: Seq<usize>, n: int)
    requires
        0 <= n <= prescribed.len(),
        first_overlap(active, prescribed, n) is None,
    ensures
        forall|i: int| 0 <= i < n ==> !active.contains(#[trigger] prescribed[i]),
    decreases n,
{
    if n > 0 {
        lemma_no_overlap(active, prescribed, n - 1);
    }
}

/// A list of different numbers below `bound` has at most `bound` entries, and if it has as
/// many, it lists them all.
pub proof fn distinct_below(items: Seq<usize>, bound: nat)
    requires
        items.no_duplicates(),
        forall|i: int| 0 <= i < items.len() ==> (#[trigger] items[i]) < bound,
    ensures
        items.len() <= bound,
        items.len() == bound ==> forall|v: usize| v < bound ==> #[trigger] items.contains(v),
{
    let numbers = items.map_values(|v: usize| v as int);
    let range = vstd::set_lib::set_int_range(0, bound as int);
    vstd::set_lib::lemma_int_range(0, bound as int);
    assert(numbers.no_duplicates()) by {
        assert forall|i: int, j: int|
            0 <= i < numbers.len() && 0 <= j < numbers.len() && i != j implies numbers[i]
            != numbers[j] by {
            assert(items[i] != items[j]);
        }
    }
    numbers.unique_seq_to_set();
    assert(numbers.to_set().subset_of(range)) by {
        assert forall|x: int| numbers.to_set().contains(x) implies range.contains(x) by {
            let i = choose|i: int| 0 <= i < numbers.len() && numbers[i] == x;
            assert(items[i] < bound);
        }
    }
    vstd::set_lib::lemma_len_subset(numbers.to_set(), range);
    if items.len() == bound {
        vstd::set_lib::lemma_subset_equality(numbers.to_set(), range);
        assert forall|v: usize| v < bound implies #[trigger] items.contains(v) by {
            assert(range.contains(v as int));
            assert(numbers.to_set().contains(v as int));
            let i = choose|i: int| 0 <= i < numbers.len() && numbers[i] == v as int;
            assert(items[i] == v);
        }
    }
}

proof fn lemma_joined(active: Seq<usize>, ids: Seq<usize>, dim: nat)
    requires
        active.no_duplicates(),
        ids.no_duplicates(),
        forall|i: int| 0 <= i < active.len() ==> (#[trigger] active[i]) < dim,
        forall|i: int| 0 <= i < ids.len() ==> (#[trigger] ids[i]) < dim,
        forall|i: int| 0 <= i < ids.len() ==> !active.contains(#[trigger] ids[i]),
    ensures
        active.len() + ids.len() <= dim,
        active.len() + ids.len() == dim ==> forall|v: usize|
            v < dim ==> #[trigger] active.contains(v) || ids.contains(v),
{
    let all = active + ids;
    assert forall|i: int, j: int| 0 <= i < all.len() && 0 <= j < all.len() && i != j implies all[i]
        != all[j] by {
        if i < active.len() && j >= active.len() {
            assert(!active.contains(ids[j - active.len()]));
        } else if j < active.len() && i >= active.len() {
            assert(!active.contains(ids[i - active.len()]));
        } else if i >= active.len() {
            assert(ids[i - active.len()] != ids[j - active.len()]);
        }
    }
    assert forall|i: int| 0 <= i < all.len() implies (#[trigger] all[i]) < dim by {
        if i < active.len() {
            assert(all[i] == active[i]);
        } else {
            assert(all[i] == ids[i - active.len()]);
        }
    }
    distinct_below(all, dim);
    if all.len() == dim {
        assert forall|v: usize| v < dim implies #[trigger] active.contains(v) || ids.contains(
            v,
        ) by {
            assert(all.contains(v));
            let i = choose|i: int| 0 <= i < all.len() && all[i] == v;
            if i < active.len() {
                assert(active[i] == v);
            } else {
                assert(ids[i - active.len()] == v);
            }
        }
    }
}

impl<T: Scalar> DofLayout<T> {
    /// Every dof of the space is listed exactly once, as active or as prescribed, and the
    /// prescribed values are finite.
    pub open spec fn wf(&self) -> bool {
        &&& prescribed_ok(self.full_dimension as nat, self.prescribed_dofs@)
        &&& self.active_dofs@.no_duplicates()
        &&& forall|i: int|
            0 <= i < self.active_dofs@.len() ==> (#[trigger] self.active_dofs@[i])
                < self.full_dimension
        &&& forall|i: int|
            0 <= i < self.prescribed_dofs@.len() ==> !self.active_dofs@.contains(
                (#[trigger] self.prescribed_dofs@[i]).index,
            )
        &&& self.active_dofs@.len() + self.prescribed_dofs@.len() == self.full_dimension
    }

    /// Every dof of the space is active or prescribed, and not both.
    pub proof fn active_or_prescribed(&self, dof: usize)
        requires
            self.wf(),
            dof < self.full_dimension,
        ensures
            self.active_dofs@.contains(dof) <==> !dof_indices(self.prescribed_dofs@).contains(dof),
    {
        let ids = dof_indices(self.prescribed_dofs@);
        assert forall|i: int| 0 <= i < ids.len() implies (#[trigger] ids[i]) < self.full_dimension
            && !self.active_dofs@.contains(ids[i]) by {
            assert(self.prescribed_dofs@[i].index == ids[i]);
        }
        lemma_joined(self.active_dofs@, ids, self.full_dimension as nat);
        if ids.contains(dof) {
            let i = choose|i: int| 0 <= i < ids.len() && ids[i] == dof;
            assert(!self.active_dofs@.contains(ids[i]));
        }
        assert(self.active_dofs@.contains(dof) || ids.contains(dof));
    }

    /// The layout in which every dof is active.
    pub fn identity(dimension: usize) -> (layout: Self)
        ensures
            layout.wf(),
            layout.full_dimension == dimension,
            layout.active_dofs@ == Seq::new(dimension as nat, |i: int| i as usize),
            layout.prescribed_dofs@ == Seq::<PrescribedDof<T>>::empty(),
    {
        let mut active_dofs: Vec<usize> = Vec::new();
        let mut i: usize = 0;
        while i < dimension
            invariant
                i <= dimension,
                active_dofs@ =~= Seq::new(i as nat, |j: int| j as usize),
            decreases dimension - i,
        {
            active_dofs.push(i);
            i = i + 1;
        }
        DofLayout { full_dimension: dimension, active_dofs, prescribed_dofs: Vec::new() }
    }

    /// The layout with the given prescribed dofs, all others active in ascending order.
    pub fn from_prescribed(
        full_dimension: usize,
        prescribed_dofs: Vec<PrescribedDof<T>>,
    ) -> (layout: Result<Self, String>)
        ensures
            match layout {
                Ok(layout) => {
                    &&& prescribed_dofs_fault(
                        "layout"@,
                        full_dimension as nat,
                        prescribed_dofs@,
                    ) is None
                    &&& layout.wf()
                    &&& layout.full_dimension == full_dimension
                    &&& layout.prescribed_dofs@ == prescribed_dofs@
                    &&& ascending_indices(layout.active_dofs@)
                },
                Err(e) => prescribed_dofs_fault("layout"@, full_dimension as nat, prescribed_dofs@)
                    == Some(e@),
            },
    {
        match validate_prescribed_dofs("layout", full_dimension, prescribed_dofs.as_slice()) {
            Ok(_) => {},
            Err(e) => {
                return Err(e);
            },
        }
        let ghost ids = dof_indices(prescribed_dofs@);
        proof {
            no_fault_means_ok("layout"@, full_dimension as nat, prescribed_dofs@);
        }
        let prescribed = dof_flags(full_dimension, prescribed_dofs.as_slice());
        let mut active_dofs: Vec<usize> = Vec::new();
        let mut i: usize = 0;
        while i < full_dimension
            invariant
                i <= full_dimension,
                prescribed@.len() == full_dimension,
                ids == dof_indices(prescribed_dofs@),
                forall|v: usize|
                    v < full_dimension ==> (#[trigger] prescribed@[v as int] <==> ids.contains(v)),
                ascending_indices(active_dofs@),
                forall|j: int| 0 <= j < active_dofs@.len() ==> (#[trigger] active_dofs@[j]) < i,
                forall|v: usize|
                    v < i ==> (#[trigger] active_dofs@.contains(v) <==> !ids.contains(v)),
            decreases full_dimension - i,
        {
            let ghost before = active_dofs@;
            if !prescribed[i] {
                active_dofs.push(i);
            }
            proof {
                assert forall|v: usize| v < i + 1 implies (#[trigger] active_dofs@.contains(v)
                    <==> !ids.contains(v)) by {
                    if v < i {
                        assert(before.contains(v) <==> !ids.contains(v));
                        if before.contains(v) {
                            let j = choose|j: int| 0 <= j < before.len() && before[j] == v;
                            assert(active_dofs@[j] == v);
                        }
                    } else if !prescribed@[i as int] {
                        assert(active_dofs@[before.len() as int] == v);
                    } else {
                        assert(active_dofs@ == before);
                    }
                }
            }
            i = i + 1;
        }
        proof {
            lemma_complement(active_dofs@, ids, full_dimension as nat);
            assert forall|j: int| 0 <= j < prescribed_dofs@.len() implies !active_dofs@.contains(
                (#[trigger] prescribed_dofs@[j]).index,
            ) by {
                assert(ids[j] == prescribed_dofs@[j].index);
                assert(ids.contains(ids[j]));
            }
        }
        Ok(DofLayout { full_dimension, active_dofs, prescribed_dofs })
    }

    /// The layout with the given active and prescribed dofs.
    pub fn from_parts(
        full_dimension: usize,
        active_dofs: Vec<usize>,
        prescribed_dofs: Vec<PrescribedDof<T>>,
    ) -> (layout: Result<Self, String>)
        ensures
            match layout {
                Ok(layout) => {
                    &&& layout_fault(
                        full_dimension as nat,
                        active_dofs@,
                        prescribed_dofs@,
                    ) is None
                    &&& layout.wf()
                    &&& layout.full_dimension == full_dimension
                    &&& layout.active_dofs@ == active_dofs@
                    &&& layout.prescribed_dofs@ == prescribed_dofs@
                },
                Err(e) => layout_fault(full_dimension as nat, active_dofs@, prescribed_dofs@)
                    == Some(e@),
            },
    {
        match validate_prescribed_dofs("layout", full_dimension, prescribed_dofs.as_slice()) {
            Ok(_) => {},
            Err(e) => {
                return Err(e);
            },
        }
        let ghost dim = full_dimension as nat;
        let ghost ids = dof_indices(prescribed_dofs@);
        let mut active: Vec<bool> = vec![false; full_dimension];
        let mut i: usize = 0;
        proof {
            no_fault_means_ok("layout"@, dim, prescribed_dofs@);
            assert(active_dofs@.take(0) =~= Seq::<usize>::empty());
        }
        while i < active_dofs.len()
            invariant
                i <= active_dofs@.len(),
                dim == full_dimension,
                active@.len() == full_dimension,
                prescribed_dofs_fault("layout"@, dim, prescribed_dofs@) is None,
                forall|v: usize|
                    v < full_dimension ==> (#[trigger] active@[v as int] <==> active_dofs@.take(
                        i as int,
                    ).contains(v)),
                first_active_fault(dim, active_dofs@, i as int) is None,
            decreases active_dofs@.len() - i,
        {
            let dof: usize = active_dofs[i];
            proof {
                if active_fault(dim, active_dofs@, i as int) is Some {
                    lemma_later_active_fault(
                        dim,
                        active_dofs@,
                        i + 1,
                        active_dofs@.len() as int,
                    );
                }
            }
            if dof >= full_dimension {
                let mut message = owned("active dof ");
                push_decimal(&mut message, dof);
                message.append(" is outside full dimension ");
                push_decimal(&mut message, full_dimension);
                return Err(message);
            }
            if active[dof] {
                let mut message = owned("active dof ");
                push_decimal(&mut message, dof);
                message.append(" appears more than once");
                return Err(message);
            }
            active[dof] = true;
            proof {
                let front = active_dofs@.take(i as int);
                let all = active_dofs@.take(i + 1);
                assert(all =~= front.push(dof));
                assert forall|v: usize| v < full_dimension implies (#[trigger] active@[v as int]
                    <==> all.contains(v)) by {
                    if front.contains(v) {
                        let j = choose|j: int| 0 <= j < front.len() && front[j] == v;
                        assert(all[j] == v);
                    }
                    if v == dof {
                        assert(all[i as int] == v);
                    }
                }
            }
            i = i + 1;
        }
        proof {
            assert(active_dofs@.take(i as int) =~= active_dofs@);
            lemma_active_ok(dim, active_dofs@, i as int);
        }
        let mut j: usize = 0;
        while j < prescribed_dofs.len()
            invariant
                j <= prescribed_dofs@.len(),
                dim == full_dimension,
                ids == dof_indices(prescribed_dofs@),
                active@.len() == full_dimension,
                prescribed_dofs_fault("layout"@, dim, prescribed_dofs@) is None,
                prescribed_ok(dim, prescribed_dofs@),
                first_active_fault(dim, active_dofs@, active_dofs@.len() as int) is None,
                forall|v: usize|
                    v < full_dimension ==> (#[trigger] active@[v as int] <==> active_dofs@.contains(
                        v,
                    )),
                first_overlap(active_dofs@, ids, j as int) is None,
            decreases prescribed_dofs@.len() - j,
        {
            let index: usize = prescribed_dofs[j].index;
            proof {
                assert(prescribed_dofs@[j as int].index < dim);
                if active_dofs@.contains(index) {
                    lemma_later_overlap(active_dofs@, ids, j + 1, ids.len() as int);
                }
            }
            if active[index] {
                let mut message = owned("prescribed dof ");
                push_decimal(&mut message, index);
                message.append(" must not also be active");
                return Err(message);
            }
            j = j + 1;
        }
        proof {
            lemma_no_overlap(active_dofs@, ids, j as int);
            assert forall|a: int| 0 <= a < ids.len() implies (#[trigger] ids[a]) < dim by {
                assert(prescribed_dofs@[a].index == ids[a]);
            }
            lemma_joined(active_dofs@, ids, dim);
            assert forall|a: int| 0 <= a < prescribed_dofs@.len() implies !active_dofs@.contains(
                (#[trigger] prescribed_dofs@[a]).index,
            ) by {
                assert(ids[a] == prescribed_dofs@[a].index);
            }
        }
        let covered: usize = active_dofs.len() + prescribed_dofs.len();
        if covered != full_dimension {
            let mut message = owned("active and prescribed dofs cover ");
            push_decimal(&mut message, covered);
            message.append(" entries, expected ");
            push_decimal(&mut message, full_dimension);
            return Err(message);
        }
        Ok(DofLayout { full_dimension, active_dofs, prescribed_dofs })
    }

    /// The layout with the given active and prescribed dofs, which must be in order.
    pub fn new(
        full_dimension: usize,
        active_dofs: Vec<usize>,
        prescribed_dofs: Vec<PrescribedDof<T>>,
    ) -> (layout: Self)
        requires
            layout_fault(full_dimension as nat, active_dofs@, prescribed_dofs@) is None,
        ensures
            layout.wf(),
            layout.full_dimension == full_dimension,
            layout.active_dofs@ == active_dofs@,
            layout.prescribed_dofs@ == prescribed_dofs@,
    {
        match DofLayout::from_parts(full_dimension, active_dofs, prescribed_dofs) {
            Ok(layout) => layout,
            Err(_) => {
                proof {
                    assert(false);
                }
                DofLayout::identity(full_dimension)
            },
        }
    }

    /// Number of unknown dofs.
    pub fn reduced_dimension(&self) -> (n: usize)
        ensures
            n == self.active_dofs@.len(),
    {
        self.active_dofs.len()
    }
}

/// The numbers ascend strictly.
pub open spec fn ascending_indices(items: Seq<usize>) -> bool {
    forall|i: int, j: int| 0 <= i < j < items.len() ==> items[i] < items[j]
}

/// For each dof whether a value is prescribed.
pub fn dof_flags<T: Copy>(full_dimension: usize, prescribed: &[PrescribedDof<T>]) -> (flags: Vec<
    bool,
>)
    requires
        forall|i: int|
            0 <= i < prescribed@.len() ==> (#[trigger] prescribed@[i]).index < full_dimension,
    ensures
        flags@.len() == full_dimension,
        forall|v: usize|
            v < full_dimension ==> (#[trigger] flags@[v as int] <==> dof_indices(
                prescribed@,
            ).contains(v)),
{
    let mut flags: Vec<bool> = vec![false; full_dimension];
    let ghost ids = dof_indices(prescribed@);
    let mut i: usize = 0;
    while i < prescribed.len()
        invariant
            i <= prescribed@.len(),
            ids == dof_indices(prescribed@),
            flags@.len() == full_dimension,
            forall|j: int|
                0 <= j < prescribed@.len() ==> (#[trigger] prescribed@[j]).index < full_dimension,
            forall|v: usize|
                v < full_dimension ==> (#[trigger] flags@[v as int] <==> exists|j: int|
                    0 <= j < i && ids[j] == v),
        decreases prescribed@.len() - i,
    {
        let ghost before = flags@;
        flags[prescribed[i].index] = true;
        proof {
            assert forall|v: usize| v < full_dimension implies (#[trigger] flags@[v as int]
                <==> exists|j: int| 0 <= j < i + 1 && ids[j] == v) by {
                if v == prescribed@[i as int].index {
                    assert(ids[i as int] == v);
                } else {
                    assert(flags@[v as int] == before[v as int]);
                }
            }
        }
        i = i + 1;
    }
    flags
}

proof fn lemma_complement(active: Seq<usize>, ids: Seq<usize>, dim: nat)
    requires
        dim <= usize::MAX,
        ascending_indices(active),
        ids.no_duplicates(),
        forall|i: int| 0 <= i < active.len() ==> (#[trigger] active[i]) < dim,
        forall|i: int| 0 <= i < ids.len() ==> (#[trigger] ids[i]) < dim,
        forall|v: usize| v < dim ==> (#[trigger] active.contains(v) <==> !ids.contains(v)),
    ensures
        active.no_duplicates(),
        active.len() + ids.len() == dim,
{
    assert forall|i: int| 0 <= i < ids.len() implies !active.contains(#[trigger] ids[i]) by {
        assert(ids.contains(ids[i]));
    }
    lemma_joined(active, ids, dim);
    let all = active + ids;
    let range = Seq::new(dim, |i: int| i as usize);
    assert(all.len() >= dim) by {
        let numbers = all.map_values(|v: usize| v as int);
        let full = vstd::set_lib::set_int_range(0, dim as int);
        vstd::set_lib::lemma_int_range(0, dim as int);
        numbers.lemma_cardinality_of_set();
        assert(full.subset_of(numbers.to_set())) by {
            assert forall|x: int| full.contains(x) implies numbers.to_set().contains(x) by {
                let v = x as usize;
                if active.contains(v) {
                    let i = choose|i: int| 0 <= i < active.len() && active[i] == v;
                    assert(numbers[i] == x);
                } else {
                    assert(ids.contains(v));
                    let i = choose|i: int| 0 <= i < ids.len() && ids[i] == v;
                    assert(numbers[active.len() + i] == x);
                }
            }
        }
        vstd::seq_lib::seq_to_set_is_finite(numbers);
        vstd::set_lib::lemma_len_subset(full, numbers.to_set());
    }
}

} // verus!
