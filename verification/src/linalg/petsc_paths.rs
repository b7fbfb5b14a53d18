//! The choice of the directory of the solver programs.

use crate::linalg::sparse::none_set;
use vstd::prelude::*;

verus! {

/// The programs that a solver directory holds.
pub fn solver_binaries() -> (names: [&'static str; 3])
    ensures
        names@.len() == 3,
        names@[0]@ == "ghiep.out"@,
        names@[1]@ == "ghep_reduced.out"@,
        names@[2]@ == "hils.out"@,
{
    ["ghiep.out", "ghep_reduced.out", "hils.out"]
}

/// A directory holds the solver programs if it holds all of them.
pub fn petsc_solver_binaries_exist(present: [bool; 3]) -> (exist: bool)
    ensures
        exist == (present@[0] && present@[1] && present@[2]),
{
    present[0] && present[1] && present[2]
}

/// The first flagged place of a list.
pub open spec fn is_first_set(flags: Seq<bool>, at: int) -> bool {
    &&& 0 <= at < flags.len()
    &&& flags[at]
    &&& forall|k: int| 0 <= k < at ==> !flags[k]
}

fn first_set(flags: &[bool]) -> (at: Option<usize>)
    ensures
        match at {
            Some(at) => is_first_set(flags@, at as int),
            None => none_set(flags@),
        },
{
    let mut i: usize = 0;
    while i < flags.len()
        invariant
            i <= flags@.len(),
            forall|k: int| 0 <= k < i ==> !flags@[k],
        decreases flags@.len() - i,
    {
        if flags[i] {
            return Some(i);
        }
        i = i + 1;
    }
    None
}

/// The candidate among the directories above a start, the nearest first: the first with all
/// programs, or else the first that exists.
pub fn search_petsc_solver_from(with_binaries: &[bool], existing: &[bool]) -> (candidate: Option<
    usize,
>)
    ensures
        match candidate {
            Some(at) => is_first_set(with_binaries@, at as int) || (none_set(with_binaries@)
                && is_first_set(existing@, at as int)),
            None => none_set(with_binaries@) && none_set(existing@),
        },
{
    match first_set(with_binaries) {
        Some(at) => Some(at),
        None => first_set(existing),
    }
}

/// The candidates of a start before the given one have no flagged place.
pub open spec fn none_before(lists: Seq<Vec<bool>>, start: int) -> bool {
    forall|s: int| 0 <= s < start ==> none_set((#[trigger] lists[s])@)
}

fn first_start(lists: &[Vec<bool>]) -> (candidate: Option<(usize, usize)>)
    ensures
        match candidate {
            Some((start, at)) => start < lists@.len() && none_before(lists@, start as int)
                && is_first_set(lists@[start as int]@, at as int),
            None => none_before(lists@, lists@.len() as int),
        },
{
    let mut s: usize = 0;
    while s < lists.len()
        invariant
            s <= lists@.len(),
            none_before(lists@, s as int),
        decreases lists@.len() - s,
    {
        if let Some(at) = first_set(lists[s].as_slice()) {
            return Some((s, at));
        }
        s = s + 1;
    }
    None
}

/// The candidate among the directories above several starts: the first with all programs above
/// any start, or else the first that exists.
pub fn search_relative_path_upwards(with_binaries: &[Vec<bool>], existing: &[Vec<bool>]) -> (
candidate: Option<(usize, usize)>)
    ensures
        match candidate {
            Some((start, at)) => (start < with_binaries@.len() && none_before(
                with_binaries@,
                start as int,
            ) && is_first_set(with_binaries@[start as int]@, at as int)) || (none_before(
                with_binaries@,
                with_binaries@.len() as int,
            ) && start < existing@.len() && none_before(existing@, start as int) && is_first_set(
                existing@[start as int]@,
                at as int,
            )),
            None => none_before(with_binaries@, with_binaries@.len() as int) && none_before(
                existing@,
                existing@.len() as int,
            ),
        },
{
    match first_start(with_binaries) {
        Some(candidate) => Some(candidate),
        None => first_start(existing),
    }
}

/// What to do with a given path of the solver directory.
#[derive(Clone, Copy, Debug, PartialEq, Eq, Structural)]
pub enum SolverPath {
    /// The path itself.
    Given,
    /// A directory above a start, joined with the path.
    Above(usize, usize),
}

/// The choice for a given path: an absolute path or one with all programs stands; another is
/// looked for above the starts, and stands where nothing is found.
pub fn resolve_petsc_solver_path(
    absolute: bool,
    has_binaries: bool,
    with_binaries: &[Vec<bool>],
    existing: &[Vec<bool>],
) -> (choice: SolverPath)
    ensures
        match choice {
            SolverPath::Given => absolute || has_binaries || (none_before(
                with_binaries@,
                with_binaries@.len() as int,
            ) && none_before(existing@, existing@.len() as int)),
            SolverPath::Above(start, at) => !absolute && !has_binaries && ((start
                < with_binaries@.len() && none_before(with_binaries@, start as int)
                && is_first_set(with_binaries@[start as int]@, at as int)) || (none_before(
                with_binaries@,
                with_binaries@.len() as int,
            ) && start < existing@.len() && none_before(existing@, start as int) && is_first_set(
                existing@[start as int]@,
                at as int,
            ))),
        },
{
    if absolute || has_binaries {
        return SolverPath::Given;
    }
    match search_relative_path_upwards(with_binaries, existing) {
        Some((start, at)) => SolverPath::Above(start, at),
        None => SolverPath::Given,
    }
}

} // verus!
