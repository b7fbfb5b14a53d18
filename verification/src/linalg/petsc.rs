//! Command lines and files of the PETSc helper programs.

use crate::linalg::csr::CsrMatrix;
use crate::linalg::petsc_files::{column_views, counted_words, eigenvecs_in, matrix_bytes, vector_bytes};
use crate::linalg::petsc_files::{
    first_columns, first_words, petsc_read_eigenvals, petsc_read_eigenvecs, petsc_write_matrix,
    petsc_write_vector, PetscReadError,
};
use crate::text::decimal;
use crate::text::{decimal_string, owned};
use vstd::prelude::*;

verus! {

/// Which end of the spectrum is wanted.
#[derive(Debug, Clone, Copy, PartialEq, Eq, Structural)]
pub enum GhiepWhich {
    Smallest,
    Largest,
}

/// How mass matrices are inverted in the reduced eigenproblem.
#[derive(Debug, Clone, Copy, PartialEq, Eq, Structural)]
pub enum GhiepReducedSolve {
    Direct,
    Iterative,
}

/// The characters of each argument.
pub open spec fn texts(args: Seq<String>) -> Seq<Seq<char>> {
    Seq::new(args.len(), |i: int| args[i]@)
}

/// Appends literal arguments.
fn push_args(args: &mut Vec<String>, literals: &[&str])
    ensures
        texts(final(args)@) == texts(old(args)@) + Seq::new(
            literals@.len(),
            |i: int| literals@[i]@,
        ),
{
    let ghost before = args@;
    let mut i: usize = 0;
    while i < literals.len()
        invariant
            i <= literals@.len(),
            texts(args@) =~= texts(before) + Seq::new(i as nat, |j: int| literals@[j]@),
        decreases literals@.len() - i,
    {
        let ghost here = args@;
        args.push(literals[i].to_owned());
        proof {
            assert(texts(args@) =~= texts(here).push(literals@[i as int]@));
        }
        i = i + 1;
    }
}

fn push_number(args: &mut Vec<String>, n: usize)
    ensures
        texts(final(args)@) == texts(old(args)@).push(decimal(n as nat)),
{
    let ghost before = args@;
    args.push(decimal_string(n));
    proof {
        assert(texts(args@) =~= texts(before).push(decimal(n as nat)));
    }
}

/// The arguments of the generalized eigenproblem solver.
pub open spec fn ghiep_args_spec(which: GhiepWhich, neigen_values: nat) -> Seq<Seq<char>> {
    match which {
        GhiepWhich::Smallest => seq![
            "-st_pc_factor_mat_solver_type"@,
            "mumps"@,
            "-st_type"@,
            "sinvert"@,
            "-st_shift"@,
            "0.1"@,
            "-eps_target"@,
            "0."@,
            "-eps_nev"@,
            decimal(neigen_values),
        ],
        GhiepWhich::Largest => seq![
            "-st_pc_factor_mat_solver_type"@,
            "mumps"@,
            "-st_pc_type"@,
            "lu"@,
            "st_ksp_type"@,
            "preonly"@,
            "-eps_nev"@,
            decimal(neigen_values),
            "-eps_largest_magnitude"@,
        ],
    }
}

/// The arguments of the generalized eigenproblem solver.
pub fn ghiep_args(which: GhiepWhich, neigen_values: usize) -> (args: Vec<String>)
    ensures
        texts(args@) == ghiep_args_spec(which, neigen_values as nat),
{
    let mut args: Vec<String> = Vec::new();
    match which {
        GhiepWhich::Smallest => {
            let head = [
                "-st_pc_factor_mat_solver_type",
                "mumps",
                "-st_type",
                "sinvert",
                "-st_shift",
                "0.1",
                "-eps_target",
                "0.",
                "-eps_nev",
            ];
            push_args(&mut args, head.as_slice());
            push_number(&mut args, neigen_values);
        },
        GhiepWhich::Largest => {
            let head = [
                "-st_pc_factor_mat_solver_type",
                "mumps",
                "-st_pc_type",
                "lu",
                "st_ksp_type",
                "preonly",
                "-eps_nev",
            ];
            push_args(&mut args, head.as_slice());
            push_number(&mut args, neigen_values);
            let tail = ["-eps_largest_magnitude"];
            push_args(&mut args, tail.as_slice());
        },
    }
    proof {
        assert(texts(args@) =~= ghiep_args_spec(which, neigen_values as nat));
    }
    args
}


/// Four times the wanted number of eigenvalues, at most the largest number.
pub open spec fn subspace_dimension(neigen_values: nat) -> nat {
    if neigen_values * 4 > usize::MAX {
        usize::MAX as nat
    } else {
        neigen_values * 4
    }
}

/// The arguments of the reduced eigenproblem solver.
pub open spec fn ghep_reduced_args_spec(
    which: GhiepWhich,
    neigen_values: nat,
    mass_solve: GhiepReducedSolve,
) -> Seq<Seq<char>> {
    seq![
        "-eps_type"@,
        "krylovschur"@,
        "-eps_nev"@,
        decimal(neigen_values),
        "-eps_tol"@,
        "1e-10"@,
        match which {
            GhiepWhich::Smallest => "-eps_smallest_real"@,
            GhiepWhich::Largest => "-eps_largest_real"@,
        },
        "-eps_ncv"@,
        decimal(subspace_dimension(neigen_values)),
    ] + match mass_solve {
        GhiepReducedSolve::Direct => seq![
            "-st_ksp_type"@,
            "preonly"@,
            "-st_pc_type"@,
            "lu"@,
            "-st_pc_factor_mat_solver_type"@,
            "mumps"@,
            "-mkm1_ksp_type"@,
            "preonly"@,
            "-mkm1_pc_type"@,
            "lu"@,
            "-mkm1_pc_factor_mat_solver_type"@,
            "mumps"@,
        ],
        GhiepReducedSolve::Iterative => seq![
            "-st_ksp_type"@,
            "cg"@,
            "-st_pc_type"@,
            "jacobi"@,
            "-st_ksp_rtol"@,
            "1e-10"@,
            "-st_ksp_max_it"@,
            "50"@,
            "-mkm1_ksp_type"@,
            "cg"@,
            "-mkm1_pc_type"@,
            "jacobi"@,
            "-mkm1_ksp_rtol"@,
            "1e-10"@,
            "-mkm1_ksp_max_it"@,
            "50"@,
        ],
    }
}

/// The arguments of the reduced eigenproblem solver.
pub fn ghep_reduced_args(
    which: GhiepWhich,
    neigen_values: usize,
    mass_solve: GhiepReducedSolve,
) -> (args: Vec<String>)
    ensures
        texts(args@) == ghep_reduced_args_spec(which, neigen_values as nat, mass_solve),
{
    let mut args: Vec<String> = Vec::new();
    let kind = ["-eps_type", "krylovschur", "-eps_nev"];
    push_args(&mut args, kind.as_slice());
    push_number(&mut args, neigen_values);
    let tolerance = ["-eps_tol", "1e-10"];
    push_args(&mut args, tolerance.as_slice());
    match which {
        GhiepWhich::Smallest => {
            let end = ["-eps_smallest_real", "-eps_ncv"];
            push_args(&mut args, end.as_slice());
        },
        GhiepWhich::Largest => {
            let end = ["-eps_largest_real", "-eps_ncv"];
            push_args(&mut args, end.as_slice());
        },
    }
    let ncv: usize = match neigen_values.checked_mul(4) {
        Some(n) => n,
        None => usize::MAX,
    };
    push_number(&mut args, ncv);
    match mass_solve {
        GhiepReducedSolve::Direct => {
            let solve = [
                "-st_ksp_type",
                "preonly",
                "-st_pc_type",
                "lu",
                "-st_pc_factor_mat_solver_type",
                "mumps",
                "-mkm1_ksp_type",
                "preonly",
                "-mkm1_pc_type",
                "lu",
                "-mkm1_pc_factor_mat_solver_type",
                "mumps",
            ];
            push_args(&mut args, solve.as_slice());
        },
        GhiepReducedSolve::Iterative => {
            let solve = [
                "-st_ksp_type",
                "cg",
                "-st_pc_type",
                "jacobi",
                "-st_ksp_rtol",
                "1e-10",
                "-st_ksp_max_it",
                "50",
                "-mkm1_ksp_type",
                "cg",
                "-mkm1_pc_type",
                "jacobi",
                "-mkm1_ksp_rtol",
                "1e-10",
                "-mkm1_ksp_max_it",
                "50",
            ];
            push_args(&mut args, solve.as_slice());
        },
    }
    proof {
        assert(texts(args@) =~= ghep_reduced_args_spec(which, neigen_values as nat, mass_solve));
    }
    args
}

/// The arguments of the saddle-point solver for systems with harmonic constraints.
pub open spec fn harmonic_args_spec() -> Seq<Seq<char>> {
    seq![
        "-ksp_type"@,
        "gmres"@,
        "-ksp_max_it"@,
        "1000"@,
        "-ksp_rtol"@,
        "1e-9"@,
        "-ksp_error_if_not_converged"@,
        "-pc_type"@,
        "fieldsplit"@,
        "-pc_fieldsplit_type"@,
        "schur"@,
        "-pc_fieldsplit_detect_saddle_point"@,
        "-pc_fieldsplit_schur_fact_type"@,
        "upper"@,
        "-fieldsplit_0_ksp_type"@,
        "preonly"@,
        "-fieldsplit_0_pc_type"@,
        "ilu"@,
        "-fieldsplit_1_ksp_type"@,
        "preonly"@,
        "-fieldsplit_1_pc_type"@,
        "none"@,
    ]
}

/// The arguments of the saddle-point solver for systems with harmonic constraints; none
/// without them.
pub fn harmonic_saddle_point_args(has_harmonics: bool) -> (args: Vec<String>)
    ensures
        texts(args@) == (if has_harmonics {
            harmonic_args_spec()
        } else {
            Seq::<Seq<char>>::empty()
        }),
{
    let mut args: Vec<String> = Vec::new();
    proof {
        assert(texts(args@) =~= Seq::<Seq<char>>::empty());
    }
    if !has_harmonics {
        return args;
    }
    // An outer Krylov iteration, preconditioned by the Schur complement of the
    // saddle point in upper factorization.
    let outer = [
        "-ksp_type",
        "gmres",
        "-ksp_max_it",
        "1000",
        "-ksp_rtol",
        "1e-9",
        "-ksp_error_if_not_converged",
        "-pc_type",
        "fieldsplit",
        "-pc_fieldsplit_type",
        "schur",
        "-pc_fieldsplit_detect_saddle_point",
        "-pc_fieldsplit_schur_fact_type",
        "upper",
    ];
    push_args(&mut args, outer.as_slice());
    // The block off the saddle point, then the Schur block.
    let blocks = [
        "-fieldsplit_0_ksp_type",
        "preonly",
        "-fieldsplit_0_pc_type",
        "ilu",
        "-fieldsplit_1_ksp_type",
        "preonly",
        "-fieldsplit_1_pc_type",
        "none",
    ];
    push_args(&mut args, blocks.as_slice());
    proof {
        assert(texts(args@) =~= harmonic_args_spec());
    }
    args
}

/// The arguments of the saddle-point solver for a direct factorization.
pub open spec fn direct_args_spec() -> Seq<Seq<char>> {
    seq![
        "-ksp_type"@,
        "preonly"@,
        "-pc_type"@,
        "lu"@,
        "-pc_factor_mat_solver_type"@,
        "mumps"@,
    ]
}

/// The arguments of the saddle-point solver for a direct factorization.
pub fn direct_saddle_point_args() -> (args: Vec<String>)
    ensures
        texts(args@) == direct_args_spec(),
{
    let mut args: Vec<String> = Vec::new();
    let solve = [
        "-ksp_type",
        "preonly",
        "-pc_type",
        "lu",
        "-pc_factor_mat_solver_type",
        "mumps",
    ];
    push_args(&mut args, solve.as_slice());
    proof {
        assert(texts(args@) =~= direct_args_spec());
    }
    args
}

/// What to do about a saddle-point solve.
#[derive(Debug)]
pub enum SaddlePointStep {
    /// Run the solver with these arguments.
    Run { args: Vec<String> },
    /// The solution can be read.
    Solved,
    /// No way to solve is left.
    Failed,
}

/// The first attempt at a saddle-point system.
pub fn first_saddle_point_step(has_harmonics: bool) -> (step: SaddlePointStep)
    ensures
        match step {
            SaddlePointStep::Run { args } => texts(args@) == (if has_harmonics {
                harmonic_args_spec()
            } else {
                direct_args_spec()
            }),
            _ => false,
        },
{
    if has_harmonics {
        SaddlePointStep::Run { args: harmonic_saddle_point_args(true) }
    } else {
        SaddlePointStep::Run { args: direct_saddle_point_args() }
    }
}

/// What follows an attempt at a saddle-point system: a system with harmonic constraints that
/// the first attempt did not solve is tried once more with a direct factorization.
pub fn next_saddle_point_step(has_harmonics: bool, retried: bool, success: bool) -> (step:
    SaddlePointStep)
    ensures
        success ==> step is Solved,
        !success && has_harmonics && !retried ==> (match step {
            SaddlePointStep::Run { args } => texts(args@) == direct_args_spec(),
            _ => false,
        }),
        !success && !(has_harmonics && !retried) ==> step is Failed,
{
    if success {
        SaddlePointStep::Solved
    } else if has_harmonics && !retried {
        SaddlePointStep::Run { args: direct_saddle_point_args() }
    } else {
        SaddlePointStep::Failed
    }
}

/// A run of a helper program: the program, its input files and its arguments.
#[derive(Debug)]
pub struct PetscRun {
    pub binary: String,
    pub inputs: Vec<(String, Vec<u8>)>,
    pub args: Vec<String>,
}

/// Names and contents of input files.
pub open spec fn input_views(inputs: Seq<(String, Vec<u8>)>) -> Seq<(Seq<char>, Seq<u8>)> {
    Seq::new(inputs.len(), |i: int| (inputs[i].0@, inputs[i].1@))
}

/// The file of a matrix.
pub open spec fn file_of(matrix: CsrMatrix<u64>) -> Seq<u8> {
    matrix_bytes(matrix.rows(), matrix.cols(), matrix.entries())
}

/// Whether a matrix can be written to a file.
pub open spec fn writable(matrix: CsrMatrix<u64>) -> bool {
    matrix.wf() && matrix.rows() <= i32::MAX
}

fn push_matrix(inputs: &mut Vec<(String, Vec<u8>)>, name: &str, matrix: &CsrMatrix<u64>)
    requires
        writable(*matrix),
    ensures
        input_views(final(inputs)@) == input_views(old(inputs)@).push((name@, file_of(*matrix))),
{
    let ghost before = inputs@;
    inputs.push((owned(name), petsc_write_matrix(matrix)));
    proof {
        assert(input_views(inputs@) =~= input_views(before).push((name@, file_of(*matrix))));
    }
}

/// The run that solves a generalized eigenproblem.
pub open spec fn is_ghiep_run(
    run: PetscRun,
    lhs: CsrMatrix<u64>,
    rhs: CsrMatrix<u64>,
    neigen_values: nat,
    which: GhiepWhich,
) -> bool {
    &&& run.binary@ == "ghiep.out"@
    &&& input_views(run.inputs@) == seq![("A.bin"@, file_of(lhs)), ("B.bin"@, file_of(rhs))]
    &&& texts(run.args@) == ghiep_args_spec(which, neigen_values)
}

/// The run that solves a generalized eigenproblem.
pub fn petsc_ghiep_with_which(
    lhs: &CsrMatrix<u64>,
    rhs: &CsrMatrix<u64>,
    neigen_values: usize,
    which: GhiepWhich,
) -> (run: PetscRun)
    requires
        writable(*lhs),
        writable(*rhs),
    ensures
        is_ghiep_run(run, *lhs, *rhs, neigen_values as nat, which),
{
    let mut inputs: Vec<(String, Vec<u8>)> = Vec::new();
    push_matrix(&mut inputs, "A.bin", lhs);
    push_matrix(&mut inputs, "B.bin", rhs);
    proof {
        assert(input_views(inputs@) =~= seq![
            ("A.bin"@, file_of(*lhs)),
            ("B.bin"@, file_of(*rhs)),
        ]);
    }
    PetscRun { binary: owned("ghiep.out"), inputs, args: ghiep_args(which, neigen_values) }
}

/// The run that finds the smallest eigenvalues.
pub fn petsc_ghiep(lhs: &CsrMatrix<u64>, rhs: &CsrMatrix<u64>, neigen_values: usize) -> (run:
    PetscRun)
    requires
        writable(*lhs),
        writable(*rhs),
    ensures
        is_ghiep_run(run, *lhs, *rhs, neigen_values as nat, GhiepWhich::Smallest),
{
    petsc_ghiep_with_which(lhs, rhs, neigen_values, GhiepWhich::Smallest)
}

/// The run that finds the largest eigenvalues.
pub fn petsc_ghiep_largest(
    lhs: &CsrMatrix<u64>,
    rhs: &CsrMatrix<u64>,
    neigen_values: usize,
) -> (run: PetscRun)
    requires
        writable(*lhs),
        writable(*rhs),
    ensures
        is_ghiep_run(run, *lhs, *rhs, neigen_values as nat, GhiepWhich::Largest),
{
    petsc_ghiep_with_which(lhs, rhs, neigen_values, GhiepWhich::Largest)
}

/// The operators of the reduced generalized Hodge eigenproblem.
///
/// Held together, so that operators of the same shape are not interchanged.
pub struct GhepReducedOperators<'a> {
    pub l: &'a CsrMatrix<u64>,
    pub d: &'a CsrMatrix<u64>,
    pub c: &'a CsrMatrix<u64>,
    pub mkm1: &'a CsrMatrix<u64>,
    pub mk: &'a CsrMatrix<u64>,
}

/// Whether all operators can be written to files.
pub open spec fn writable_operators(operators: GhepReducedOperators) -> bool {
    &&& writable(*operators.l)
    &&& writable(*operators.d)
    &&& writable(*operators.c)
    &&& writable(*operators.mkm1)
    &&& writable(*operators.mk)
}

/// The run that solves a reduced eigenproblem.
pub open spec fn is_reduced_run(
    run: PetscRun,
    operators: GhepReducedOperators,
    neigen_values: nat,
    which: GhiepWhich,
    mass_solve: GhiepReducedSolve,
) -> bool {
    &&& run.binary@ == "ghep_reduced.out"@
    &&& input_views(run.inputs@) == seq![
        ("L.bin"@, file_of(*operators.l)),
        ("D.bin"@, file_of(*operators.d)),
        ("C.bin"@, file_of(*operators.c)),
        ("Mkm1.bin"@, file_of(*operators.mkm1)),
        ("Mk.bin"@, file_of(*operators.mk)),
    ]
    &&& texts(run.args@) == ghep_reduced_args_spec(which, neigen_values, mass_solve)
}

/// The run that solves a reduced eigenproblem.
pub fn petsc_ghep_reduced_with_which(
    operators: GhepReducedOperators<'_>,
    neigen_values: usize,
    which: GhiepWhich,
    mass_solve: GhiepReducedSolve,
) -> (run: PetscRun)
    requires
        writable_operators(operators),
    ensures
        is_reduced_run(run, operators, neigen_values as nat, which, mass_solve),
{
    let mut inputs: Vec<(String, Vec<u8>)> = Vec::new();
    push_matrix(&mut inputs, "L.bin", operators.l);
    push_matrix(&mut inputs, "D.bin", operators.d);
    push_matrix(&mut inputs, "C.bin", operators.c);
    push_matrix(&mut inputs, "Mkm1.bin", operators.mkm1);
    push_matrix(&mut inputs, "Mk.bin", operators.mk);
    proof {
        assert(input_views(inputs@) =~= seq![
            ("L.bin"@, file_of(*operators.l)),
            ("D.bin"@, file_of(*operators.d)),
            ("C.bin"@, file_of(*operators.c)),
            ("Mkm1.bin"@, file_of(*operators.mkm1)),
            ("Mk.bin"@, file_of(*operators.mk)),
        ]);
    }
    PetscRun {
        binary: owned("ghep_reduced.out"),
        inputs,
        args: ghep_reduced_args(which, neigen_values, mass_solve),
    }
}

/// The run that solves a reduced eigenproblem with factorized mass matrices.
pub fn petsc_ghep_reduced_direct(
    l: &CsrMatrix<u64>,
    d: &CsrMatrix<u64>,
    c: &CsrMatrix<u64>,
    mkm1: &CsrMatrix<u64>,
    mk: &CsrMatrix<u64>,
    neigen_values: usize,
    which: GhiepWhich,
) -> (run: PetscRun)
    requires
        writable_operators((GhepReducedOperators { l, d, c, mkm1, mk })),
    ensures
        is_reduced_run(
            run,
            (GhepReducedOperators { l, d, c, mkm1, mk }),
            neigen_values as nat,
            which,
            GhiepReducedSolve::Direct,
        ),
{
    petsc_ghep_reduced_with_which(
        GhepReducedOperators { l, d, c, mkm1, mk },
        neigen_values,
        which,
        GhiepReducedSolve::Direct,
    )
}

/// The run that solves a reduced eigenproblem with iteratively inverted mass matrices.
pub fn petsc_ghep_reduced_iterative(
    l: &CsrMatrix<u64>,
    d: &CsrMatrix<u64>,
    c: &CsrMatrix<u64>,
    mkm1: &CsrMatrix<u64>,
    mk: &CsrMatrix<u64>,
    neigen_values: usize,
    which: GhiepWhich,
) -> (run: PetscRun)
    requires
        writable_operators((GhepReducedOperators { l, d, c, mkm1, mk })),
    ensures
        is_reduced_run(
            run,
            (GhepReducedOperators { l, d, c, mkm1, mk }),
            neigen_values as nat,
            which,
            GhiepReducedSolve::Iterative,
        ),
{
    petsc_ghep_reduced_with_which(
        GhepReducedOperators { l, d, c, mkm1, mk },
        neigen_values,
        which,
        GhiepReducedSolve::Iterative,
    )
}

/// The first run that solves a saddle-point system. What follows a run is decided by
/// `next_saddle_point_step`.
pub fn petsc_saddle_point(lhs: &CsrMatrix<u64>, rhs: &[u64], has_harmonics: bool) -> (run: PetscRun)
    requires
        writable(*lhs),
    ensures
        run.binary@ == "hils.out"@,
        input_views(run.inputs@) == seq![
            ("A.bin"@, file_of(*lhs)),
            ("b.bin"@, vector_bytes(rhs@)),
        ],
        texts(run.args@) == (if has_harmonics {
            harmonic_args_spec()
        } else {
            direct_args_spec()
        }),
{
    let mut inputs: Vec<(String, Vec<u8>)> = Vec::new();
    push_matrix(&mut inputs, "A.bin", lhs);
    let ghost before = inputs@;
    inputs.push((owned("b.bin"), petsc_write_vector(rhs)));
    proof {
        assert(input_views(inputs@) =~= input_views(before).push(("b.bin"@, vector_bytes(rhs@))));
        assert(input_views(inputs@) =~= seq![
            ("A.bin"@, file_of(*lhs)),
            ("b.bin"@, vector_bytes(rhs@)),
        ]);
    }
    let args = if has_harmonics {
        harmonic_saddle_point_args(true)
    } else {
        direct_saddle_point_args()
    };
    PetscRun { binary: owned("hils.out"), inputs, args }
}

/// The number of eigenvalues that are kept.
pub open spec fn kept_count(neigen_values: nat, found: nat) -> int {
    if neigen_values < found {
        neigen_values as int
    } else {
        found as int
    }
}

/// The wanted eigenvectors in a file.
pub open spec fn wanted_columns(eigenvecs: Seq<u8>, k: int) -> Result<
    Seq<Seq<u64>>,
    PetscReadError,
> {
    match eigenvecs_in(eigenvecs) {
        Err(e) => Err(e),
        Ok(columns) => if columns.len() < k {
            Err(PetscReadError::MissingEigenvectors)
        } else {
            Ok(columns.take(k))
        },
    }
}

fn read_wanted_columns(eigenvecs: &[u8], k: usize) -> (columns: Result<
    Vec<Vec<u64>>,
    PetscReadError,
>)
    ensures
        match wanted_columns(eigenvecs@, k as int) {
            Ok(views) => columns matches Ok(v) && column_views(v@) == views,
            Err(e) => columns == Err::<Vec<Vec<u64>>, PetscReadError>(e),
        },
{
    match petsc_read_eigenvecs(eigenvecs) {
        Err(e) => Err(e),
        Ok(columns) => {
            if columns.len() < k {
                return Err(PetscReadError::MissingEigenvectors);
            }
            let kept = first_columns(columns.as_slice(), k);
            proof {
                assert(column_views(kept@) =~= column_views(columns@).take(k as int));
            }
            Ok(kept)
        },
    }
}

/// The wanted eigenpairs in the files that a run has written.
pub open spec fn eigenpairs_in(eigenvals: Seq<u8>, eigenvecs: Seq<u8>, neigen_values: nat) -> Result<
    (Seq<u64>, Seq<Seq<u64>>),
    PetscReadError,
> {
    match counted_words(eigenvals) {
        Err(e) => Err(e),
        Ok(values) => {
            let k = kept_count(neigen_values, values.len());
            match wanted_columns(eigenvecs, k) {
                Err(e) => Err(e),
                Ok(columns) => Ok((values.take(k), columns)),
            }
        },
    }
}

/// Reads the wanted eigenpairs from the files that a run has written.
pub fn read_eigenpairs(eigenvals: &[u8], eigenvecs: &[u8], neigen_values: usize) -> (pairs: Result<
    (Vec<u64>, Vec<Vec<u64>>),
    PetscReadError,
>)
    ensures
        match eigenpairs_in(eigenvals@, eigenvecs@, neigen_values as nat) {
            Ok((values, columns)) => pairs matches Ok(p) && p.0@ == values && column_views(p.1@)
                == columns,
            Err(e) => pairs == Err::<(Vec<u64>, Vec<Vec<u64>>), PetscReadError>(e),
        },
{
    let values = match petsc_read_eigenvals(eigenvals) {
        Err(e) => {
            return Err(e);
        },
        Ok(values) => values,
    };
    let k: usize = if neigen_values < values.len() {
        neigen_values
    } else {
        values.len()
    };
    match read_wanted_columns(eigenvecs, k) {
        Err(e) => Err(e),
        Ok(columns) => Ok((first_words(values.as_slice(), k), columns)),
    }
}

/// The files of a reduced run that hold its eigenvalues, and the parts of its eigenvectors that
/// belong to the first and to the second unknown.
pub fn reduced_output_names() -> (names: (String, String, String))
    ensures
        names.0@ == "eigenvals.bin"@,
        names.1@ == "eigenvecs_sigma.bin"@,
        names.2@ == "eigenvecs_u.bin"@,
{
    (owned("eigenvals.bin"), owned("eigenvecs_sigma.bin"), owned("eigenvecs_u.bin"))
}

/// Reads the wanted eigenvalues of a reduced run with both parts of their eigenvectors: the first
/// unknown, which was eliminated, and behind it the second one.
pub fn read_reduced_eigentriples(
    eigenvals: &[u8],
    eigenvecs_sigma: &[u8],
    eigenvecs_u: &[u8],
    neigen_values: usize,
) -> (triples: Result<(Vec<u64>, Vec<Vec<u64>>, Vec<Vec<u64>>), PetscReadError>)
    ensures
        match eigenpairs_in(eigenvals@, eigenvecs_sigma@, neigen_values as nat) {
            Err(e) => triples == Err::<(Vec<u64>, Vec<Vec<u64>>, Vec<Vec<u64>>), PetscReadError>(
                e,
            ),
            Ok((values, sigmas)) => match eigenpairs_in(
                eigenvals@,
                eigenvecs_u@,
                neigen_values as nat,
            ) {
                Err(e) => triples == Err::<
                    (Vec<u64>, Vec<Vec<u64>>, Vec<Vec<u64>>),
                    PetscReadError,
                >(e),
                Ok((_, us)) => triples matches Ok(t) && t.0@ == values && column_views(t.1@)
                    == sigmas && column_views(t.2@) == us,
            },
        },
{
    let (values, sigmas): (Vec<u64>, Vec<Vec<u64>>) = match read_eigenpairs(
        eigenvals,
        eigenvecs_sigma,
        neigen_values,
    ) {
        Err(e) => return Err(e),
        Ok(pairs) => pairs,
    };
    match read_eigenpairs(eigenvals, eigenvecs_u, neigen_values) {
        Err(e) => Err(e),
        Ok((_, us)) => Ok((values, sigmas, us)),
    }
}

} // verus!
