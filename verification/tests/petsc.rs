use formoniq::linalg::csr::CsrMatrix;
use formoniq::linalg::petsc::{
    direct_saddle_point_args, ghep_reduced_args, ghiep_args, harmonic_saddle_point_args,
    next_saddle_point_step, petsc_ghep_reduced_direct, petsc_ghep_reduced_iterative, petsc_ghiep,
    petsc_ghiep_largest, petsc_saddle_point, read_eigenpairs, read_reduced_eigentriples,
    reduced_output_names, GhiepReducedSolve, GhiepWhich,
    SaddlePointStep,
};
use formoniq::linalg::petsc_files::{
    petsc_read_eigenvals, petsc_read_eigenvecs, petsc_read_vector, petsc_write_matrix,
    petsc_write_vector, PetscReadError,
};

fn bits(values: &[f64]) -> Vec<u64> {
    values.iter().map(|v| v.to_bits()).collect()
}

fn words(values: &[i32]) -> Vec<u8> {
    values.iter().flat_map(|v| v.to_be_bytes()).collect()
}

fn reals(values: &[f64]) -> Vec<u8> {
    values.iter().flat_map(|v| v.to_be_bytes()).collect()
}

#[test]
fn ghiep_args_smallest_uses_shift_invert() {
    let args = ghiep_args(GhiepWhich::Smallest, 4);
    assert!(args.iter().any(|arg| arg == "-st_type"));
    assert!(args.iter().any(|arg| arg == "sinvert"));
    assert!(args.iter().any(|arg| arg == "4"));
}

#[test]
fn ghiep_args_largest_requests_largest_magnitude() {
    let args = ghiep_args(GhiepWhich::Largest, 3);
    assert!(args.iter().any(|arg| arg == "-eps_largest_magnitude"));
    assert!(args.iter().any(|arg| arg == "3"));
    assert!(!args.iter().any(|arg| arg == "-st_type"));
}

#[test]
fn ghep_reduced_args_direct_uses_lu() {
    let args = ghep_reduced_args(GhiepWhich::Largest, 4, GhiepReducedSolve::Direct);
    assert!(args.iter().any(|arg| arg == "-mkm1_ksp_type"));
    assert!(args.iter().any(|arg| arg == "preonly"));
    assert!(args.iter().any(|arg| arg == "-mkm1_pc_type"));
    assert!(args.iter().any(|arg| arg == "lu"));
}

#[test]
fn ghep_reduced_args_iterative_uses_cg() {
    let args = ghep_reduced_args(GhiepWhich::Largest, 4, GhiepReducedSolve::Iterative);
    assert!(args.iter().any(|arg| arg == "-mkm1_ksp_type"));
    assert!(args.iter().any(|arg| arg == "cg"));
    assert!(args.iter().any(|arg| arg == "-mkm1_pc_type"));
    assert!(args.iter().any(|arg| arg == "jacobi"));
}

#[test]
fn ghep_reduced_args_ask_for_four_times_as_many_vectors() {
    let args = ghep_reduced_args(GhiepWhich::Smallest, 25, GhiepReducedSolve::Direct);
    assert_eq!(args[6], "-eps_smallest_real");
    assert_eq!(args[8], "100");
    let args = ghep_reduced_args(GhiepWhich::Smallest, usize::MAX, GhiepReducedSolve::Direct);
    assert_eq!(args[8], usize::MAX.to_string());
}

#[test]
fn harmonic_saddle_point_args_without_harmonics_are_empty() {
    let args = harmonic_saddle_point_args(false);
    assert!(args.is_empty());
}

#[test]
fn harmonic_saddle_point_args_with_harmonics_use_fieldsplit() {
    let args = harmonic_saddle_point_args(true);
    assert!(args.iter().any(|arg| arg == "-pc_type"));
    assert!(args.iter().any(|arg| arg == "fieldsplit"));
    assert!(args.iter().any(|arg| arg == "-ksp_error_if_not_converged"));
}

#[test]
fn direct_saddle_point_args_use_lu_with_mumps() {
    let args = direct_saddle_point_args();
    assert!(args.iter().any(|arg| arg == "-pc_type"));
    assert!(args.iter().any(|arg| arg == "lu"));
    assert!(args.iter().any(|arg| arg == "-pc_factor_mat_solver_type"));
    assert!(args.iter().any(|arg| arg == "mumps"));
}

#[test]
fn vector_file_reads_back() {
    let vector = bits(&[1.5, -0.25, 1e300]);
    let bytes = petsc_write_vector(&vector);
    let mut expected = words(&[1211214, 3]);
    expected.extend(reals(&[1.5, -0.25, 1e300]));
    assert_eq!(bytes, expected);
    assert_eq!(petsc_read_vector(&bytes), Ok(vector));
}

#[test]
fn unreadable_vectors_are_told_apart() {
    assert_eq!(petsc_read_vector(&[0, 0]), Err(PetscReadError::EndOfFile));
    assert_eq!(
        petsc_read_vector(&words(&[1211216, 0])),
        Err(PetscReadError::WrongClass { found: 1211216 })
    );
    assert_eq!(petsc_read_vector(&words(&[1211214, -1])), Err(PetscReadError::NegativeCount));
    assert_eq!(petsc_read_vector(&words(&[1211214, 1])), Err(PetscReadError::EndOfFile));
    assert_eq!(petsc_read_vector(&words(&[1211214, 0])), Ok(vec![]));
}

#[test]
fn matrix_file_lists_rows_columns_and_values() {
    let matrix = CsrMatrix::from_row_major(
        3,
        2,
        vec![(0, 1, 2.0f64.to_bits()), (2, 0, (-1.0f64).to_bits()), (2, 1, 0.5f64.to_bits())],
    );
    let mut expected = words(&[1211216, 3, 2, 3, 1, 0, 2, 1, 0, 1]);
    expected.extend(reals(&[2.0, -1.0, 0.5]));
    assert_eq!(petsc_write_matrix(&matrix), expected);
}

#[test]
fn eigenpairs_are_cut_to_the_wanted_number() {
    let mut vals = words(&[3]);
    vals.extend(reals(&[1.0, 2.0, 3.0]));
    let mut vecs = words(&[2, 3]);
    for k in 0..3 {
        vecs.extend(words(&[1211214, 2]));
        vecs.extend(reals(&[k as f64, 10.0 * k as f64]));
    }
    assert_eq!(petsc_read_eigenvals(&vals), Ok(bits(&[1.0, 2.0, 3.0])));
    assert_eq!(
        petsc_read_eigenvecs(&vecs),
        Ok(vec![bits(&[0.0, 0.0]), bits(&[1.0, 10.0]), bits(&[2.0, 20.0])])
    );
    let (values, columns) = read_eigenpairs(&vals, &vecs, 2).unwrap();
    assert_eq!(values, bits(&[1.0, 2.0]));
    assert_eq!(columns, vec![bits(&[0.0, 0.0]), bits(&[1.0, 10.0])]);
    let (values, columns) = read_eigenpairs(&vals, &vecs, 7).unwrap();
    assert_eq!(values.len(), 3);
    assert_eq!(columns.len(), 3);
}

#[test]
fn unreadable_eigenvectors_are_told_apart() {
    let mut vals = words(&[1]);
    vals.extend(reals(&[1.0]));
    assert_eq!(
        read_eigenpairs(&vals, &words(&[2, 0]), 1),
        Err(PetscReadError::MissingEigenvectors)
    );
    assert_eq!(petsc_read_eigenvecs(&words(&[2])), Err(PetscReadError::EndOfFile));
    assert_eq!(petsc_read_eigenvecs(&words(&[-2, 1])), Err(PetscReadError::NegativeCount));
    assert_eq!(
        petsc_read_eigenvecs(&words(&[1, 1, 7, 1])),
        Err(PetscReadError::WrongClass { found: 7 })
    );
    assert_eq!(
        petsc_read_eigenvecs(&words(&[1, 1, 1211214, 5])),
        Err(PetscReadError::WrongLength { found: 5 })
    );
    assert_eq!(
        petsc_read_eigenvecs(&words(&[1, 1, 1211214, 1])),
        Err(PetscReadError::EndOfFile)
    );
}

#[test]
fn runs_name_their_program_and_files() {
    let m = CsrMatrix::from_row_major(1, 1, vec![(0, 0, 1.0f64.to_bits())]);
    let run = petsc_ghiep(&m, &m, 1);
    assert_eq!(run.binary, "ghiep.out");
    assert_eq!(run.inputs[1], ("B.bin".to_string(), petsc_write_matrix(&m)));
    assert_eq!(run.args, ghiep_args(GhiepWhich::Smallest, 1));
    assert_eq!(petsc_ghiep_largest(&m, &m, 1).args, ghiep_args(GhiepWhich::Largest, 1));
    let run = petsc_ghep_reduced_direct(&m, &m, &m, &m, &m, 1, GhiepWhich::Largest);
    let names: Vec<&str> = run.inputs.iter().map(|input| input.0.as_str()).collect();
    assert_eq!(names, vec!["L.bin", "D.bin", "C.bin", "Mkm1.bin", "Mk.bin"]);
    let run = petsc_ghep_reduced_iterative(&m, &m, &m, &m, &m, 1, GhiepWhich::Largest);
    assert_eq!(run.binary, "ghep_reduced.out");
    assert_eq!(
        run.args,
        ghep_reduced_args(GhiepWhich::Largest, 1, GhiepReducedSolve::Iterative)
    );
    let run = petsc_saddle_point(&m, &bits(&[4.0]), false);
    assert_eq!(run.inputs[1], ("b.bin".to_string(), petsc_write_vector(&bits(&[4.0]))));
    assert_eq!(run.args, direct_saddle_point_args());
    assert_eq!(petsc_saddle_point(&m, &[], true).args, harmonic_saddle_point_args(true));
}

#[test]
fn a_failed_harmonic_solve_is_retried_once() {
    assert!(matches!(next_saddle_point_step(true, false, true), SaddlePointStep::Solved));
    match next_saddle_point_step(true, false, false) {
        SaddlePointStep::Run { args } => assert_eq!(args, direct_saddle_point_args()),
        _ => panic!("no retry"),
    }
    assert!(matches!(next_saddle_point_step(true, true, false), SaddlePointStep::Failed));
    assert!(matches!(next_saddle_point_step(false, false, false), SaddlePointStep::Failed));
}

#[test]
fn reduced_eigenvectors_hold_the_first_unknown_before_the_second() {
    let (values, sigmas, us) = reduced_output_names();
    assert_eq!(values, "eigenvals.bin");
    assert_eq!((sigmas.as_str(), us.as_str()), ("eigenvecs_sigma.bin", "eigenvecs_u.bin"));

    let mut vals = words(&[2]);
    vals.extend(reals(&[4.0, 5.0]));
    let columns = |rows: i32, scale: f64| {
        let mut file = words(&[rows, 2]);
        for k in 0..2 {
            file.extend(words(&[1211214, rows]));
            file.extend(reals(&vec![scale + k as f64; rows as usize]));
        }
        file
    };
    let (values, sigmas, us) =
        read_reduced_eigentriples(&vals, &columns(1, 10.0), &columns(2, 20.0), 1).unwrap();
    assert_eq!(values, bits(&[4.0]));
    assert_eq!(sigmas, vec![bits(&[10.0])]);
    assert_eq!(us, vec![bits(&[20.0, 20.0])]);
    assert_eq!(
        read_reduced_eigentriples(&vals, &columns(1, 10.0), &words(&[2, 0]), 1),
        Err(PetscReadError::MissingEigenvectors)
    );
}
