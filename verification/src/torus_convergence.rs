//! Convergence of the Hodge-Laplace source problem on a torus.

use crate::linalg::scalar::Scalar;
use crate::output::{convergence_rate_spec, csv_line, joined, rate_text, texts};
use crate::output::{convergence_rate, finite_rate_field, join_path, number_field, push_csv_line};
use crate::text::decimal;
use crate::text::{owned, push_decimal};
use vstd::prelude::*;
use vstd::string::*;

verus! {

/// The resolutions of a run that names none.
pub const DEFAULT_RESOLUTIONS: [usize; 6] = [0, 1, 2, 3, 4, 5];

/// One resolution of a convergence table.
#[derive(Debug, Clone, PartialEq)]
pub struct TorusConvergenceRecord<T> {
    pub resolution: usize,
    pub h: T,
    pub l2_error: T,
    pub l2_rate: T,
    pub hd_error: T,
    pub hd_rate: T,
    pub wall_seconds: T,
}

/// Where the table of a run is written.
pub fn convergence_csv_output_path(output_dir: &str) -> (path: String)
    ensures
        path@ == joined(output_dir@, "convergence.csv"@),
{
    join_path(output_dir, "convergence.csv")
}

/// The fields of a record.
pub open spec fn record_fields<T: Scalar>(record: TorusConvergenceRecord<T>) -> Seq<Seq<char>> {
    seq![
        decimal(record.resolution as nat),
        record.h.scientific_spec(12),
        record.l2_error.scientific_spec(12),
        rate_text(record.l2_rate),
        record.hd_error.scientific_spec(12),
        rate_text(record.hd_rate),
        record.wall_seconds.scientific_spec(12),
    ]
}

/// The lines of records.
pub open spec fn record_lines<T: Scalar>(records: Seq<TorusConvergenceRecord<T>>) -> Seq<char>
    decreases records.len(),
{
    if records.len() == 0 {
        Seq::empty()
    } else {
        record_lines(records.drop_last()) + csv_line(record_fields(records.last()))
    }
}

/// The table of records.
pub open spec fn convergence_csv<T: Scalar>(records: Seq<TorusConvergenceRecord<T>>) -> Seq<char> {
    "resolution,h,l2_error,l2_rate,hd_error,hd_rate,wall_seconds\n"@ + record_lines(records)
}

/// The table of records.
pub fn write_convergence_csv<T: Scalar>(records: &[TorusConvergenceRecord<T>]) -> (table: String)
    ensures
        table@ == convergence_csv(records@),
{
    let mut table = owned("resolution,h,l2_error,l2_rate,hd_error,hd_rate,wall_seconds\n");
    let ghost head = table@;
    let mut i: usize = 0;
    while i < records.len()
        invariant
            i <= records@.len(),
            head == "resolution,h,l2_error,l2_rate,hd_error,hd_rate,wall_seconds\n"@,
            table@ =~= head + record_lines(records@.take(i as int)),
        decreases records@.len() - i,
    {
        let record = &records[i];
        let fields = [
            number_field(record.resolution),
            record.h.scientific(12),
            record.l2_error.scientific(12),
            finite_rate_field(record.l2_rate),
            record.hd_error.scientific(12),
            finite_rate_field(record.hd_rate),
            record.wall_seconds.scientific(12),
        ];
        push_csv_line(&mut table, fields.as_slice());
        proof {
            assert(texts(fields@) =~= record_fields(*record));
            let next = records@.take(i + 1);
            assert(next.drop_last() =~= records@.take(i as int));
            assert(next.last() == records@[i as int]);
        }
        i = i + 1;
    }
    proof {
        assert(records@.take(i as int) =~= records@);
    }
    table
}

/// The directory of a resolution.
pub open spec fn resolution_dir(output_dir: Seq<char>, resolution: nat) -> Seq<char> {
    joined(output_dir, "resolution_"@ + decimal(resolution))
}

/// The directory of a resolution.
pub fn resolution_output_dir(output_dir: &str, resolution: usize) -> (path: String)
    ensures
        path@ == resolution_dir(output_dir@, resolution as nat),
{
    let mut name = owned("resolution_");
    push_decimal(&mut name, resolution);
    join_path(output_dir, name.as_str())
}

/// Where the computed field of a resolution is written.
pub fn computed_vector_field_output_path(output_dir: &str, resolution: usize) -> (path: String)
    ensures
        path@ == joined(
            resolution_dir(output_dir@, resolution as nat),
            "solution_computed_vector_field.vtk"@,
        ),
{
    let dir = resolution_output_dir(output_dir, resolution);
    join_path(dir.as_str(), "solution_computed_vector_field.vtk")
}

/// Where the projection of the exact field of a resolution is written.
pub fn projected_exact_vector_field_output_path(output_dir: &str, resolution: usize) -> (path:
    String)
    ensures
        path@ == joined(
            resolution_dir(output_dir@, resolution as nat),
            "solution_projected_exact_vector_field.vtk"@,
        ),
{
    let dir = resolution_output_dir(output_dir, resolution);
    join_path(dir.as_str(), "solution_projected_exact_vector_field.vtk")
}

/// Fails on an empty list of resolutions.
pub fn check_resolutions(resolutions: &[usize]) -> (checked: Result<(), String>)
    ensures
        checked is Ok == (resolutions@.len() > 0),
        checked matches Err(text) ==> text@ == "at least one resolution is required"@,
{
    if resolutions.len() == 0 {
        return Err(owned("at least one resolution is required"));
    }
    Ok(())
}

/// The mesh of a resolution, below the directory of example inputs.
pub fn torus_mesh_name(resolution: usize) -> (name: String)
    ensures
        name@ == "meshes/torus_shell_resolution_"@ + decimal(resolution as nat) + ".msh"@,
{
    let mut name = owned("meshes/torus_shell_resolution_");
    push_decimal(&mut name, resolution);
    name.append(".msh");
    name
}

/// The mesh of a resolution, below the directory of generated files.
pub fn generated_torus_mesh_name(resolution: usize) -> (name: String)
    ensures
        name@ == "torus_convergence_meshes/torus_shell_resolution_"@ + decimal(resolution as nat)
            + ".msh"@,
{
    let mut name = owned("torus_convergence_meshes/torus_shell_resolution_");
    push_decimal(&mut name, resolution);
    name.append(".msh");
    name
}

/// The rate of an error against the previous record; infinite for the first record.
pub open spec fn rate_after<T: Scalar>(previous: Option<(T, T)>, h: T, error: T) -> T {
    match previous {
        Some((prev_h, prev_error)) => convergence_rate_spec(prev_h, prev_error, h, error),
        None => T::infinity_spec(),
    }
}

fn rate_of<T: Scalar>(previous: Option<(T, T)>, h: T, error: T) -> (rate: T)
    ensures
        rate == rate_after(previous, h, error),
{
    match previous {
        Some((prev_h, prev_error)) => convergence_rate(prev_h, prev_error, h, error),
        None => T::infinity(),
    }
}

/// The record of a resolution with its rates against the last of the records before it.
pub open spec fn next_record<T: Scalar>(
    records: Seq<TorusConvergenceRecord<T>>,
    resolution: usize,
    h: T,
    l2_error: T,
    hd_error: T,
    wall_seconds: T,
) -> TorusConvergenceRecord<T> {
    let last = records.last();
    TorusConvergenceRecord {
        resolution,
        h,
        l2_error,
        hd_error,
        wall_seconds,
        l2_rate: rate_after(
            if records.len() > 0 {
                Some((last.h, last.l2_error))
            } else {
                None
            },
            h,
            l2_error,
        ),
        hd_rate: rate_after(
            if records.len() > 0 {
                Some((last.h, last.hd_error))
            } else {
                None
            },
            h,
            hd_error,
        ),
    }
}

/// Appends the record of a resolution with its rates against the last of the records.
pub fn push_record<T: Scalar>(
    records: &mut Vec<TorusConvergenceRecord<T>>,
    resolution: usize,
    h: T,
    l2_error: T,
    hd_error: T,
    wall_seconds: T,
)
    ensures
        final(records)@ == old(records)@.push(
            next_record(old(records)@, resolution, h, l2_error, hd_error, wall_seconds),
        ),
{
    let (previous_l2, previous_hd): (Option<(T, T)>, Option<(T, T)>) = if records.len() > 0 {
        let last = &records[records.len() - 1];
        (Some((last.h, last.l2_error)), Some((last.h, last.hd_error)))
    } else {
        (None, None)
    };
    let l2_rate = rate_of(previous_l2, h, l2_error);
    let hd_rate = rate_of(previous_hd, h, hd_error);
    records.push(
        TorusConvergenceRecord { resolution, h, l2_error, hd_error, wall_seconds, l2_rate, hd_rate },
    );
}

} // verus!
