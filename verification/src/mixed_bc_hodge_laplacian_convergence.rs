//! Convergence of the Hodge-Laplace source problem with mixed boundary conditions.

use crate::linalg::scalar::Scalar;
use crate::output::{convergence_rate_spec, csv_line, joined, rate_text, texts};
use crate::output::{convergence_rate, finite_rate_field, join_path, number_field, push_csv_line};
use crate::text::decimal;
use crate::text::owned;
use vstd::prelude::*;

verus! {

/// The resolutions of a run that names none.
pub const DEFAULT_RESOLUTIONS: [usize; 5] = [2, 4, 8, 16, 32];

/// One resolution of a convergence table.
#[derive(Debug, Clone, PartialEq)]
pub struct MixedBcHodgeLaplacianConvergenceRecord<T> {
    pub resolution: usize,
    pub h: T,
    pub u_dofs: usize,
    pub l2_error: T,
    pub l2_rate: T,
    pub hd_error: T,
    pub hd_rate: T,
    pub wall_seconds: T,
}

/// Where the table of a run is written.
pub fn convergence_csv_output_path(output_dir: &str) -> (path: String)
    ensures
        path@ == joined(output_dir@, "convergence.csv"@),
{
    join_path(output_dir, "convergence.csv")
}

/// The fields of a record.
pub open spec fn record_fields<T: Scalar>(record: MixedBcHodgeLaplacianConvergenceRecord<T>) -> Seq<Seq<char>> {
    seq![
        decimal(record.resolution as nat),
        record.h.scientific_spec(12),
        decimal(record.u_dofs as nat),
        record.l2_error.scientific_spec(12),
        rate_text(record.l2_rate),
        record.hd_error.scientific_spec(12),
        rate_text(record.hd_rate),
        record.wall_seconds.scientific_spec(12),
    ]
}

/// The lines of records.
pub open spec fn record_lines<T: Scalar>(records: Seq<MixedBcHodgeLaplacianConvergenceRecord<T>>) -> Seq<char>
    decreases records.len(),
{
    if records.len() == 0 {
        Seq::empty()
    } else {
        record_lines(records.drop_last()) + csv_line(record_fields(records.last()))
    }
}

/// The table of records.
pub open spec fn convergence_csv<T: Scalar>(records: Seq<MixedBcHodgeLaplacianConvergenceRecord<T>>) -> Seq<char> {
    "resolution,h,u_dofs,l2_error,l2_rate,hd_error,hd_rate,wall_seconds\n"@ + record_lines(records)
}

/// The table of records.
pub fn write_convergence_csv<T: Scalar>(records: &[MixedBcHodgeLaplacianConvergenceRecord<T>]) -> (table: String)
    ensures
        table@ == convergence_csv(records@),
{
    let mut table = owned("resolution,h,u_dofs,l2_error,l2_rate,hd_error,hd_rate,wall_seconds\n");
    let ghost head = table@;
    let mut i: usize = 0;
    while i < records.len()
        invariant
            i <= records@.len(),
            head == "resolution,h,u_dofs,l2_error,l2_rate,hd_error,hd_rate,wall_seconds\n"@,
            table@ =~= head + record_lines(records@.take(i as int)),
        decreases records@.len() - i,
    {
        let record = &records[i];
        let fields = [
            number_field(record.resolution),
            record.h.scientific(12),
            number_field(record.u_dofs),
            record.l2_error.scientific(12),
            finite_rate_field(record.l2_rate),
            record.hd_error.scientific(12),
            finite_rate_field(record.hd_rate),
            record.wall_seconds.scientific(12),
        ];
        push_csv_line(&mut table, fields.as_slice());
        proof {
            assert(texts(fields@) =~= record_fields(*record));
            let next = records@.take(i + 1);
            assert(next.drop_last() =~= records@.take(i as int));
            assert(next.last() == records@[i as int]);
        }
        i = i + 1;
    }
    proof {
        assert(records@.take(i as int) =~= records@);
    }
    table
}

/// Fails on an empty list of resolutions and on the resolution zero.
pub fn check_resolutions(resolutions: &[usize]) -> (checked: Result<(), String>)
    ensures
        checked is Ok == (resolutions@.len() > 0 && !resolutions@.contains(0)),
        checked matches Err(text) ==> text@ == (if resolutions@.len() == 0 {
            "at least one resolution is required"@
        } else {
            "resolutions must be positive"@
        }),
{
    if resolutions.len() == 0 {
        return Err(owned("at least one resolution is required"));
    }
    let mut i: usize = 0;
    while i < resolutions.len()
        invariant
            i <= resolutions@.len(),
            resolutions@.len() > 0,
            forall|j: int| 0 <= j < i ==> #[trigger] resolutions@[j] != 0,
        decreases resolutions@.len() - i,
    {
        if resolutions[i] == 0 {
            return Err(owned("resolutions must be positive"));
        }
        i = i + 1;
    }
    Ok(())
}

/// The faces of the unit cube through the origin carry strong boundary conditions.
pub open spec fn strong_face<T: Scalar>(barycenter: Seq<T>) -> bool {
    barycenter[0].is_zero_spec() || barycenter[1].is_zero_spec() || barycenter[2].is_zero_spec()
}

/// Whether a point of the boundary of the unit cube carries strong boundary conditions; the
/// others carry weak ones.
pub fn strong_dof_predicate<T: Scalar>(barycenter: &[T]) -> (strong: bool)
    requires
        barycenter@.len() >= 3,
    ensures
        strong == strong_face(barycenter@),
{
    barycenter[0].is_zero() || barycenter[1].is_zero() || barycenter[2].is_zero()
}

/// The rate of an error against the previous record; infinite for the first record.
pub open spec fn rate_after<T: Scalar>(previous: Option<(T, T)>, h: T, error: T) -> T {
    match previous {
        Some((prev_h, prev_error)) => convergence_rate_spec(prev_h, prev_error, h, error),
        None => T::infinity_spec(),
    }
}

fn rate_of<T: Scalar>(previous: Option<(T, T)>, h: T, error: T) -> (rate: T)
    ensures
        rate == rate_after(previous, h, error),
{
    match previous {
        Some((prev_h, prev_error)) => convergence_rate(prev_h, prev_error, h, error),
        None => T::infinity(),
    }
}

/// The record of a resolution with its rates against the last of the records before it.
pub open spec fn next_record<T: Scalar>(
    records: Seq<MixedBcHodgeLaplacianConvergenceRecord<T>>,
    resolution: usize,
    h: T,
    u_dofs: usize,
    l2_error: T,
    hd_error: T,
    wall_seconds: T,
) -> MixedBcHodgeLaplacianConvergenceRecord<T> {
    let last = records.last();
    MixedBcHodgeLaplacianConvergenceRecord {
        resolution,
        h,
        u_dofs,
        l2_error,
        hd_error,
        wall_seconds,
        l2_rate: rate_after(
            if records.len() > 0 {
                Some((last.h, last.l2_error))
            } else {
                None
            },
            h,
            l2_error,
        ),
        hd_rate: rate_after(
            if records.len() > 0 {
                Some((last.h, last.hd_error))
            } else {
                None
            },
            h,
            hd_error,
        ),
    }
}

/// Appends the record of a resolution with its rates against the last of the records.
pub fn push_record<T: Scalar>(
    records: &mut Vec<MixedBcHodgeLaplacianConvergenceRecord<T>>,
    resolution: usize,
    h: T,
    u_dofs: usize,
    l2_error: T,
    hd_error: T,
    wall_seconds: T,
)
    ensures
        final(records)@ == old(records)@.push(
            next_record(old(records)@, resolution, h, u_dofs, l2_error, hd_error, wall_seconds),
        ),
{
    let (previous_l2, previous_hd): (Option<(T, T)>, Option<(T, T)>) = if records.len() > 0 {
        let last = &records[records.len() - 1];
        (Some((last.h, last.l2_error)), Some((last.h, last.hd_error)))
    } else {
        (None, None)
    };
    let l2_rate = rate_of(previous_l2, h, l2_error);
    let hd_rate = rate_of(previous_hd, h, hd_error);
    records.push(
        MixedBcHodgeLaplacianConvergenceRecord { resolution, h, u_dofs, l2_error, hd_error, wall_seconds, l2_rate, hd_rate },
    );
}

} // verus!
