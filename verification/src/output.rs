//! Paths and tables of results.

use crate::linalg::scalar::Scalar;
use crate::text::decimal;
use crate::text::{owned, push_decimal};
use vstd::prelude::*;
use vstd::string::*;

verus! {

/// A relative name below a directory.
pub open spec fn joined(dir: Seq<char>, name: Seq<char>) -> Seq<char> {
    if dir.len() == 0 || dir.last() == '/' {
        dir + name
    } else {
        dir.push('/') + name
    }
}

/// A relative name below a directory.
pub fn join_path(dir: &str, name: &str) -> (path: String)
    ensures
        path@ == joined(dir@, name@),
{
    let mut path = owned(dir);
    let len: usize = dir.unicode_len();
    if len > 0 && dir.get_char(len - 1) != '/' {
        path.push('/');
    }
    path.append(name);
    path
}

/// The rate at which an error falls with the mesh width.
pub open spec fn convergence_rate_spec<T: Scalar>(prev_h: T, prev_error: T, h: T, error: T) -> T {
    prev_error.over_spec(error).logarithm_spec().over_spec(
        prev_h.over_spec(h).logarithm_spec(),
    )
}

/// The rate at which an error falls with the mesh width.
pub fn convergence_rate<T: Scalar>(prev_h: T, prev_error: T, h: T, error: T) -> (rate: T)
    ensures
        rate == convergence_rate_spec(prev_h, prev_error, h, error),
{
    prev_error.over(error).logarithm().over(prev_h.over(h).logarithm())
}

/// A rate as text, empty unless it is a number.
pub open spec fn rate_text<T: Scalar>(rate: T) -> Seq<char> {
    if rate.is_finite_spec() {
        rate.scientific_spec(12)
    } else {
        Seq::empty()
    }
}

/// A rate as text, empty unless it is a number.
pub fn finite_rate_field<T: Scalar>(rate: T) -> (text: String)
    ensures
        text@ == rate_text(rate),
{
    if rate.is_finite() {
        rate.scientific(12)
    } else {
        let text = String::new();
        proof {
            assert(text@ =~= Seq::<char>::empty());
        }
        text
    }
}

/// The fields of a line, with commas between them and a line break at the end.
pub open spec fn csv_line(fields: Seq<Seq<char>>) -> Seq<char> {
    csv_fields(fields).push('\n')
}

/// Fields with commas between them.
pub open spec fn csv_fields(fields: Seq<Seq<char>>) -> Seq<char>
    decreases fields.len(),
{
    if fields.len() == 0 {
        Seq::empty()
    } else if fields.len() == 1 {
        fields[0]
    } else {
        csv_fields(fields.drop_last()).push(',') + fields.last()
    }
}

/// The characters of texts.
pub open spec fn texts(items: Seq<String>) -> Seq<Seq<char>> {
    Seq::new(items.len(), |i: int| items[i]@)
}

/// Appends a line of comma-separated fields.
pub fn push_csv_line(table: &mut String, fields: &[String])
    ensures
        final(table)@ == old(table)@ + csv_line(texts(fields@)),
{
    let ghost before = table@;
    let mut i: usize = 0;
    while i < fields.len()
        invariant
            i <= fields@.len(),
            table@ =~= before + csv_fields(texts(fields@).take(i as int)),
        decreases fields@.len() - i,
    {
        let ghost here = table@;
        if i > 0 {
            table.push(',');
        }
        table.append(fields[i].as_str());
        proof {
            let next = texts(fields@).take(i + 1);
            assert(next.drop_last() =~= texts(fields@).take(i as int));
            assert(next.last() == fields@[i as int]@);
        }
        i = i + 1;
    }
    table.push('\n');
    proof {
        assert(texts(fields@).take(i as int) =~= texts(fields@));
        assert(table@ =~= before + csv_line(texts(fields@)));
    }
}

/// A number as a field.
pub fn number_field(n: usize) -> (text: String)
    ensures
        text@ == decimal(n as nat),
{
    let mut text = String::new();
    push_decimal(&mut text, n);
    proof {
        assert(text@ =~= decimal(n as nat));
    }
    text
}

} // verus!
