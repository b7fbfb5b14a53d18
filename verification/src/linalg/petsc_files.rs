//! The binary files that the PETSc helper programs read and write. Reals are held as
//! their bit patterns.

use crate::linalg::csr::CsrMatrix;
use byteorder::{BigEndian, ReadBytesExt, WriteBytesExt};
use vstd::prelude::*;

verus! {

pub const PETSC_MAT_FILE_CLASSID: i32 = 1211216;

pub const PETSC_VEC_FILE_CLASSID: i32 = 1211214;

/// The last `width` bytes of a number, the most significant first.
pub open spec fn be_bytes(width: nat, value: nat) -> Seq<u8>
    decreases width,
{
    if width == 0 {
        Seq::empty()
    } else {
        be_bytes((width - 1) as nat, value / 256).push((value % 256) as u8)
    }
}

/// The number with the given bytes, the most significant first.
pub open spec fn be_value(bytes: Seq<u8>) -> nat
    decreases bytes.len(),
{
    if bytes.len() == 0 {
        0
    } else {
        be_value(bytes.drop_last()) * 256 + bytes.last() as nat
    }
}

/// The largest number of `width` bytes, plus one.
pub open spec fn byte_range(width: nat) -> nat
    decreases width,
{
    if width == 0 {
        1
    } else {
        byte_range((width - 1) as nat) * 256
    }
}

/// The unsigned word with the bits of a signed one.
pub open spec fn unsigned_word(value: int) -> nat {
    if value < 0 {
        (value + 0x1_0000_0000) as nat
    } else {
        value as nat
    }
}

/// The signed word with the bits of an unsigned one.
pub open spec fn signed_word(value: nat) -> int {
    if value < 0x8000_0000 {
        value as int
    } else {
        value - 0x1_0000_0000
    }
}

proof fn lemma_be_bytes_len(width: nat, value: nat)
    ensures
        be_bytes(width, value).len() == width,
    decreases width,
{
    if width > 0 {
        lemma_be_bytes_len((width - 1) as nat, value / 256);
    }
}

/// A number that fits is read back from its bytes.
pub proof fn be_bytes_hold_value(width: nat, value: nat)
    requires
        value < byte_range(width),
    ensures
        be_bytes(width, value).len() == width,
        be_value(be_bytes(width, value)) == value,
    decreases width,
{
    lemma_be_bytes_len(width, value);
    if width > 0 {
        let high = value / 256;
        assert(high < byte_range((width - 1) as nat));
        be_bytes_hold_value((width - 1) as nat, high);
        assert(be_bytes(width, value).drop_last() =~= be_bytes((width - 1) as nat, high));
        assert(((value % 256) as u8) as nat == value % 256);
    }
}

proof fn lemma_ranges()
    ensures
        byte_range(4) == 0x1_0000_0000,
        byte_range(8) == 0x1_0000_0000_0000_0000,
{
    reveal_with_fuel(byte_range, 9);
}

proof fn lemma_be_value_bound(bytes: Seq<u8>)
    ensures
        be_value(bytes) < byte_range(bytes.len()),
    decreases bytes.len(),
{
    if bytes.len() > 0 {
        lemma_be_value_bound(bytes.drop_last());
    }
}

/// `WriteBytesExt::write_i32` with `BigEndian` appends the four bytes of the word to a
/// vector, the most significant first.
#[verifier::external_body]
fn push_i32(bytes: &mut Vec<u8>, value: i32)
    ensures
        final(bytes)@ == old(bytes)@ + be_bytes(4, unsigned_word(value as int)),
{
    bytes.write_i32::<BigEndian>(value).unwrap();
}

/// `WriteBytesExt::write_u64` with `BigEndian` appends the eight bytes of the word to a
/// vector, the most significant first.
#[verifier::external_body]
fn push_u64(bytes: &mut Vec<u8>, value: u64)
    ensures
        final(bytes)@ == old(bytes)@ + be_bytes(8, value as nat),
{
    bytes.write_u64::<BigEndian>(value).unwrap();
}

/// `ReadBytesExt::read_i32` with `BigEndian` takes four bytes from the front of a slice and
/// fails if there are fewer. What is left of the slice after a failure is not stated.
#[verifier::external_body]
fn read_i32(reader: &mut &[u8]) -> (value: Option<i32>)
    ensures
        value is Some == (old(reader)@.len() >= 4),
        value matches Some(v) ==> v == signed_word(be_value(old(reader)@.take(4)))
            && final(reader)@ == old(reader)@.skip(4),
{
    reader.read_i32::<BigEndian>().ok()
}

/// `ReadBytesExt::read_u64` with `BigEndian` takes eight bytes from the front of a slice and
/// fails if there are fewer. What is left of the slice after a failure is not stated.
#[verifier::external_body]
fn read_u64(reader: &mut &[u8]) -> (value: Option<u64>)
    ensures
        value is Some == (old(reader)@.len() >= 8),
        value matches Some(v) ==> v == be_value(old(reader)@.take(8)) && final(reader)@ == old(
            reader,
        )@.skip(8),
{
    reader.read_u64::<BigEndian>().ok()
}

/// The bytes of words.
pub open spec fn words_bytes(values: Seq<u64>) -> Seq<u8>
    decreases values.len(),
{
    if values.len() == 0 {
        Seq::empty()
    } else {
        words_bytes(values.drop_last()) + be_bytes(8, values.last() as nat)
    }
}

/// The file of a vector.
pub open spec fn vector_bytes(values: Seq<u64>) -> Seq<u8> {
    be_bytes(4, 1211214) + be_bytes(4, values.len() % 0x1_0000_0000) + words_bytes(values)
}

/// The low word of a number.
fn low_word(n: usize) -> (word: i32)
    ensures
        unsigned_word(word as int) == n as nat % 0x1_0000_0000,
{
    let low: u64 = n as u64 % 0x1_0000_0000u64;
    if low < 0x8000_0000u64 {
        low as i32
    } else {
        (low - 0x8000_0000u64) as i32 + i32::MIN
    }
}

/// The bytes of the file of a vector.
pub fn petsc_write_vector(vector: &[u64]) -> (bytes: Vec<u8>)
    ensures
        bytes@ == vector_bytes(vector@),
{
    let mut bytes: Vec<u8> = Vec::new();
    push_i32(&mut bytes, PETSC_VEC_FILE_CLASSID);
    push_i32(&mut bytes, low_word(vector.len()));
    let ghost head = bytes@;
    proof {
        assert(head =~= be_bytes(4, 1211214) + be_bytes(4, vector@.len() % 0x1_0000_0000));
    }
    let mut i: usize = 0;
    while i < vector.len()
        invariant
            i <= vector@.len(),
            bytes@ =~= head + words_bytes(vector@.take(i as int)),
        decreases vector@.len() - i,
    {
        push_u64(&mut bytes, vector[i]);
        proof {
            let next = vector@.take(i + 1);
            assert(next.drop_last() =~= vector@.take(i as int));
            assert(next.last() == vector@[i as int]);
        }
        i = i + 1;
    }
    proof {
        assert(vector@.take(i as int) =~= vector@);
    }
    bytes
}

/// Why a file cannot be read.
#[derive(Debug, Clone, Copy, PartialEq, Eq, Structural)]
pub enum PetscReadError {
    /// The file ends too early.
    EndOfFile,
    /// The file does not hold a vector where it should.
    WrongClass { found: i32 },
    /// A count is negative.
    NegativeCount,
    /// A column does not have the length of the others.
    WrongLength { found: i32 },
    /// There are fewer eigenvectors than wanted eigenvalues.
    MissingEigenvectors,
}

/// The signed word at position `at`.
pub open spec fn word_at(bytes: Seq<u8>, at: int) -> int {
    signed_word(be_value(bytes.subrange(at, at + 4)))
}

/// The first `n` long words.
pub open spec fn words(bytes: Seq<u8>, n: nat) -> Seq<u64> {
    Seq::new(n, |i: int| be_value(bytes.subrange(8 * i, 8 * i + 8)) as u64)
}

/// What a file that starts with a count of reals holds.
pub open spec fn counted_words(bytes: Seq<u8>) -> Result<Seq<u64>, PetscReadError> {
    if bytes.len() < 4 {
        Err(PetscReadError::EndOfFile)
    } else if word_at(bytes, 0) < 0 {
        Err(PetscReadError::NegativeCount)
    } else if bytes.len() < 4 + 8 * word_at(bytes, 0) {
        Err(PetscReadError::EndOfFile)
    } else {
        Ok(words(bytes.skip(4), word_at(bytes, 0) as nat))
    }
}

/// What the file of a vector holds.
pub open spec fn vector_in(bytes: Seq<u8>) -> Result<Seq<u64>, PetscReadError> {
    if bytes.len() < 4 {
        Err(PetscReadError::EndOfFile)
    } else if word_at(bytes, 0) != PETSC_VEC_FILE_CLASSID {
        Err(PetscReadError::WrongClass { found: word_at(bytes, 0) as i32 })
    } else {
        counted_words(bytes.skip(4))
    }
}

/// What the record of a column with `nrows` values holds.
pub open spec fn column_in(bytes: Seq<u8>, nrows: nat) -> Result<Seq<u64>, PetscReadError> {
    if bytes.len() < 4 {
        Err(PetscReadError::EndOfFile)
    } else if word_at(bytes, 0) != PETSC_VEC_FILE_CLASSID {
        Err(PetscReadError::WrongClass { found: word_at(bytes, 0) as i32 })
    } else if bytes.len() < 8 {
        Err(PetscReadError::EndOfFile)
    } else if word_at(bytes, 4) != nrows {
        Err(PetscReadError::WrongLength { found: word_at(bytes, 4) as i32 })
    } else if bytes.len() < 8 + 8 * nrows {
        Err(PetscReadError::EndOfFile)
    } else {
        Ok(words(bytes.skip(8), nrows))
    }
}

/// The first `ncols` columns, or why one of them, the earliest, cannot be read.
pub open spec fn columns_in(bytes: Seq<u8>, nrows: nat, ncols: nat) -> Result<
    Seq<Seq<u64>>,
    PetscReadError,
>
    decreases ncols,
{
    if ncols == 0 {
        Ok(Seq::empty())
    } else {
        match columns_in(bytes, nrows, (ncols - 1) as nat) {
            Err(e) => Err(e),
            Ok(columns) => match column_in(bytes.skip((ncols - 1) * (8 + 8 * nrows)), nrows) {
                Err(e) => Err(e),
                Ok(column) => Ok(columns.push(column)),
            },
        }
    }
}

/// The columns of a file of eigenvectors.
pub open spec fn eigenvecs_in(bytes: Seq<u8>) -> Result<Seq<Seq<u64>>, PetscReadError> {
    if bytes.len() < 8 {
        Err(PetscReadError::EndOfFile)
    } else if word_at(bytes, 0) < 0 || word_at(bytes, 4) < 0 {
        Err(PetscReadError::NegativeCount)
    } else {
        columns_in(bytes.skip(8), word_at(bytes, 0) as nat, word_at(bytes, 4) as nat)
    }
}

fn read_words(reader: &mut &[u8], n: usize) -> (values: Option<Vec<u64>>)
    requires
        n <= i32::MAX,
    ensures
        values is Some == (old(reader)@.len() >= 8 * n),
        values matches Some(v) ==> v@ == words(old(reader)@, n as nat) && final(reader)@ == old(
            reader,
        )@.skip(8 * n),
{
    let ghost bytes = reader@;
    let mut values: Vec<u64> = Vec::new();
    let mut i: usize = 0;
    proof {
        assert(bytes.skip(0) =~= bytes);
    }
    while i < n
        invariant
            i <= n <= i32::MAX,
            bytes == old(reader)@,
            bytes.len() >= 8 * i,
            reader@ == bytes.skip(8 * i),
            values@ == words(bytes, i as nat),
        decreases n - i,
    {
        let ghost rest = reader@;
        match read_u64(reader) {
            Some(value) => {
                values.push(value);
                proof {
                    assert(rest.take(8) =~= bytes.subrange(8 * i, 8 * i + 8));
                    assert(rest.skip(8) =~= bytes.skip(8 * (i + 1)));
                    assert(values@ =~= words(bytes, (i + 1) as nat));
                }
            },
            None => {
                return None;
            },
        }
        i = i + 1;
    }
    Some(values)
}

/// Reads the file of a vector.
pub fn petsc_read_vector(bytes: &[u8]) -> (vector: Result<Vec<u64>, PetscReadError>)
    ensures
        match vector_in(bytes@) {
            Ok(values) => vector matches Ok(v) && v@ == values,
            Err(e) => vector == Err::<Vec<u64>, PetscReadError>(e),
        },
{
    let mut reader = bytes;
    proof {
        assert(bytes@.take(4) =~= bytes@.subrange(0, 4));
    }
    match read_i32(&mut reader) {
        None => Err(PetscReadError::EndOfFile),
        Some(magic) => {
            if magic != PETSC_VEC_FILE_CLASSID {
                return Err(PetscReadError::WrongClass { found: magic });
            }
            petsc_read_eigenvals(reader)
        },
    }
}

/// Reads the file of eigenvalues.
pub fn petsc_read_eigenvals(bytes: &[u8]) -> (eigenvals: Result<Vec<u64>, PetscReadError>)
    ensures
        match counted_words(bytes@) {
            Ok(values) => eigenvals matches Ok(v) && v@ == values,
            Err(e) => eigenvals == Err::<Vec<u64>, PetscReadError>(e),
        },
{
    let mut reader = bytes;
    proof {
        assert(bytes@.take(4) =~= bytes@.subrange(0, 4));
    }
    match read_i32(&mut reader) {
        None => Err(PetscReadError::EndOfFile),
        Some(n) => {
            if n < 0 {
                return Err(PetscReadError::NegativeCount);
            }
            match read_words(&mut reader, n as usize) {
                None => Err(PetscReadError::EndOfFile),
                Some(values) => Ok(values),
            }
        },
    }
}

fn read_column(reader: &mut &[u8], nrows: usize) -> (column: Result<Vec<u64>, PetscReadError>)
    requires
        nrows <= i32::MAX,
    ensures
        match column_in(old(reader)@, nrows as nat) {
            Ok(values) => column matches Ok(v) && v@ == values && final(reader)@ == old(
                reader,
            )@.skip(8 + 8 * nrows),
            Err(e) => column == Err::<Vec<u64>, PetscReadError>(e),
        },
{
    let ghost bytes = reader@;
    proof {
        assert(bytes.take(4) =~= bytes.subrange(0, 4));
        if bytes.len() >= 8 {
            assert(bytes.skip(4).take(4) =~= bytes.subrange(4, 8));
            assert(bytes.skip(4).skip(4) =~= bytes.skip(8));
        }
        if bytes.len() >= 8 + 8 * nrows {
            assert(bytes.skip(8).skip(8 * nrows) =~= bytes.skip(8 + 8 * nrows));
        }
    }
    match read_i32(reader) {
        None => Err(PetscReadError::EndOfFile),
        Some(magic) => {
            if magic != PETSC_VEC_FILE_CLASSID {
                return Err(PetscReadError::WrongClass { found: magic });
            }
            match read_i32(reader) {
                None => Err(PetscReadError::EndOfFile),
                Some(n) => {
                    if n != nrows as i32 {
                        return Err(PetscReadError::WrongLength { found: n });
                    }
                    match read_words(reader, nrows) {
                        None => Err(PetscReadError::EndOfFile),
                        Some(values) => Ok(values),
                    }
                },
            }
        },
    }
}

/// An unreadable column makes every longer list of columns unreadable.
proof fn lemma_columns_fail(bytes: Seq<u8>, nrows: nat, k: nat, ncols: nat)
    requires
        k <= ncols,
        columns_in(bytes, nrows, k) is Err,
    ensures
        columns_in(bytes, nrows, ncols) == columns_in(bytes, nrows, k),
    decreases ncols,
{
    if k < ncols {
        lemma_columns_fail(bytes, nrows, k, (ncols - 1) as nat);
    }
}

/// Columns as sequences.
pub open spec fn column_views(columns: Seq<Vec<u64>>) -> Seq<Seq<u64>> {
    Seq::new(columns.len(), |i: int| columns[i]@)
}

/// Reads the columns of a file of eigenvectors.
pub fn petsc_read_eigenvecs(bytes: &[u8]) -> (eigenvecs: Result<Vec<Vec<u64>>, PetscReadError>)
    ensures
        match eigenvecs_in(bytes@) {
            Ok(columns) => eigenvecs matches Ok(v) && column_views(v@) == columns,
            Err(e) => eigenvecs == Err::<Vec<Vec<u64>>, PetscReadError>(e),
        },
{
    let mut reader = bytes;
    let ghost rest = bytes@.skip(8);
    proof {
        assert(bytes@.take(4) =~= bytes@.subrange(0, 4));
        if bytes@.len() >= 8 {
            assert(bytes@.skip(4).take(4) =~= bytes@.subrange(4, 8));
            assert(bytes@.skip(4).skip(4) =~= bytes@.skip(8));
        }
    }
    let nrows: i32 = match read_i32(&mut reader) {
        None => {
            return Err(PetscReadError::EndOfFile);
        },
        Some(n) => n,
    };
    let ncols: i32 = match read_i32(&mut reader) {
        None => {
            return Err(PetscReadError::EndOfFile);
        },
        Some(n) => n,
    };
    if nrows < 0 || ncols < 0 {
        return Err(PetscReadError::NegativeCount);
    }
    let mut columns: Vec<Vec<u64>> = Vec::new();
    let mut k: i32 = 0;
    proof {
        assert(column_views(columns@) =~= Seq::<Seq<u64>>::empty());
        assert(rest.skip(0) =~= rest);
    }
    while k < ncols
        invariant
            0 <= k <= ncols,
            0 <= nrows,
            rest == bytes@.skip(8),
            bytes@.len() >= 8,
            nrows == word_at(bytes@, 0),
            ncols == word_at(bytes@, 4),
            rest.len() >= k * (8 + 8 * nrows),
            reader@ == rest.skip(k * (8 + 8 * nrows)),
            columns_in(rest, nrows as nat, k as nat) == Ok::<Seq<Seq<u64>>, PetscReadError>(
                column_views(columns@),
            ),
        decreases ncols - k,
    {
        let ghost here = reader@;
        let ghost before = column_views(columns@);
        match read_column(&mut reader, nrows as usize) {
            Err(e) => {
                proof {
                    lemma_columns_fail(rest, nrows as nat, (k + 1) as nat, ncols as nat);
                }
                return Err(e);
            },
            Ok(column) => {
                columns.push(column);
                proof {
                    let size = 8 + 8 * nrows;
                    assert((k + 1) * size == k * size + size) by (nonlinear_arith);
                    assert(0 <= k * size) by (nonlinear_arith)
                        requires
                            0 <= k,
                            0 <= size,
                    ;
                    assert(here.skip(size) =~= rest.skip((k + 1) * size));
                    assert(column_views(columns@) =~= before.push(column@));
                }
            },
        }
        k = k + 1;
    }
    Ok(columns)
}

proof fn lemma_words_bytes(values: Seq<u64>)
    ensures
        words_bytes(values).len() == 8 * values.len(),
        words(words_bytes(values), values.len()) == values,
    decreases values.len(),
{
    if values.len() > 0 {
        let front = values.drop_last();
        let last = values.last();
        lemma_words_bytes(front);
        lemma_ranges();
        be_bytes_hold_value(8, last as nat);
        let bytes = words_bytes(values);
        let head = words_bytes(front);
        assert forall|i: int| 0 <= i < values.len() implies be_value(
            #[trigger] bytes.subrange(8 * i, 8 * i + 8),
        ) as u64 == values[i] by {
            if i < front.len() {
                assert(bytes.subrange(8 * i, 8 * i + 8) =~= head.subrange(8 * i, 8 * i + 8));
                assert(words(head, front.len())[i] == front[i]);
            } else {
                assert(bytes.subrange(8 * i, 8 * i + 8) =~= be_bytes(8, last as nat));
            }
        }
        assert(words(bytes, values.len()) =~= values);
    } else {
        assert(words(words_bytes(values), 0) =~= values);
    }
}

/// The file of a vector reads back as that vector.
pub proof fn vector_round_trip(values: Seq<u64>)
    requires
        values.len() <= i32::MAX,
    ensures
        vector_in(vector_bytes(values)) == Ok::<Seq<u64>, PetscReadError>(values),
{
    lemma_ranges();
    be_bytes_hold_value(4, 1211214);
    be_bytes_hold_value(4, values.len());
    lemma_words_bytes(values);
    let bytes = vector_bytes(values);
    assert(bytes.subrange(0, 4) =~= be_bytes(4, 1211214));
    assert(bytes.skip(4).subrange(0, 4) =~= be_bytes(4, values.len()));
    assert(bytes.skip(4).skip(4) =~= words_bytes(values));
}

/// The number of entries in row `r`.
pub open spec fn row_count(entries: Seq<(usize, usize, u64)>, r: int) -> nat
    decreases entries.len(),
{
    if entries.len() == 0 {
        0
    } else {
        row_count(entries.drop_last(), r) + if entries.last().0 == r {
            1nat
        } else {
            0nat
        }
    }
}

/// The bytes of the low words of numbers.
pub open spec fn low_words_bytes(numbers: Seq<nat>) -> Seq<u8>
    decreases numbers.len(),
{
    if numbers.len() == 0 {
        Seq::empty()
    } else {
        low_words_bytes(numbers.drop_last()) + be_bytes(4, numbers.last() % 0x1_0000_0000)
    }
}

/// The file of a matrix: its shape, the number of entries in each row, and the columns and
/// the values of the entries in row-major order.
pub open spec fn matrix_bytes(nrows: nat, ncols: nat, entries: Seq<(usize, usize, u64)>) -> Seq<
    u8,
> {
    be_bytes(4, 1211216) + low_words_bytes(seq![nrows, ncols, entries.len()]) + low_words_bytes(
        Seq::new(nrows, |r: int| row_count(entries, r)),
    ) + low_words_bytes(Seq::new(entries.len(), |i: int| entries[i].1 as nat)) + words_bytes(
        Seq::new(entries.len(), |i: int| entries[i].2),
    )
}

fn push_low_words(bytes: &mut Vec<u8>, numbers: &[usize])
    ensures
        final(bytes)@ == old(bytes)@ + low_words_bytes(
            Seq::new(numbers@.len(), |i: int| numbers@[i] as nat),
        ),
{
    let ghost before = bytes@;
    let mut i: usize = 0;
    while i < numbers.len()
        invariant
            i <= numbers@.len(),
            bytes@ =~= before + low_words_bytes(Seq::new(i as nat, |j: int| numbers@[j] as nat)),
        decreases numbers@.len() - i,
    {
        push_i32(bytes, low_word(numbers[i]));
        proof {
            let next = Seq::new((i + 1) as nat, |j: int| numbers@[j] as nat);
            assert(next.drop_last() =~= Seq::new(i as nat, |j: int| numbers@[j] as nat));
        }
        i = i + 1;
    }
}

proof fn lemma_row_count_bound(entries: Seq<(usize, usize, u64)>, r: int)
    ensures
        row_count(entries, r) <= entries.len(),
    decreases entries.len(),
{
    if entries.len() > 0 {
        lemma_row_count_bound(entries.drop_last(), r);
    }
}

/// The bytes of the file of a matrix. The file counts rows in signed words.
pub fn petsc_write_matrix(matrix: &CsrMatrix<u64>) -> (bytes: Vec<u8>)
    requires
        matrix.wf(),
        matrix.rows() <= i32::MAX,
    ensures
        bytes@ == matrix_bytes(matrix.rows(), matrix.cols(), matrix.entries()),
{
    let entries = matrix.triplets();
    let nrows: usize = matrix.nrows();
    let mut counts: Vec<usize> = Vec::new();
    let mut r: usize = 0;
    while r < nrows
        invariant
            r <= nrows,
            counts@.len() == r,
            forall|i: int| 0 <= i < r ==> #[trigger] counts@[i] == 0,
        decreases nrows - r,
    {
        counts.push(0);
        r = r + 1;
    }
    let mut columns: Vec<usize> = Vec::new();
    let mut i: usize = 0;
    proof {
        assert(entries@.take(0).len() == 0);
    }
    while i < entries.len()
        invariant
            i <= entries@.len(),
            matrix.wf(),
            entries@ == matrix.entries(),
            nrows == matrix.rows(),
            counts@.len() == nrows,
            columns@.len() == i,
            forall|r: int|
                0 <= r < nrows ==> #[trigger] counts@[r] == row_count(entries@.take(i as int), r),
            forall|j: int| 0 <= j < i ==> #[trigger] columns@[j] == entries@[j].1,
        decreases entries@.len() - i,
    {
        let row: usize = entries[i].0;
        proof {
            let next = entries@.take(i + 1);
            assert(next.drop_last() =~= entries@.take(i as int));
            assert(next.last() == entries@[i as int]);
            assert(entries@[i as int].0 < nrows);
            lemma_row_count_bound(entries@.take(i as int), row as int);
        }
        let count: usize = counts[row] + 1;
        counts.set(row, count);
        columns.push(entries[i].1);
        i = i + 1;
    }
    proof {
        assert(entries@.take(i as int) =~= entries@);
    }
    let mut bytes: Vec<u8> = Vec::new();
    push_i32(&mut bytes, PETSC_MAT_FILE_CLASSID);
    let shape = [nrows, matrix.ncols(), entries.len()];
    push_low_words(&mut bytes, shape.as_slice());
    push_low_words(&mut bytes, counts.as_slice());
    push_low_words(&mut bytes, columns.as_slice());
    let ghost head = bytes@;
    proof {
        let n = entries@.len();
        assert(Seq::new(3, |i: int| shape@[i] as nat) =~= seq![
            matrix.rows(),
            matrix.cols(),
            n,
        ]);
        assert(Seq::new(counts@.len(), |i: int| counts@[i] as nat) =~= Seq::new(
            matrix.rows(),
            |r: int| row_count(entries@, r),
        ));
        assert(Seq::new(columns@.len(), |i: int| columns@[i] as nat) =~= Seq::new(
            n,
            |i: int| entries@[i].1 as nat,
        ));
    }
    let mut i: usize = 0;
    while i < entries.len()
        invariant
            i <= entries@.len(),
            bytes@ =~= head + words_bytes(Seq::new(i as nat, |j: int| entries@[j].2)),
        decreases entries@.len() - i,
    {
        push_u64(&mut bytes, entries[i].2);
        proof {
            let next = Seq::new((i + 1) as nat, |j: int| entries@[j].2);
            assert(next.drop_last() =~= Seq::new(i as nat, |j: int| entries@[j].2));
        }
        i = i + 1;
    }
    proof {
        assert(bytes@ =~= matrix_bytes(matrix.rows(), matrix.cols(), matrix.entries()));
    }
    bytes
}

/// The first `k` words.
pub fn first_words(values: &[u64], k: usize) -> (kept: Vec<u64>)
    requires
        k <= values@.len(),
    ensures
        kept@ == values@.take(k as int),
{
    let mut kept: Vec<u64> = Vec::new();
    let mut i: usize = 0;
    while i < k
        invariant
            i <= k <= values@.len(),
            kept@ =~= values@.take(i as int),
        decreases k - i,
    {
        kept.push(values[i]);
        i = i + 1;
    }
    kept
}

/// The first `k` columns.
pub fn first_columns(columns: &[Vec<u64>], k: usize) -> (kept: Vec<Vec<u64>>)
    requires
        k <= columns@.len(),
    ensures
        column_views(kept@) == column_views(columns@.take(k as int)),
{
    let mut kept: Vec<Vec<u64>> = Vec::new();
    let mut i: usize = 0;
    while i < k
        invariant
            i <= k <= columns@.len(),
            column_views(kept@) =~= column_views(columns@.take(i as int)),
        decreases k - i,
    {
        let column = first_words(columns[i].as_slice(), columns[i].len());
        let ghost before = column_views(kept@);
        kept.push(column);
        proof {
            assert(column@ =~= columns@[i as int]@);
            assert(column_views(kept@) =~= before.push(column@));
        }
        i = i + 1;
    }
    kept
}

} // verus!
