//! Lookup of named arrays in parsed MAT-files, and the errors of the
//! dataset loaders.

use crate::mat_scan::{mat_bytes_safe, scan_mat_bytes};
use vstd::prelude::*;

verus! {

#[verifier::external_type_specification]
#[verifier::external_body]
pub struct ExMatFile(matfile::MatFile);

#[verifier::external_type_specification]
#[verifier::external_body]
pub struct ExMatArray(matfile::Array);

#[verifier::external_type_specification]
#[verifier::external_body]
pub struct ExMatError(matfile::Error);

#[verifier::external_type_specification]
#[verifier::external_body]
pub struct ExIoError(std::io::Error);

/// Failures of the dataset loaders.
#[derive(Debug)]
pub enum DatasetError {
    /// The file could not be opened.
    Io(std::io::Error),
    /// The file is not a readable MAT-file.
    Parse(matfile::Error),
    /// The file holds a size field on which the MAT-file reader's
    /// arithmetic overflows (see `mat_scan`); it is refused unread.
    Malformed,
    /// The file holds no array of the given name.
    MissingVariable(String),
    /// The array holds complex values.
    ComplexUnsupported,
    /// The array cannot take the requested shape.
    Shape(String),
}

#[verifier::external_type_specification]
#[verifier::external_body]
pub struct ExMatNumericData(matfile::NumericData);

/// What the loaders read of each array of a parsed MAT-file, in file order:
/// its name, its extents (first axis first) and whether it has an imaginary
/// part.
pub uninterp spec fn mat_file_arrays(mat: matfile::MatFile) -> Seq<(Seq<char>, Seq<usize>, bool)>;

/// The arrays (as in `mat_file_arrays`) of the MAT-file that `bytes`
/// encode, or `None` when the bytes are not a readable MAT-file.
pub uninterp spec fn parsed_mat_arrays(bytes: Seq<u8>) -> Option<Seq<(Seq<char>, Seq<usize>, bool)>>;

/// The first array called `name`, if any.
pub open spec fn first_named(arrays: Seq<(Seq<char>, Seq<usize>, bool)>, name: Seq<char>) -> Option<
    (Seq<char>, Seq<usize>, bool),
>
    decreases arrays.len(),
{
    if arrays.len() == 0 {
        None
    } else if arrays[0].0 == name {
        Some(arrays[0])
    } else {
        first_named(arrays.drop_first(), name)
    }
}

/// An array found in a MAT-file, with what the loaders read of it as plain
/// values.
pub struct FoundArray<'a> {
    pub array: &'a matfile::Array,
    pub name: String,
    pub size: Vec<usize>,
    pub complex: bool,
}

/// Calls `matfile::MatFile::parse` on in-memory bytes.  It succeeds exactly
/// when the bytes are a readable MAT-file, and then holds the arrays that
/// the bytes encode.  The reader's byte-count and dimension arithmetic
/// overflows, and panics where overflow checks are on, on the bytes that
/// `mat_bytes_safe` leaves out.
#[verifier::external_body]
fn parse_bytes(bytes: &[u8]) -> (r: Result<matfile::MatFile, matfile::Error>)
    requires
        mat_bytes_safe(bytes@),
    ensures
        r is Ok <==> parsed_mat_arrays(bytes@) is Some,
        r matches Ok(m) ==> parsed_mat_arrays(bytes@) == Some(mat_file_arrays(m)),
{
    matfile::MatFile::parse(bytes)
}

/// Whether the data of an array has an imaginary part, read off the
/// `imag` field of each variant of `matfile::NumericData`.
#[verifier::external_body]
fn has_imaginary_part(data: &matfile::NumericData) -> bool {
    match data {
        matfile::NumericData::Int8 { imag, .. } => imag.is_some(),
        matfile::NumericData::UInt8 { imag, .. } => imag.is_some(),
        matfile::NumericData::Int16 { imag, .. } => imag.is_some(),
        matfile::NumericData::UInt16 { imag, .. } => imag.is_some(),
        matfile::NumericData::Int32 { imag, .. } => imag.is_some(),
        matfile::NumericData::UInt32 { imag, .. } => imag.is_some(),
        matfile::NumericData::Int64 { imag, .. } => imag.is_some(),
        matfile::NumericData::UInt64 { imag, .. } => imag.is_some(),
        matfile::NumericData::Single { imag, .. } => imag.is_some(),
        matfile::NumericData::Double { imag, .. } => imag.is_some(),
    }
}

/// Calls `matfile::MatFile::find_by_name`, which walks the arrays of the
/// file and returns the first one whose name equals `name`, and reads its
/// name (`Array::name`), extents (`Array::size`) and whether its data has an
/// imaginary part (`Array::data`).
#[verifier::external_body]
fn find_by_name<'a>(mat: &'a matfile::MatFile, name: &str) -> (r: Option<FoundArray<'a>>)
    ensures
        match first_named(mat_file_arrays(*mat), name@) {
            None => r is None,
            Some(info) => r matches Some(found) && found.name@ == info.0 && found.size@ == info.1
                && found.complex == info.2,
        },
{
    let array = mat.find_by_name(name)?;
    let complex = has_imaginary_part(array.data());
    Some(FoundArray { array, name: array.name().to_owned(), size: array.size().clone(), complex })
}

/// Parses the bytes of a MAT-file.  Bytes that hold a size field on which
/// the reader would overflow are refused first with
/// `DatasetError::Malformed`; otherwise the result is
/// `DatasetError::Parse` exactly when they are not a readable MAT-file.
pub fn parse_mat_file(bytes: &[u8]) -> (r: Result<matfile::MatFile, DatasetError>)
    ensures
        r matches Err(e) && e is Malformed <==> !mat_bytes_safe(bytes@),
        mat_bytes_safe(bytes@) ==> (r is Ok <==> parsed_mat_arrays(bytes@) is Some),
        r matches Ok(m) ==> parsed_mat_arrays(bytes@) == Some(mat_file_arrays(m)),
        r matches Err(e) ==> e is Parse || e is Malformed,
{
    if !scan_mat_bytes(bytes) {
        return Err(DatasetError::Malformed);
    }
    match parse_bytes(bytes) {
        Ok(m) => Ok(m),
        Err(e) => Err(DatasetError::Parse(e)),
    }
}

/// The first array called `name` in a parsed MAT-file, or
/// `DatasetError::MissingVariable(name)` exactly when the file holds no
/// array of that name.
pub fn find_named_array<'a>(mat: &'a matfile::MatFile, name: &str) -> (r: Result<
    FoundArray<'a>,
    DatasetError,
>)
    ensures
        match first_named(mat_file_arrays(*mat), name@) {
            None => r matches Err(e) && e matches DatasetError::MissingVariable(missing) && missing@
                == name@,
            Some(info) => r matches Ok(found) && found.name@ == info.0 && found.size@ == info.1
                && found.complex == info.2,
        },
{
    match find_by_name(mat, name) {
        Some(found) => Ok(found),
        None => Err(DatasetError::MissingVariable(name.to_owned())),
    }
}

/// The first array called `name` in a parsed MAT-file, provided it exists
/// (else `MissingVariable(name)`) and is real (else `ComplexUnsupported`).
pub fn find_real_array<'a>(mat: &'a matfile::MatFile, name: &str) -> (r: Result<
    FoundArray<'a>,
    DatasetError,
>)
    ensures
        match first_named(mat_file_arrays(*mat), name@) {
            None => r matches Err(e) && e matches DatasetError::MissingVariable(missing) && missing@
                == name@,
            Some(info) => if info.2 {
                r matches Err(e) && e is ComplexUnsupported
            } else {
                r matches Ok(found) && found.name@ == info.0 && found.size@ == info.1
                    && !found.complex
            },
        },
{
    let found = find_named_array(mat, name)?;
    if found.complex {
        return Err(DatasetError::ComplexUnsupported);
    }
    Ok(found)
}

/// The lookup by name gives the first array of that name: the array found
/// is one of the file's arrays, carries the name, and no earlier array
/// does; when nothing is found, no array carries the name.
pub proof fn lemma_first_named_is_first_match(arrays: Seq<(Seq<char>, Seq<usize>, bool)>, name: Seq<char>)
    ensures
        match first_named(arrays, name) {
            None => forall|i: int| 0 <= i < arrays.len() ==> (#[trigger] arrays[i]).0 != name,
            Some(info) => exists|i: int|
                0 <= i < arrays.len() && #[trigger] arrays[i] == info && info.0 == name && forall|j: int|
                    0 <= j < i ==> (#[trigger] arrays[j]).0 != name,
        },
    decreases arrays.len(),
{
    if arrays.len() > 0 {
        let tail = arrays.drop_first();
        lemma_first_named_is_first_match(tail, name);
        if arrays[0].0 == name {
            assert(arrays[0] == arrays[0]);
        } else {
            match first_named(tail, name) {
                None => {
                    assert forall|i: int| 0 <= i < arrays.len() implies (#[trigger] arrays[i]).0 != name by {
                        if i > 0 {
                            assert(arrays[i] == tail[i - 1]);
                        }
                    }
                },
                Some(info) => {
                    let i = choose|i: int|
                        0 <= i < tail.len() && #[trigger] tail[i] == info && info.0 == name && forall|j: int|
                            0 <= j < i ==> (#[trigger] tail[j]).0 != name;
                    assert(arrays[i + 1] == info);
                    assert forall|j: int| 0 <= j < i + 1 implies (#[trigger] arrays[j]).0 != name by {
                        if j > 0 {
                            assert(arrays[j] == tail[j - 1]);
                        }
                    }
                },
            }
        }
    }
}

} // verus!
