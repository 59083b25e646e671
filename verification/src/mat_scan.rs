//! A pre-scan of MAT-file bytes for the size fields on which the `matfile`
//! reader's own arithmetic overflows.
//!
//! The reader walks a file element by element.  Two of its computations can
//! overflow: rounding a data element's byte count up to a multiple of eight
//! (a `u32` computation, which overflows for counts above `0xFFFF_FFF8`),
//! and the product of a numeric array's dimensions (an `i32` computation).
//! The scan follows the reader's walk over tags, byte counts and paddings,
//! decompresses compressed elements as the reader does, and reports whether
//! a field that the walk reaches would overflow.
//!
//! Where the reader stops at a check of a name's encoding, of an element
//! count or of type compatibility, or after an element it could not read,
//! the scan goes on as if the check had passed.  It may therefore refuse a
//! few malformed files that the reader would reject with an error of its
//! own; it never accepts a file on which the reader overflows.

use vstd::prelude::*;

verus! {

/// The unsigned 32-bit value stored at `at`, in the file's byte order.
pub open spec fn u32_at(bytes: Seq<u8>, at: int, little: bool) -> int {
    if little {
        bytes[at] + 256 * bytes[at + 1] + 65536 * bytes[at + 2] + 16777216 * bytes[at + 3]
    } else {
        bytes[at + 3] + 256 * bytes[at + 2] + 65536 * bytes[at + 1] + 16777216 * bytes[at]
    }
}

/// The signed 32-bit value stored at `at` (two's complement).
pub open spec fn i32_at(bytes: Seq<u8>, at: int, little: bool) -> int {
    let u = u32_at(bytes, at, little);
    if u >= 0x8000_0000 {
        u - 0x1_0000_0000
    } else {
        u
    }
}

/// The largest byte count that the reader can round up to a multiple of
/// eight without overflowing `u32`.
pub const MAX_ELEMENT_SIZE: u32 = 0xFFFF_FFF8;

/// Type code of a matrix data element.
pub const MATRIX_TYPE: u32 = 14;

/// Type code of a compressed data element.
pub const COMPRESSED_TYPE: u32 = 15;

/// How many compressed elements may nest inside one another before the
/// scan refuses the file.
pub const COMPRESSION_DEPTH: usize = 8;

/// Whether `code` names one of the data types of the MAT-file format.
pub open spec fn is_data_type(code: int) -> bool {
    (1 <= code <= 7) || code == 9 || (12 <= code <= 18)
}

/// Bytes that follow `size` bytes of data up to the next multiple of eight.
pub open spec fn padding_to_eight(size: int) -> int {
    if size % 8 == 0 {
        0
    } else {
        8 - size % 8
    }
}

/// The tag of a data element or subelement: its type code, the byte count
/// of its data, the length of the tag itself and the padding after the data.
#[derive(Clone, Copy)]
pub struct ElementTag {
    pub data_type: u32,
    pub size: u32,
    pub len: usize,
    pub padding: u32,
}

/// What the reader makes of the bytes at a tag position.
#[derive(Clone, Copy)]
pub enum TagRead {
    /// The reader stops here with an error of its own.
    Stop,
    /// The byte count overflows the reader's padding computation.
    Overflow,
    /// A tag the reader accepts.
    Found(ElementTag),
}

/// The tag at `at`, with the element ending no later than `end`: a long tag
/// (eight bytes: type code, then byte count) when the first word's upper
/// half is zero, else a short one (four bytes, the byte count in the upper
/// half, at most four).
pub open spec fn tag_at(bytes: Seq<u8>, at: int, end: int, little: bool) -> TagRead {
    if at + 4 > end {
        TagRead::Stop
    } else {
        let first = u32_at(bytes, at, little);
        if first < 65536 {
            if at + 8 > end {
                TagRead::Stop
            } else {
                let size = u32_at(bytes, at + 4, little);
                if size > MAX_ELEMENT_SIZE {
                    TagRead::Overflow
                } else if !is_data_type(first) {
                    TagRead::Stop
                } else {
                    TagRead::Found(
                        ElementTag {
                            data_type: first as u32,
                            size: size as u32,
                            len: 8,
                            padding: padding_to_eight(size) as u32,
                        },
                    )
                }
            }
        } else {
            let size = first / 65536;
            let code = first % 65536;
            if size > 4 {
                TagRead::Stop
            } else if !is_data_type(code) {
                TagRead::Stop
            } else {
                TagRead::Found(
                    ElementTag {
                        data_type: code as u32,
                        size: size as u32,
                        len: 4,
                        padding: (4 - size) as u32,
                    },
                )
            }
        }
    }
}

/// Reads the unsigned 32-bit value at `at`.
pub fn read_u32(bytes: &[u8], at: usize, little: bool) -> (r: u32)
    requires
        at + 4 <= bytes@.len(),
    ensures
        r == u32_at(bytes@, at as int, little),
{
    let b0 = bytes[at] as u32;
    let b1 = bytes[at + 1] as u32;
    let b2 = bytes[at + 2] as u32;
    let b3 = bytes[at + 3] as u32;
    if little {
        b0 + 256 * b1 + 65536 * b2 + 16777216 * b3
    } else {
        b3 + 256 * b2 + 65536 * b1 + 16777216 * b0
    }
}

/// Whether `code` names a data type of the format.
pub fn is_data_type_code(code: u32) -> (r: bool)
    ensures
        r == is_data_type(code as int),
{
    (1 <= code && code <= 7) || code == 9 || (12 <= code && code <= 18)
}

/// Reads the tag at `at`, as `tag_at` describes it.
pub fn read_tag(bytes: &[u8], at: usize, end: usize, little: bool) -> (r: TagRead)
    requires
        at <= end <= bytes@.len(),
    ensures
        r == tag_at(bytes@, at as int, end as int, little),
{
    if end - at < 4 {
        return TagRead::Stop;
    }
    let first = read_u32(bytes, at, little);
    if first < 65536 {
        if end - at < 8 {
            return TagRead::Stop;
        }
        let size = read_u32(bytes, at + 4, little);
        if size > MAX_ELEMENT_SIZE {
            TagRead::Overflow
        } else if !is_data_type_code(first) {
            TagRead::Stop
        } else {
            let padding = if size % 8 == 0 {
                0
            } else {
                8 - size % 8
            };
            TagRead::Found(ElementTag { data_type: first, size, len: 8, padding })
        }
    } else {
        let size = first / 65536;
        let code = first % 65536;
        if size > 4 {
            TagRead::Stop
        } else if !is_data_type_code(code) {
            TagRead::Stop
        } else {
            TagRead::Found(ElementTag { data_type: code, size, len: 4, padding: 4 - size })
        }
    }
}

/// The subelements of a matrix element that the reader reads in turn.
#[derive(Clone, Copy)]
pub enum SubKind {
    /// The dimensions: 32-bit integers, at least two.
    Dims,
    /// The array's name: bytes.
    Name,
    /// Row or column indices of a sparse array: 32-bit integers.
    Index,
    /// Numeric data of any of the numeric types.
    Numeric,
}

/// Where the walk goes after a subelement.
#[derive(Clone, Copy)]
pub enum SubStep {
    /// The reader stops here with an error of its own.
    Stop,
    /// The byte count overflows the reader's padding computation.
    Overflow,
    /// The position of the next subelement.
    Next(usize),
}

/// Bytes per item of a numeric data type, or zero for the other types.
pub open spec fn numeric_width(code: int) -> int {
    if code == 1 || code == 2 {
        1
    } else if code == 3 || code == 4 {
        2
    } else if code == 5 || code == 6 || code == 7 {
        4
    } else if code == 9 || code == 12 || code == 13 {
        8
    } else {
        0
    }
}

/// Bytes per item that the reader takes from a subelement of `kind`.
pub open spec fn item_width(kind: SubKind, code: int) -> int {
    match kind {
        SubKind::Dims => 4,
        SubKind::Name => 1,
        SubKind::Index => 4,
        SubKind::Numeric => numeric_width(code),
    }
}

/// The reader's check on the tag of a subelement of `kind`.
pub open spec fn accepts(kind: SubKind, tag: ElementTag) -> bool {
    match kind {
        SubKind::Dims => tag.data_type == 5 && tag.size >= 8 && tag.size % 4 == 0,
        SubKind::Name => tag.data_type == 1 && tag.size > 0,
        SubKind::Index => tag.data_type == 5 && tag.size > 0,
        SubKind::Numeric => numeric_width(tag.data_type as int) > 0,
    }
}

/// The step over a subelement of `kind` at `at`: the reader takes as many
/// whole items as the byte count holds, then the padding.
pub open spec fn sub_step(bytes: Seq<u8>, at: int, end: int, little: bool, kind: SubKind) -> SubStep {
    match tag_at(bytes, at, end, little) {
        TagRead::Stop => SubStep::Stop,
        TagRead::Overflow => SubStep::Overflow,
        TagRead::Found(tag) => {
            if !accepts(kind, tag) {
                SubStep::Stop
            } else {
                let width = item_width(kind, tag.data_type as int);
                let next = at + tag.len + (tag.size as int / width) * width + tag.padding;
                if next <= end {
                    SubStep::Next(next as usize)
                } else {
                    SubStep::Stop
                }
            }
        },
    }
}

/// Bytes per item of a numeric data type, or zero for the other types.
pub fn numeric_width_of(code: u32) -> (w: u32)
    ensures
        w == numeric_width(code as int),
{
    if code == 1 || code == 2 {
        1
    } else if code == 3 || code == 4 {
        2
    } else if code == 5 || code == 6 || code == 7 {
        4
    } else if code == 9 || code == 12 || code == 13 {
        8
    } else {
        0
    }
}

/// Steps over the subelement of `kind` at `at`, as `sub_step` describes.
pub fn step_over(bytes: &[u8], at: usize, end: usize, little: bool, kind: SubKind) -> (r: SubStep)
    requires
        at <= end <= bytes@.len(),
    ensures
        r == sub_step(bytes@, at as int, end as int, little, kind),
{
    match read_tag(bytes, at, end, little) {
        TagRead::Stop => SubStep::Stop,
        TagRead::Overflow => SubStep::Overflow,
        TagRead::Found(tag) => {
            let (accepted, width) = match kind {
                SubKind::Dims => (tag.data_type == 5 && tag.size >= 8 && tag.size % 4 == 0, 4u32),
                SubKind::Name => (tag.data_type == 1 && tag.size > 0, 1u32),
                SubKind::Index => (tag.data_type == 5 && tag.size > 0, 4u32),
                SubKind::Numeric => {
                    let w = numeric_width_of(tag.data_type);
                    (w > 0, w)
                },
            };
            if !accepted {
                return SubStep::Stop;
            }
            assert(width == item_width(kind, tag.data_type as int));
            let items = tag.size / width;
            assert(items * width <= tag.size) by (nonlinear_arith)
                requires
                    width > 0,
                    items == tag.size / width,
            ;
            let body = items * width;
            let room = end - at;
            if tag.len as u64 + body as u64 + tag.padding as u64 <= room as u64 {
                SubStep::Next(at + tag.len + body as usize + tag.padding as usize)
            } else {
                SubStep::Stop
            }
        },
    }
}

/// The product of the first `k` dimensions stored from `first` on.
pub open spec fn dims_prefix_product(bytes: Seq<u8>, first: int, k: nat, little: bool) -> int
    decreases k,
{
    if k == 0 {
        1
    } else {
        dims_prefix_product(bytes, first, (k - 1) as nat, little) * i32_at(
            bytes,
            first + 4 * (k - 1),
            little,
        )
    }
}

/// Whether every partial product of the first `k` dimensions, taken from
/// the left as the reader multiplies them, fits in `i32`.
pub open spec fn dims_product_fits(bytes: Seq<u8>, first: int, k: nat, little: bool) -> bool
    decreases k,
{
    k == 0 || (dims_product_fits(bytes, first, (k - 1) as nat, little) && i32::MIN
        <= dims_prefix_product(bytes, first, k, little) <= i32::MAX)
}

/// The dimensions subelement at `at`, if the reader gets past it, has a
/// product that fits in `i32`.
pub open spec fn dims_fit_at(bytes: Seq<u8>, at: int, end: int, little: bool) -> bool {
    match tag_at(bytes, at, end, little) {
        TagRead::Found(tag) => dims_product_fits(bytes, at + tag.len, (tag.size / 4) as nat, little),
        _ => true,
    }
}

proof fn lemma_dims_fits_prefix(bytes: Seq<u8>, first: int, k: nat, n: nat, little: bool)
    requires
        k <= n,
        dims_product_fits(bytes, first, n, little),
    ensures
        dims_product_fits(bytes, first, k, little),
    decreases n,
{
    if k < n {
        lemma_dims_fits_prefix(bytes, first, k, (n - 1) as nat, little);
    }
}

/// Reads the signed 32-bit value at `at`.
fn read_i32_wide(bytes: &[u8], at: usize, little: bool) -> (r: i64)
    requires
        at + 4 <= bytes@.len(),
    ensures
        r == i32_at(bytes@, at as int, little),
        i32::MIN <= r <= i32::MAX,
{
    let u = read_u32(bytes, at, little);
    if u >= 0x8000_0000 {
        u as i64 - 0x1_0000_0000
    } else {
        u as i64
    }
}

/// Whether the `count` dimensions stored from `first` on have partial
/// products that fit in `i32`.
pub fn dims_fit(bytes: &[u8], first: usize, count: usize, little: bool) -> (r: bool)
    requires
        first + 4 * count <= bytes@.len(),
    ensures
        r == dims_product_fits(bytes@, first as int, count as nat, little),
{
    let len = bytes.len();
    let mut product: i64 = 1;
    let mut k: usize = 0;
    while k < count
        invariant
            k <= count,
            len == bytes@.len(),
            first + 4 * count <= bytes@.len(),
            product == dims_prefix_product(bytes@, first as int, k as nat, little),
            i32::MIN <= product <= i32::MAX,
            dims_product_fits(bytes@, first as int, k as nat, little),
        decreases count - k,
    {
        let d = read_i32_wide(bytes, first + 4 * k, little);
        assert(-0x8000_0000 * 0x8000_0000 <= product * d <= 0x8000_0000 * 0x8000_0000)
            by (nonlinear_arith)
            requires
                -0x8000_0000 <= product <= 0x7FFF_FFFF,
                -0x8000_0000 <= d <= 0x7FFF_FFFF,
        ;
        let next = product * d;
        if next < i32::MIN as i64 || next > i32::MAX as i64 {
            proof {
                if dims_product_fits(bytes@, first as int, count as nat, little) {
                    lemma_dims_fits_prefix(bytes@, first as int, (k + 1) as nat, count as nat, little);
                }
            }
            return false;
        }
        product = next;
        k = k + 1;
    }
    true
}

/// A numeric matrix from its dimensions subelement at `at` on: the reader
/// takes the dimensions, the name and the real part, then multiplies the
/// dimensions, then takes the imaginary part when the array is complex.
pub open spec fn numeric_safe(bytes: Seq<u8>, at: int, end: int, little: bool, complex: bool) -> bool {
    match sub_step(bytes, at, end, little, SubKind::Dims) {
        SubStep::Stop => true,
        SubStep::Overflow => false,
        SubStep::Next(a1) => match sub_step(bytes, a1 as int, end, little, SubKind::Name) {
            SubStep::Stop => true,
            SubStep::Overflow => false,
            SubStep::Next(a2) => match sub_step(bytes, a2 as int, end, little, SubKind::Numeric) {
                SubStep::Stop => true,
                SubStep::Overflow => false,
                SubStep::Next(a3) => dims_fit_at(bytes, at, end, little) && (!complex || !(sub_step(
                    bytes,
                    a3 as int,
                    end,
                    little,
                    SubKind::Numeric,
                ) is Overflow)),
            },
        },
    }
}

/// A sparse matrix from its dimensions subelement at `at` on: dimensions,
/// name, row indices, column indices, real part and, when complex, the
/// imaginary part.
pub open spec fn sparse_safe(bytes: Seq<u8>, at: int, end: int, little: bool, complex: bool) -> bool {
    match sub_step(bytes, at, end, little, SubKind::Dims) {
        SubStep::Stop => true,
        SubStep::Overflow => false,
        SubStep::Next(a1) => match sub_step(bytes, a1 as int, end, little, SubKind::Name) {
            SubStep::Stop => true,
            SubStep::Overflow => false,
            SubStep::Next(a2) => match sub_step(bytes, a2 as int, end, little, SubKind::Index) {
                SubStep::Stop => true,
                SubStep::Overflow => false,
                SubStep::Next(a3) => match sub_step(bytes, a3 as int, end, little, SubKind::Index) {
                    SubStep::Stop => true,
                    SubStep::Overflow => false,
                    SubStep::Next(a4) => match sub_step(
                        bytes,
                        a4 as int,
                        end,
                        little,
                        SubKind::Numeric,
                    ) {
                        SubStep::Stop => true,
                        SubStep::Overflow => false,
                        SubStep::Next(a5) => !complex || !(sub_step(
                            bytes,
                            a5 as int,
                            end,
                            little,
                            SubKind::Numeric,
                        ) is Overflow),
                    },
                },
            },
        },
    }
}

/// The data of a matrix element, from `start` to `end`: the array flags
/// subelement (type code 6, eight bytes: flags and class, then the count of
/// nonzeros), then the subelements of a sparse (class 5) or numeric (classes
/// 6 to 15) array.  Cell, structure, object and character arrays (classes 1
/// to 4) are skipped by the reader, and it refuses other classes.
pub open spec fn matrix_safe(bytes: Seq<u8>, start: int, end: int, little: bool) -> bool {
    if start + 16 > end {
        true
    } else if u32_at(bytes, start, little) != 6 || u32_at(bytes, start + 4, little) != 8 {
        true
    } else {
        let flags = u32_at(bytes, start + 8, little);
        let class = flags % 256;
        let complex = (flags / 2048) % 2 == 1;
        if class == 5 {
            sparse_safe(bytes, start + 16, end, little, complex)
        } else if 6 <= class <= 15 {
            numeric_safe(bytes, start + 16, end, little, complex)
        } else {
            true
        }
    }
}

/// The bytes that a zlib stream decodes to, as `libflate`'s zlib decoder
/// reads them to the end, or `None` when the decoder reports an error.
pub uninterp spec fn zlib_decoded(data: Seq<u8>) -> Option<Seq<u8>>;

/// The element at `at`, which ends no later than the end of `bytes`: a
/// matrix, a compressed element (whose decoded bytes hold one element, read
/// with one level of nesting fewer left), or another type that the reader
/// skips.
pub open spec fn element_safe(bytes: Seq<u8>, at: int, little: bool, depth: nat) -> bool
    decreases depth,
{
    match tag_at(bytes, at, bytes.len() as int, little) {
        TagRead::Stop => true,
        TagRead::Overflow => false,
        TagRead::Found(tag) => {
            let start = at + tag.len;
            let end = start + tag.size;
            if end > bytes.len() {
                true
            } else if tag.data_type == MATRIX_TYPE {
                matrix_safe(bytes, start, end, little)
            } else if tag.data_type == COMPRESSED_TYPE {
                match zlib_decoded(bytes.subrange(start, end)) {
                    None => true,
                    Some(inner) => if depth == 0 {
                        false
                    } else {
                        element_safe(inner, 0, little, (depth - 1) as nat)
                    },
                }
            } else {
                true
            }
        },
    }
}

/// Where the reader looks for the element after the one at `at`: past its
/// data and, for an uncompressed element, past the padding when the bytes
/// hold it.
pub open spec fn element_next(bytes: Seq<u8>, at: int, little: bool) -> Option<int> {
    match tag_at(bytes, at, bytes.len() as int, little) {
        TagRead::Found(tag) => {
            let end = at + tag.len + tag.size;
            if end > bytes.len() {
                None
            } else if tag.data_type == COMPRESSED_TYPE {
                Some(end)
            } else if end + tag.padding <= bytes.len() {
                Some(end + tag.padding)
            } else {
                Some(end)
            }
        },
        _ => None,
    }
}

/// The elements from `at` to the end of `bytes`.
pub open spec fn elements_safe(bytes: Seq<u8>, at: int, little: bool, depth: nat) -> bool
    decreases bytes.len() - at,
{
    if at < 0 || at >= bytes.len() {
        true
    } else {
        element_safe(bytes, at, little, depth) && match element_next(bytes, at, little) {
            None => true,
            Some(next) => elements_safe(bytes, next, little, depth),
        }
    }
}

/// The reader accepts the 128-byte header: four nonzero leading bytes,
/// version 0x0100 and the byte-order mark `IM` (little-endian) or `MI`.
pub open spec fn header_accepted(bytes: Seq<u8>) -> bool {
    &&& bytes.len() >= 128
    &&& bytes[0] != 0 && bytes[1] != 0 && bytes[2] != 0 && bytes[3] != 0
    &&& (bytes[126] == 73 && bytes[127] == 77 && bytes[124] == 0 && bytes[125] == 1) || (bytes[126]
        == 77 && bytes[127] == 73 && bytes[124] == 1 && bytes[125] == 0)
}

/// Whether the `matfile` reader can walk `bytes` without overflowing: the
/// header is refused, or no field that the walk over the elements reaches
/// overflows and compressed elements nest at most `COMPRESSION_DEPTH` deep.
pub open spec fn mat_bytes_safe(bytes: Seq<u8>) -> bool {
    !header_accepted(bytes) || elements_safe(bytes, 128, bytes[126] == 73, COMPRESSION_DEPTH as nat)
}

/// Decodes a zlib stream the way the `matfile` reader decodes a compressed
/// element: `libflate::zlib::Decoder::new` on the bytes, then reading the
/// decoder to its end.  The result is the decoded bytes, or `None` when
/// either step reports an error.
///
/// Decoding is a function of the input bytes alone, so the result is named
/// by `zlib_decoded`.  `libflate` answers malformed streams with errors;
/// how much memory a stream may expand to is not stated here.
#[verifier::external_body]
fn zlib_decode(data: &[u8]) -> (r: Option<Vec<u8>>)
    ensures
        match r {
            Some(decoded) => zlib_decoded(data@) == Some(decoded@),
            None => zlib_decoded(data@) is None,
        },
{
    let mut decoded = Vec::new();
    match libflate::zlib::Decoder::new(data) {
        Ok(mut decoder) => match std::io::Read::read_to_end(&mut decoder, &mut decoded) {
            Ok(_) => Some(decoded),
            Err(_) => None,
        },
        Err(_) => None,
    }
}

/// Checks a numeric matrix from its dimensions subelement at `at` on.
fn scan_numeric(bytes: &[u8], at: usize, end: usize, little: bool, complex: bool) -> (r: bool)
    requires
        at <= end <= bytes@.len(),
    ensures
        r == numeric_safe(bytes@, at as int, end as int, little, complex),
{
    let a1 = match step_over(bytes, at, end, little, SubKind::Dims) {
        SubStep::Stop => return true,
        SubStep::Overflow => return false,
        SubStep::Next(a) => a,
    };
    let a2 = match step_over(bytes, a1, end, little, SubKind::Name) {
        SubStep::Stop => return true,
        SubStep::Overflow => return false,
        SubStep::Next(a) => a,
    };
    let a3 = match step_over(bytes, a2, end, little, SubKind::Numeric) {
        SubStep::Stop => return true,
        SubStep::Overflow => return false,
        SubStep::Next(a) => a,
    };
    let fits = match read_tag(bytes, at, end, little) {
        TagRead::Found(tag) => dims_fit(bytes, at + tag.len, (tag.size / 4) as usize, little),
        _ => true,
    };
    if !fits {
        return false;
    }
    if complex {
        match step_over(bytes, a3, end, little, SubKind::Numeric) {
            SubStep::Overflow => false,
            _ => true,
        }
    } else {
        true
    }
}

/// Checks a sparse matrix from its dimensions subelement at `at` on.
fn scan_sparse(bytes: &[u8], at: usize, end: usize, little: bool, complex: bool) -> (r: bool)
    requires
        at <= end <= bytes@.len(),
    ensures
        r == sparse_safe(bytes@, at as int, end as int, little, complex),
{
    let a1 = match step_over(bytes, at, end, little, SubKind::Dims) {
        SubStep::Stop => return true,
        SubStep::Overflow => return false,
        SubStep::Next(a) => a,
    };
    let a2 = match step_over(bytes, a1, end, little, SubKind::Name) {
        SubStep::Stop => return true,
        SubStep::Overflow => return false,
        SubStep::Next(a) => a,
    };
    let a3 = match step_over(bytes, a2, end, little, SubKind::Index) {
        SubStep::Stop => return true,
        SubStep::Overflow => return false,
        SubStep::Next(a) => a,
    };
    let a4 = match step_over(bytes, a3, end, little, SubKind::Index) {
        SubStep::Stop => return true,
        SubStep::Overflow => return false,
        SubStep::Next(a) => a,
    };
    let a5 = match step_over(bytes, a4, end, little, SubKind::Numeric) {
        SubStep::Stop => return true,
        SubStep::Overflow => return false,
        SubStep::Next(a) => a,
    };
    if complex {
        match step_over(bytes, a5, end, little, SubKind::Numeric) {
            SubStep::Overflow => false,
            _ => true,
        }
    } else {
        true
    }
}

/// Checks the data of a matrix element, from `start` to `end`.
fn scan_matrix(bytes: &[u8], start: usize, end: usize, little: bool) -> (r: bool)
    requires
        start <= end <= bytes@.len(),
    ensures
        r == matrix_safe(bytes@, start as int, end as int, little),
{
    if end - start < 16 {
        return true;
    }
    if read_u32(bytes, start, little) != 6 || read_u32(bytes, start + 4, little) != 8 {
        return true;
    }
    let flags = read_u32(bytes, start + 8, little);
    let class = flags % 256;
    let complex = (flags / 2048) % 2 == 1;
    if class == 5 {
        scan_sparse(bytes, start + 16, end, little, complex)
    } else if 6 <= class && class <= 15 {
        scan_numeric(bytes, start + 16, end, little, complex)
    } else {
        true
    }
}

/// Checks the element at `at`, decoding compressed elements.
fn scan_element(bytes: &[u8], at: usize, little: bool, depth: usize) -> (r: bool)
    requires
        at <= bytes@.len(),
    ensures
        r == element_safe(bytes@, at as int, little, depth as nat),
    decreases depth,
{
    let len = bytes.len();
    match read_tag(bytes, at, len, little) {
        TagRead::Stop => true,
        TagRead::Overflow => false,
        TagRead::Found(tag) => {
            let start = at + tag.len;
            if tag.size as usize > len - start {
                return true;
            }
            let end = start + tag.size as usize;
            if tag.data_type == MATRIX_TYPE {
                scan_matrix(bytes, start, end, little)
            } else if tag.data_type == COMPRESSED_TYPE {
                match zlib_decode(vstd::slice::slice_subrange(bytes, start, end)) {
                    None => true,
                    Some(inner) => {
                        if depth == 0 {
                            false
                        } else {
                            scan_element(inner.as_slice(), 0, little, depth - 1)
                        }
                    },
                }
            } else {
                true
            }
        },
    }
}

/// The position of the element after the one at `at`, as `element_next`
/// describes it.
fn next_element(bytes: &[u8], at: usize, little: bool) -> (r: Option<usize>)
    requires
        at <= bytes@.len(),
    ensures
        match element_next(bytes@, at as int, little) {
            None => r is None,
            Some(next) => r == Some(next as usize) && at < next <= bytes@.len(),
        },
{
    let len = bytes.len();
    match read_tag(bytes, at, len, little) {
        TagRead::Found(tag) => {
            let start = at + tag.len;
            if tag.size as usize > len - start {
                return None;
            }
            let end = start + tag.size as usize;
            if tag.data_type == COMPRESSED_TYPE {
                Some(end)
            } else if tag.padding as usize <= len - end {
                Some(end + tag.padding as usize)
            } else {
                Some(end)
            }
        },
        _ => None,
    }
}

/// Whether the `matfile` reader can walk `bytes` without overflowing, as
/// `mat_bytes_safe` states it.
pub fn scan_mat_bytes(bytes: &[u8]) -> (r: bool)
    ensures
        r == mat_bytes_safe(bytes@),
{
    let len = bytes.len();
    if len < 128 {
        return true;
    }
    let lead_ok = bytes[0] != 0 && bytes[1] != 0 && bytes[2] != 0 && bytes[3] != 0;
    let little_mark = bytes[126] == 73 && bytes[127] == 77 && bytes[124] == 0 && bytes[125] == 1;
    let big_mark = bytes[126] == 77 && bytes[127] == 73 && bytes[124] == 1 && bytes[125] == 0;
    if !lead_ok || !(little_mark || big_mark) {
        return true;
    }
    let little = bytes[126] == 73;
    let mut at: usize = 128;
    loop
        invariant
            128 <= at <= len,
            len == bytes@.len(),
            header_accepted(bytes@),
            little == (bytes@[126] == 73),
            mat_bytes_safe(bytes@) == elements_safe(
                bytes@,
                at as int,
                little,
                COMPRESSION_DEPTH as nat,
            ),
        decreases len - at,
    {
        if at == len {
            return true;
        }
        if !scan_element(bytes, at, little, COMPRESSION_DEPTH) {
            return false;
        }
        match next_element(bytes, at, little) {
            None => return true,
            Some(next) => {
                at = next;
            },
        }
    }
}

/// The scan refuses exactly what overflows and leaves the rest to the
/// reader: bytes whose header the reader refuses are never refused, and a
/// file whose first element has a long tag with a byte count above
/// `MAX_ELEMENT_SIZE` always is, whatever follows.
pub proof fn lemma_oversized_first_element_refused(bytes: Seq<u8>)
    ensures
        !header_accepted(bytes) ==> mat_bytes_safe(bytes),
        header_accepted(bytes) && bytes.len() >= 136 && u32_at(bytes, 128, bytes[126] == 73) < 65536
            && u32_at(bytes, 132, bytes[126] == 73) > MAX_ELEMENT_SIZE ==> !mat_bytes_safe(bytes),
{
    if header_accepted(bytes) && bytes.len() >= 136 {
        let little = bytes[126] == 73;
        assert(!(128 < 0 || 128 >= bytes.len()));
        if u32_at(bytes, 128, little) < 65536 && u32_at(bytes, 132, little) > MAX_ELEMENT_SIZE {
            assert(tag_at(bytes, 128, bytes.len() as int, little) is Overflow);
            assert(!element_safe(bytes, 128, little, COMPRESSION_DEPTH as nat));
        }
    }
}

} // verus!
