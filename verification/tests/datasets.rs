use diffeq_gmrfs::datasets::{find_named_array, find_real_array, parse_mat_file, DatasetError};
use diffeq_gmrfs::mat_scan::{scan_mat_bytes, COMPRESSION_DEPTH};

fn push_u32(bytes: &mut Vec<u8>, value: u32) {
    bytes.extend_from_slice(&value.to_le_bytes());
}

/// A little-endian MAT-file holding one 1 x 1 double array called `x`.
fn single_scalar_file() -> Vec<u8> {
    scalar_file(false)
}

/// A little-endian MAT-file holding one 1 x 1 double array called `x`,
/// complex when `complex` is set.
fn scalar_file(complex: bool) -> Vec<u8> {
    let mut bytes = Vec::new();
    let mut text = b"MATLAB 5.0 MAT-file, written for a test".to_vec();
    text.resize(116, b' ');
    bytes.extend_from_slice(&text);
    bytes.extend_from_slice(&[0u8; 8]);
    bytes.extend_from_slice(&[0x00, 0x01]);
    bytes.extend_from_slice(b"IM");
    // matrix element
    push_u32(&mut bytes, 14);
    push_u32(&mut bytes, if complex { 80 } else { 64 });
    // array flags: double class
    push_u32(&mut bytes, 6);
    push_u32(&mut bytes, 8);
    push_u32(&mut bytes, if complex { 6 | 0x0800 } else { 6 });
    push_u32(&mut bytes, 0);
    // dimensions 1 x 1
    push_u32(&mut bytes, 5);
    push_u32(&mut bytes, 8);
    push_u32(&mut bytes, 1);
    push_u32(&mut bytes, 1);
    // name "x"
    push_u32(&mut bytes, 1);
    push_u32(&mut bytes, 1);
    bytes.extend_from_slice(&[b'x', 0, 0, 0, 0, 0, 0, 0]);
    // real part
    push_u32(&mut bytes, 9);
    push_u32(&mut bytes, 8);
    bytes.extend_from_slice(&2.5f64.to_le_bytes());
    if complex {
        push_u32(&mut bytes, 9);
        push_u32(&mut bytes, 8);
        bytes.extend_from_slice(&1.0f64.to_le_bytes());
    }
    bytes
}

#[test]
fn finds_array_by_name() {
    let bytes = single_scalar_file();
    let mat = matfile::MatFile::parse(bytes.as_slice()).unwrap();
    let found = find_named_array(&mat, "x").unwrap();
    assert_eq!(found.name, "x");
    assert_eq!(found.size, vec![1, 1]);
    assert!(!found.complex);
    assert_eq!(found.array.name(), "x");
}

#[test]
fn reports_missing_variable_by_name() {
    let bytes = single_scalar_file();
    let mat = matfile::MatFile::parse(bytes.as_slice()).unwrap();
    match find_named_array(&mat, "visc") {
        Err(DatasetError::MissingVariable(name)) => assert_eq!(name, "visc"),
        other => panic!("unexpected result: {:?}", other.map(|a| a.name)),
    }
}

#[test]
fn parses_bytes_of_a_mat_file() {
    let mat = parse_mat_file(&single_scalar_file()).unwrap();
    assert_eq!(mat.arrays().len(), 1);
    assert!(matches!(parse_mat_file(b"not a mat file"), Err(DatasetError::Parse(_))));
}

#[test]
fn rejects_complex_arrays() {
    let mat = parse_mat_file(&scalar_file(true)).unwrap();
    assert!(find_named_array(&mat, "x").unwrap().complex);
    assert!(matches!(find_real_array(&mat, "x"), Err(DatasetError::ComplexUnsupported)));
    assert!(matches!(find_real_array(&mat, "y"), Err(DatasetError::MissingVariable(n)) if n == "y"));
    let real = parse_mat_file(&single_scalar_file()).unwrap();
    assert_eq!(find_real_array(&real, "x").unwrap().size, vec![1, 1]);
}

/// The 128-byte header of a little-endian MAT-file.
fn little_endian_header() -> Vec<u8> {
    let mut bytes = b"MATLAB 5.0 MAT-file, written for a test".to_vec();
    bytes.resize(116, b' ');
    bytes.extend_from_slice(&[0u8; 8]);
    bytes.extend_from_slice(&[0x00, 0x01]);
    bytes.extend_from_slice(b"IM");
    bytes
}

/// A double matrix element named `x` with the given dimensions and one
/// stored value.
fn matrix_element(dims: &[u32]) -> Vec<u8> {
    let mut body = Vec::new();
    push_u32(&mut body, 6);
    push_u32(&mut body, 8);
    push_u32(&mut body, 6);
    push_u32(&mut body, 0);
    push_u32(&mut body, 5);
    push_u32(&mut body, 4 * dims.len() as u32);
    for &d in dims {
        push_u32(&mut body, d);
    }
    if dims.len() % 2 == 1 {
        push_u32(&mut body, 0);
    }
    push_u32(&mut body, 1);
    push_u32(&mut body, 1);
    body.extend_from_slice(&[b'x', 0, 0, 0, 0, 0, 0, 0]);
    push_u32(&mut body, 9);
    push_u32(&mut body, 8);
    body.extend_from_slice(&2.5f64.to_le_bytes());
    let mut element = Vec::new();
    push_u32(&mut element, 14);
    push_u32(&mut element, body.len() as u32);
    element.extend_from_slice(&body);
    element
}

fn adler32(data: &[u8]) -> u32 {
    let (mut a, mut b) = (1u32, 0u32);
    for &byte in data {
        a = (a + byte as u32) % 65521;
        b = (b + a) % 65521;
    }
    (b << 16) | a
}

/// A compressed element whose zlib stream stores `element` in one
/// uncompressed block.
fn compressed_element(element: &[u8]) -> Vec<u8> {
    let mut stream = vec![0x78, 0x01, 0x01];
    let len = element.len() as u16;
    stream.extend_from_slice(&len.to_le_bytes());
    stream.extend_from_slice(&(!len).to_le_bytes());
    stream.extend_from_slice(element);
    stream.extend_from_slice(&adler32(element).to_be_bytes());
    let mut out = Vec::new();
    push_u32(&mut out, 15);
    push_u32(&mut out, stream.len() as u32);
    out.extend_from_slice(&stream);
    out
}

fn file_with(elements: &[Vec<u8>]) -> Vec<u8> {
    let mut bytes = little_endian_header();
    for element in elements {
        bytes.extend_from_slice(element);
    }
    bytes
}

#[test]
fn refuses_element_byte_count_that_overflows_padding() {
    let mut bytes = little_endian_header();
    push_u32(&mut bytes, 14);
    push_u32(&mut bytes, 0xFFFF_FFF9);
    assert!(!scan_mat_bytes(&bytes));
    assert!(matches!(parse_mat_file(&bytes), Err(DatasetError::Malformed)));
    // the largest count the reader can pad is let through; the element is
    // then cut short and the reader stops with no array read
    let mut fits = little_endian_header();
    push_u32(&mut fits, 14);
    push_u32(&mut fits, 0xFFFF_FFF8);
    assert!(scan_mat_bytes(&fits));
    assert_eq!(parse_mat_file(&fits).unwrap().arrays().len(), 0);
}

#[test]
fn refuses_dimensions_whose_product_overflows() {
    let bytes = file_with(&[matrix_element(&[46341, 46341])]);
    assert!(!scan_mat_bytes(&bytes));
    assert!(matches!(parse_mat_file(&bytes), Err(DatasetError::Malformed)));
    // a product that fits goes to the reader, which finds one value where
    // 46340 * 46340 are owed
    let fits = file_with(&[matrix_element(&[46340, 46340])]);
    assert!(scan_mat_bytes(&fits));
    assert!(matches!(parse_mat_file(&fits), Err(DatasetError::Parse(_))));
    // the reader multiplies from the left: an overflow of the first two is
    // refused even when a later dimension is zero
    let zero_last = file_with(&[matrix_element(&[65536, 65536, 0])]);
    assert!(!scan_mat_bytes(&zero_last));
}

#[test]
fn reads_compressed_elements() {
    let bytes = file_with(&[compressed_element(&matrix_element(&[1, 1]))]);
    assert!(scan_mat_bytes(&bytes));
    let mat = parse_mat_file(&bytes).unwrap();
    assert_eq!(find_real_array(&mat, "x").unwrap().size, vec![1, 1]);
    let bad = file_with(&[compressed_element(&matrix_element(&[65536, 65536]))]);
    assert!(!scan_mat_bytes(&bad));
    assert!(matches!(parse_mat_file(&bad), Err(DatasetError::Malformed)));
}

#[test]
fn nested_compression_has_a_depth_limit() {
    let mut element = matrix_element(&[1, 1]);
    for _ in 0..COMPRESSION_DEPTH {
        element = compressed_element(&element);
    }
    let deepest_read = file_with(&[element.clone()]);
    assert_eq!(parse_mat_file(&deepest_read).unwrap().arrays().len(), 1);
    let too_deep = file_with(&[compressed_element(&element)]);
    assert!(matches!(parse_mat_file(&too_deep), Err(DatasetError::Malformed)));
}

#[test]
fn broken_zlib_streams_are_left_to_the_reader() {
    let mut bytes = little_endian_header();
    push_u32(&mut bytes, 15);
    push_u32(&mut bytes, 4);
    bytes.extend_from_slice(&[1, 2, 3, 4]);
    assert!(scan_mat_bytes(&bytes));
    assert!(matches!(parse_mat_file(&bytes), Err(DatasetError::Parse(_))));
}

#[test]
fn big_endian_files_are_scanned_in_their_byte_order() {
    let mut bytes = b"MATLAB 5.0 MAT-file".to_vec();
    bytes.resize(116, b' ');
    bytes.extend_from_slice(&[0u8; 8]);
    bytes.extend_from_slice(&[0x01, 0x00]);
    bytes.extend_from_slice(b"MI");
    bytes.extend_from_slice(&14u32.to_be_bytes());
    bytes.extend_from_slice(&0xFFFF_FFFFu32.to_be_bytes());
    assert!(!scan_mat_bytes(&bytes));
    assert!(matches!(parse_mat_file(&bytes), Err(DatasetError::Malformed)));
}

#[test]
fn files_with_an_unread_header_are_left_to_the_reader() {
    let mut bytes = little_endian_header();
    bytes[127] = b'X';
    push_u32(&mut bytes, 14);
    push_u32(&mut bytes, 0xFFFF_FFFF);
    assert!(scan_mat_bytes(&bytes));
    assert!(matches!(parse_mat_file(&bytes), Err(DatasetError::Parse(_))));
}
