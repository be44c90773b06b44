//! Reading PCD files with `pcd_rs`.

use vstd::prelude::*;

use crate::error::CloudError;
use crate::names::names_of;

verus! {

#[verifier::external_type_specification]
#[verifier::external_body]
pub struct ExPcdError(pcd_rs::Error);

#[verifier::external_type_specification]
#[verifier::external_body]
pub struct ExPcdField(pcd_rs::Field);

/// How the records of a PCD file are stored after its header.
pub enum PcdDataKind {
    /// One line of text per record.
    Ascii,
    /// Records one after the other, in binary.
    Binary,
    /// The columns of the records in binary, compressed with LZF and preceded by
    /// the compressed and the uncompressed size, two little-endian `u32`.
    BinaryCompressed,
}

/// What the header of a PCD file declares.
pub struct PcdHeader {
    /// The number of columns of an organized cloud, otherwise the number of points.
    pub width: u64,
    /// The number of rows of an organized cloud, otherwise 1.
    pub height: u64,
    /// The number of records that follow the header.
    pub num_points: u64,
    /// How the records are stored.
    pub data: PcdDataKind,
    /// The name of each field.
    pub field_names: Vec<String>,
    /// The number of bytes of one value of each field.
    pub field_sizes: Vec<u64>,
    /// The number of values of each field.
    pub field_counts: Vec<u64>,
    /// The number of bytes after the header.
    pub data_len: usize,
}

/// A `PcdHeader` as mathematical values.
pub struct PcdHeaderView {
    pub width: u64,
    pub height: u64,
    pub num_points: u64,
    pub data: PcdDataKind,
    pub field_names: Seq<Seq<char>>,
    pub field_sizes: Seq<u64>,
    pub field_counts: Seq<u64>,
    pub data_len: nat,
}

impl View for PcdHeader {
    type V = PcdHeaderView;

    open spec fn view(&self) -> PcdHeaderView {
        PcdHeaderView {
            width: self.width,
            height: self.height,
            num_points: self.num_points,
            data: self.data,
            field_names: names_of(self.field_names@),
            field_sizes: self.field_sizes@,
            field_counts: self.field_counts@,
            data_len: self.data_len as nat,
        }
    }
}

/// The header that `pcd_rs` reads from PCD bytes, or `None` where it refuses them.
pub uninterp spec fn pcd_header_of(bytes: Seq<u8>) -> Option<PcdHeaderView>;

/// The records, each as its fields, that `pcd_rs` reads from PCD bytes, or
/// `None` where it refuses them.
pub uninterp spec fn pcd_records_of(bytes: Seq<u8>) -> Option<Seq<Seq<pcd_rs::Field>>>;

/// The number of bytes of the first `k` fields of one record.
pub open spec fn record_size(sizes: Seq<u64>, counts: Seq<u64>, k: int) -> int
    decreases k,
{
    if k <= 0 {
        0
    } else {
        record_size(sizes, counts, k - 1) + sizes[k - 1] * counts[k - 1]
    }
}

/// The little-endian `u32` that starts at `at`.
pub open spec fn le_u32(bytes: Seq<u8>, at: int) -> int {
    bytes[at] + 256 * bytes[at + 1] + 65536 * bytes[at + 2] + 16777216 * bytes[at + 3]
}

/// Whether `pcd_rs` reads the records of PCD bytes with header `h` without
/// panicking: when the header declares points, one record fits in an
/// `isize`; and compressed data that declares a size other than zero holds
/// both sizes within an `isize` and declares an uncompressed size that holds
/// all its points.
pub open spec fn pcd_reader_safe(bytes: Seq<u8>, h: PcdHeaderView) -> bool {
    let size = record_size(h.field_sizes, h.field_counts, h.field_sizes.len() as int);
    let at = bytes.len() - h.data_len;
    &&& h.num_points > 0 ==> size <= isize::MAX
    &&& (h.data is BinaryCompressed && h.data_len >= 8) ==> {
        let compressed = le_u32(bytes, at);
        let uncompressed = le_u32(bytes, at + 4);
        ||| compressed == 0 && uncompressed == 0
        ||| compressed <= isize::MAX && uncompressed <= isize::MAX && h.num_points * size
            <= uncompressed
    }
}

/// Which PCD data `pcd_rs` reads without panicking, case by case. Without
/// compressed sizes to read, it is any data that declares no point or whose
/// records fit in an `isize`; so is compressed data that declares both sizes
/// zero. Other compressed data must moreover declare both sizes within an
/// `isize` and an uncompressed size that holds all its points; its compressed
/// size is held to nothing else.
pub proof fn lemma_pcd_readable_cases(bytes: Seq<u8>, h: PcdHeaderView)
    requires
        h.data_len <= bytes.len(),
    ensures
        ({
            let size = record_size(h.field_sizes, h.field_counts, h.field_sizes.len() as int);
            let records_fit = h.num_points == 0 || size <= isize::MAX;
            let at = bytes.len() - h.data_len;
            let compressed = le_u32(bytes, at);
            let uncompressed = le_u32(bytes, at + 4);
            &&& !(h.data is BinaryCompressed && h.data_len >= 8) ==> (pcd_reader_safe(bytes, h)
                <==> records_fit)
            &&& (h.data is BinaryCompressed && h.data_len >= 8 && compressed == 0 && uncompressed
                == 0) ==> (pcd_reader_safe(bytes, h) <==> records_fit)
            &&& (h.data is BinaryCompressed && h.data_len >= 8 && !(compressed == 0 && uncompressed
                == 0)) ==> (pcd_reader_safe(bytes, h) <==> (records_fit && compressed
                <= isize::MAX && uncompressed <= isize::MAX && h.num_points * size
                <= uncompressed))
        }),
{
}

/// The compressed size that compressed PCD data declares does not decide
/// whether `pcd_rs` reads it, as long as it is not zero and fits in an
/// `isize`: two such files that differ only there are both read or both
/// refused.
pub proof fn lemma_pcd_compressed_size_irrelevant(b1: Seq<u8>, b2: Seq<u8>, h: PcdHeaderView)
    requires
        b1.len() == b2.len(),
        h.data is BinaryCompressed,
        8 <= h.data_len <= b1.len(),
        forall|i: int|
            0 <= i < b1.len() && !(b1.len() - h.data_len <= i < b1.len() - h.data_len + 4) ==> #[trigger] b1[i]
                == b2[i],
        0 < le_u32(b1, b1.len() - h.data_len) <= isize::MAX,
        0 < le_u32(b2, b2.len() - h.data_len) <= isize::MAX,
    ensures
        pcd_reader_safe(b1, h) == pcd_reader_safe(b2, h),
{
    let at = b1.len() - h.data_len;
    assert(b1[at + 4] == b2[at + 4] && b1[at + 5] == b2[at + 5] && b1[at + 6] == b2[at + 6] && b1[at
        + 7] == b2[at + 7]);
    assert(le_u32(b1, at + 4) == le_u32(b2, at + 4));
}

/// Reads the header of `buf` with `pcd_rs::PcdMeta::from_reader`, reading the
/// bytes as a `&[u8]`, and counts the bytes that the header leaves. `pcd_rs`
/// reads the header alone here, as `DynReader::from_bytes` reads it first. The
/// header is `pcd_header_of(buf)`, and there is one when the call succeeds.
/// The size of each field is `ValueKind::byte_size` of its kind; the three
/// lists have one entry per field.
#[verifier::external_body]
fn pcd_header(buf: &[u8]) -> (res: Result<PcdHeader, pcd_rs::Error>)
    ensures
        res is Ok <==> pcd_header_of(buf@) is Some,
        res matches Ok(h) ==> pcd_header_of(buf@) == Some(h@),
        res matches Ok(h) ==> h.data_len <= buf.len() && h.field_sizes.len()
            == h.field_names.len() && h.field_counts.len() == h.field_names.len(),
{
    let mut rest: &[u8] = buf;
    let meta = pcd_rs::PcdMeta::from_reader(&mut rest)?;
    let defs = &meta.field_defs.fields;
    let data = match meta.data {
        pcd_rs::DataKind::Ascii => PcdDataKind::Ascii,
        pcd_rs::DataKind::Binary => PcdDataKind::Binary,
        pcd_rs::DataKind::BinaryCompressed => PcdDataKind::BinaryCompressed,
    };
    Ok(PcdHeader {
        width: meta.width, height: meta.height, num_points: meta.num_points, data,
        field_names: defs.iter().map(|f| f.name.clone()).collect(),
        field_sizes: defs.iter().map(|f| f.kind.byte_size() as u64).collect(),
        field_counts: defs.iter().map(|f| f.count).collect(),
        data_len: rest.len(),
    })
}

/// Builds a `pcd_rs::DynReader` over `buf` with `DynReader::from_bytes` and
/// collects its records, stopping at the first error, each record given as its
/// fields. The reading depends on the bytes alone: it succeeds when
/// `pcd_records_of(buf)` is some records, and gives them, one for each point
/// that the header declares. `requires` leaves out the inputs on
/// which `DynReader::from_bytes` panics (see `pcd_reader_safe`); that an
/// allocation of the sizes that a header declares fails is not excluded.
#[verifier::external_body]
fn pcd_read(buf: &[u8]) -> (res: Result<Vec<Vec<pcd_rs::Field>>, pcd_rs::Error>)
    requires
        pcd_header_of(buf@) matches Some(h) && pcd_reader_safe(buf@, h),
    ensures
        res is Ok <==> pcd_records_of(buf@) is Some,
        res matches Ok(records) ==> pcd_records_of(buf@) == Some(
            records@.map_values(|r: Vec<pcd_rs::Field>| r@),
        ),
        res matches Ok(records) ==> (pcd_header_of(buf@) matches Some(h) ==> (h.num_points
            <= usize::MAX ==> records.len() == h.num_points)),
{
    let reader = pcd_rs::DynReader::from_bytes(buf)?;
    reader.map(|r| r.map(|record| record.0)).collect()
}

proof fn lemma_record_size_monotone(sizes: Seq<u64>, counts: Seq<u64>, j: int, k: int)
    requires
        0 <= j <= k,
    ensures
        record_size(sizes, counts, j) <= record_size(sizes, counts, k),
    decreases k - j,
{
    if j < k {
        lemma_record_size_monotone(sizes, counts, j, k - 1);
        assert(sizes[k - 1] * counts[k - 1] >= 0) by (nonlinear_arith);
    }
}

/// The number of bytes of one record, or `None` where it exceeds `isize::MAX`.
fn checked_record_size(sizes: &Vec<u64>, counts: &Vec<u64>) -> (res: Option<u128>)
    requires
        sizes.len() == counts.len(),
    ensures
        res matches Some(s) ==> s == record_size(sizes@, counts@, sizes.len() as int) && s
            <= isize::MAX,
        res is None ==> record_size(sizes@, counts@, sizes.len() as int) > isize::MAX,
{
    let mut total: u128 = 0;
    let mut i: usize = 0;
    while i < sizes.len()
        invariant
            sizes.len() == counts.len(),
            i <= sizes.len(),
            total == record_size(sizes@, counts@, i as int),
            total <= isize::MAX,
        decreases sizes.len() - i,
    {
        let size: u128 = sizes[i] as u128;
        let count: u128 = counts[i] as u128;
        assert(size * count <= u64::MAX * u64::MAX) by (nonlinear_arith)
            requires
                size <= u64::MAX,
                count <= u64::MAX,
        ;
        let next: u128 = total + size * count;
        if next > isize::MAX as u128 {
            proof {
                lemma_record_size_monotone(sizes@, counts@, i + 1, sizes.len() as int);
            }
            return None;
        }
        total = next;
        i = i + 1;
    }
    Some(total)
}

/// Reads the little-endian `u32` that starts at `at`.
fn read_le_u32(buf: &[u8], at: usize) -> (res: u64)
    requires
        at + 4 <= buf.len(),
    ensures
        res == le_u32(buf@, at as int),
{
    buf[at] as u64 + 256 * (buf[at + 1] as u64) + 65536 * (buf[at + 2] as u64) + 16777216 * (
    buf[at + 3] as u64)
}

/// Whether `pcd_rs` reads the records of `buf`, whose header is `h`, without
/// panicking.
pub fn pcd_header_readable(buf: &[u8], h: &PcdHeader) -> (res: bool)
    requires
        h.data_len <= buf.len(),
        h.field_sizes.len() == h.field_counts.len(),
    ensures
        res == pcd_reader_safe(buf@, h@),
{
    let checked_size = checked_record_size(&h.field_sizes, &h.field_counts);
    if h.num_points > 0 && checked_size.is_none() {
        return false;
    }
    let compressed_data = match h.data {
        PcdDataKind::BinaryCompressed => true,
        _ => false,
    };
    if !compressed_data || h.data_len < 8 {
        return true;
    }
    let at = buf.len() - h.data_len;
    let compressed = read_le_u32(buf, at);
    let uncompressed = read_le_u32(buf, at + 4);
    if compressed == 0 && uncompressed == 0 {
        return true;
    }
    if compressed as u128 > isize::MAX as u128 || uncompressed as u128 > isize::MAX as u128 {
        return false;
    }
    match checked_size {
        Some(size) => {
            assert(h.num_points * size <= u64::MAX * (isize::MAX as int)) by (nonlinear_arith)
                requires
                    h.num_points <= u64::MAX,
                    size <= isize::MAX,
                    0 <= size,
            ;
            (h.num_points as u128) * size <= uncompressed as u128
        },
        None => {
            assert(h.num_points == 0);
            true
        },
    }
}

/// The content of a PCD file.
pub struct PcdTable {
    /// The number of columns of an organized cloud, otherwise the number of points.
    pub width: u64,
    /// The number of rows of an organized cloud, otherwise 1.
    pub height: u64,
    /// The names of the fields of the records.
    pub field_names: Vec<String>,
    /// The fields of each record.
    pub records: Vec<Vec<pcd_rs::Field>>,
}

impl PcdTable {
    /// Whether the cloud of the file is organized, that is, has more than one
    /// row; its points then get their row and column as fields.
    pub fn is_organized(&self) -> (b: bool)
        ensures
            b == (self.height > 1),
    {
        self.height > 1
    }
}

/// Reads the header and the records of PCD bytes. The header comes from
/// `pcd_header_of`, the records from `pcd_records_of`; bytes whose records
/// `pcd_rs` would panic on are refused with `PcdUnreadable`.
pub fn read_pcd_table(buf: &[u8]) -> (res: Result<PcdTable, CloudError>)
    ensures
        res matches Ok(t) ==> pcd_header_of(buf@) matches Some(h) && t.width == h.width
            && t.height == h.height && names_of(t.field_names@) == h.field_names && (h.num_points
            <= usize::MAX ==> t.records.len() == h.num_points),
        res matches Ok(t) ==> pcd_records_of(buf@) == Some(
            t.records@.map_values(|r: Vec<pcd_rs::Field>| r@),
        ),
        res is Ok <==> (pcd_header_of(buf@) matches Some(h) && pcd_reader_safe(buf@, h)
            && pcd_records_of(buf@) is Some),
        pcd_header_of(buf@) is None ==> res matches Err(CloudError::Pcd(_)),
        res matches Err(CloudError::PcdUnreadable) <==> (pcd_header_of(buf@) matches Some(h)
            && !pcd_reader_safe(buf@, h)),
        res matches Err(e) ==> e is Pcd || e is PcdUnreadable,
{
    let header = match pcd_header(buf) {
        Ok(header) => header,
        Err(e) => {
            return Err(CloudError::Pcd(e));
        },
    };
    if !pcd_header_readable(buf, &header) {
        return Err(CloudError::PcdUnreadable);
    }
    let records = match pcd_read(buf) {
        Ok(records) => records,
        Err(e) => {
            return Err(CloudError::Pcd(e));
        },
    };
    Ok(PcdTable { width: header.width, height: header.height, field_names: header.field_names, records })
}

} // verus!
