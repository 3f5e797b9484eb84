//! The keys by which files are compared.

use crate::index::IndexKey;
use crate::manifest::DataFile;
use crate::values::{Literal, LiteralView, Struct};
use std::collections::hash_map::DefaultHasher;
use std::hash::Hasher;
use vstd::prelude::*;

verus! {

/// Folds one more word into a digest.
spec fn mixed(digest: u64, word: u64) -> u64 {
    (digest ^ word).wrapping_mul(0x9e3779b97f4a7c15)
}

fn mix(digest: u64, word: u64) -> (r: u64)
    ensures
        r == mixed(digest, word),
{
    (digest ^ word).wrapping_mul(0x9e3779b97f4a7c15)
}

/// The digest of a byte string.
spec fn bytes_digest(bytes: Seq<u8>) -> u64 {
    <DefaultHasher as vstd::std_specs::hash::DefaultHasherAdditionalSpecFns>::spec_finish(
        seq![bytes],
    )
}

fn digest_bytes(bytes: &[u8]) -> (r: u64)
    ensures
        r == bytes_digest(bytes@),
{
    let mut hasher = DefaultHasher::new();
    hasher.write(bytes);
    assert(hasher@ =~= seq![bytes@]);
    hasher.finish()
}

/// The digest of an optional number.
spec fn optional_digest(n: Option<i64>) -> u64 {
    match n {
        Some(n) => mixed(1, n as u64),
        None => 0,
    }
}

fn digest_optional(n: Option<i64>) -> (r: u64)
    ensures
        r == optional_digest(n),
{
    match n {
        Some(n) => mix(1, n as u64),
        None => 0,
    }
}

/// The digest of a partition value.
spec fn field_digest(field: Option<LiteralView>) -> u64 {
    match field {
        None => 0,
        Some(LiteralView::Boolean(b)) => if b {
            2
        } else {
            1
        },
        Some(LiteralView::Int(n)) => mixed(3, n as u64),
        Some(LiteralView::Long(n)) => mixed(4, n as u64),
        Some(LiteralView::Float(n)) => mixed(5, n as u64),
        Some(LiteralView::Double(n)) => mixed(6, n),
        Some(LiteralView::Str(s)) => bytes_digest(vstd::utf8::encode_utf8(s)),
        Some(LiteralView::Binary(b)) => bytes_digest(b),
        Some(LiteralView::Int128(n)) => mixed(7, n as u64),
        Some(LiteralView::UInt128(n)) => mixed(8, n as u64),
    }
}

fn digest_field(field: &Option<Literal>) -> (r: u64)
    ensures
        r == field_digest(crate::values::field_view(*field)),
{
    match field {
        None => 0,
        Some(Literal::Boolean(b)) => if *b {
            2
        } else {
            1
        },
        Some(Literal::Int(n)) => mix(3, *n as u64),
        Some(Literal::Long(n)) => mix(4, *n as u64),
        Some(Literal::Float(n)) => mix(5, *n as u64),
        Some(Literal::Double(n)) => mix(6, *n),
        Some(Literal::Str(s)) => digest_bytes(s.as_str().as_bytes()),
        Some(Literal::Binary(b)) => digest_bytes(b.as_slice()),
        Some(Literal::Int128(n)) => mix(7, *n as u64),
        Some(Literal::UInt128(n)) => mix(8, *n as u64),
    }
}

/// The digest of a partition tuple.
spec fn fields_digest(fields: Seq<Option<LiteralView>>) -> u64
    decreases fields.len(),
{
    if fields.len() == 0 {
        0
    } else {
        mixed(fields_digest(fields.drop_last()), field_digest(fields.last()))
    }
}

fn digest_fields(partition: &Struct) -> (r: u64)
    ensures
        r == fields_digest(partition@),
{
    let mut digest: u64 = 0;
    let mut i: usize = 0;
    while i < partition.fields.len()
        invariant
            i <= partition.fields.len(),
            digest == fields_digest(partition@.take(i as int)),
        decreases partition.fields.len() - i,
    {
        digest = mix(digest, digest_field(&partition.fields[i]));
        assert(partition@.take(i + 1).drop_last() =~= partition@.take(i as int));
        i = i + 1;
    }
    assert(partition@.take(i as int) =~= partition@);
    digest
}

impl IndexKey for String {
    closed spec fn digest_of(v: Seq<char>) -> u64 {
        bytes_digest(vstd::utf8::encode_utf8(v))
    }

    fn digest(&self) -> (d: u64) {
        digest_bytes(self.as_str().as_bytes())
    }

    fn same(&self, other: &Self) -> (b: bool) {
        *self == *other
    }
}

/// A partition of a table: a partition tuple under a partition spec.
#[derive(Debug, PartialEq, Eq)]
pub struct PartitionKey {
    pub spec_id: i32,
    pub partition: Struct,
}

/// What a [`PartitionKey`] stands for.
pub struct PartitionKeyView {
    pub spec_id: i32,
    pub fields: Seq<Option<LiteralView>>,
}

impl View for PartitionKey {
    type V = PartitionKeyView;

    open spec fn view(&self) -> PartitionKeyView {
        PartitionKeyView { spec_id: self.spec_id, fields: self.partition@ }
    }
}

impl IndexKey for PartitionKey {
    closed spec fn digest_of(v: PartitionKeyView) -> u64 {
        mixed(fields_digest(v.fields), v.spec_id as u64)
    }

    fn digest(&self) -> (d: u64) {
        mix(digest_fields(&self.partition), self.spec_id as u64)
    }

    fn same(&self, other: &Self) -> (b: bool) {
        self.spec_id == other.spec_id && self.partition.same(&other.partition)
    }
}

/// The identity of a delete file: its path and, for a deletion vector, its
/// place in the file. Several deletion vectors can share one Puffin file.
#[derive(Debug, PartialEq, Eq)]
pub struct FileKey {
    pub file_path: String,
    pub content_offset: Option<i64>,
    pub content_size_in_bytes: Option<i64>,
}

/// What a [`FileKey`] stands for.
pub struct FileKeyView {
    pub file_path: Seq<char>,
    pub content_offset: Option<i64>,
    pub content_size_in_bytes: Option<i64>,
}

impl View for FileKey {
    type V = FileKeyView;

    open spec fn view(&self) -> FileKeyView {
        FileKeyView {
            file_path: self.file_path@,
            content_offset: self.content_offset,
            content_size_in_bytes: self.content_size_in_bytes,
        }
    }
}

impl IndexKey for FileKey {
    closed spec fn digest_of(v: FileKeyView) -> u64 {
        mixed(
            mixed(
                bytes_digest(vstd::utf8::encode_utf8(v.file_path)),
                optional_digest(v.content_offset),
            ),
            optional_digest(v.content_size_in_bytes),
        )
    }

    fn digest(&self) -> (d: u64) {
        mix(
            mix(
                digest_bytes(self.file_path.as_str().as_bytes()),
                digest_optional(self.content_offset),
            ),
            digest_optional(self.content_size_in_bytes),
        )
    }

    fn same(&self, other: &Self) -> (b: bool) {
        self.file_path == other.file_path && self.content_offset == other.content_offset
            && self.content_size_in_bytes == other.content_size_in_bytes
    }
}

impl DataFile {
    /// The partition that the file belongs to.
    pub open spec fn partition_of(self) -> PartitionKeyView {
        PartitionKeyView { spec_id: self.partition_spec_id, fields: self.partition@ }
    }

    /// The identity of the file.
    pub open spec fn key(self) -> FileKeyView {
        FileKeyView {
            file_path: self.file_path@,
            content_offset: self.content_offset,
            content_size_in_bytes: self.content_size_in_bytes,
        }
    }

    /// The partition that the file belongs to.
    pub fn partition_key(&self) -> (r: PartitionKey)
        ensures
            r@ == self.partition_of(),
            r.spec_id == self.partition_spec_id,
            r.partition@ == self.partition@,
    {
        PartitionKey { spec_id: self.partition_spec_id, partition: self.partition.clone() }
    }
}

/// The identity of a delete file.
pub fn delete_file_key(file: &DataFile) -> (r: FileKey)
    ensures
        r@ == file.key(),
        r.file_path@ == file.file_path@,
        r.content_offset == file.content_offset,
        r.content_size_in_bytes == file.content_size_in_bytes,
{
    FileKey {
        file_path: file.file_path.clone(),
        content_offset: file.content_offset,
        content_size_in_bytes: file.content_size_in_bytes,
    }
}

} // verus!
