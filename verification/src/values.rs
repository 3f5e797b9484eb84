//! Column values: the parts of a partition tuple, and the bounds of a column.

use vstd::prelude::*;

verus! {

/// A primitive column value.
///
/// Two values are equal when their variants and contents are. A floating-point
/// value is held by its bit pattern, with one pattern for zero and one for
/// not-a-number, so that equal values have equal patterns.
#[derive(Debug, PartialEq, Eq)]
pub enum Literal {
    Boolean(bool),
    Int(i32),
    Long(i64),
    Float(u32),
    Double(u64),
    Str(String),
    Binary(Vec<u8>),
    Int128(i128),
    UInt128(u128),
}

/// What a [`Literal`] stands for.
pub enum LiteralView {
    Boolean(bool),
    Int(i32),
    Long(i64),
    Float(u32),
    Double(u64),
    Str(Seq<char>),
    Binary(Seq<u8>),
    Int128(i128),
    UInt128(u128),
}

impl View for Literal {
    type V = LiteralView;

    open spec fn view(&self) -> LiteralView {
        match *self {
            Literal::Boolean(b) => LiteralView::Boolean(b),
            Literal::Int(n) => LiteralView::Int(n),
            Literal::Long(n) => LiteralView::Long(n),
            Literal::Float(n) => LiteralView::Float(n),
            Literal::Double(n) => LiteralView::Double(n),
            Literal::Str(s) => LiteralView::Str(s@),
            Literal::Binary(b) => LiteralView::Binary(b@),
            Literal::Int128(n) => LiteralView::Int128(n),
            Literal::UInt128(n) => LiteralView::UInt128(n),
        }
    }
}

impl Clone for Literal {
    fn clone(&self) -> (r: Self)
        ensures
            r@ == self@,
    {
        match self {
            Literal::Boolean(b) => Literal::Boolean(*b),
            Literal::Int(n) => Literal::Int(*n),
            Literal::Long(n) => Literal::Long(*n),
            Literal::Float(n) => Literal::Float(*n),
            Literal::Double(n) => Literal::Double(*n),
            Literal::Str(s) => Literal::Str(s.clone()),
            Literal::Binary(b) => {
                let copy: Vec<u8> = b.clone();
                assert(copy@ =~= b@);
                Literal::Binary(copy)
            },
            Literal::Int128(n) => Literal::Int128(*n),
            Literal::UInt128(n) => Literal::UInt128(*n),
        }
    }
}

/// Compares two byte strings.
fn same_bytes(a: &Vec<u8>, b: &Vec<u8>) -> (r: bool)
    ensures
        r == (a@ == b@),
{
    if a.len() != b.len() {
        return false;
    }
    let mut i: usize = 0;
    while i < a.len()
        invariant
            i <= a.len(),
            a.len() == b.len(),
            a@.take(i as int) =~= b@.take(i as int),
        decreases a.len() - i,
    {
        if a[i] != b[i] {
            return false;
        }
        assert(a@.take(i + 1) =~= a@.take(i as int).push(a@[i as int]));
        assert(b@.take(i + 1) =~= b@.take(i as int).push(b@[i as int]));
        i = i + 1;
    }
    assert(a@.take(i as int) =~= a@);
    assert(b@.take(i as int) =~= b@);
    true
}

impl Literal {
    /// Compares two values.
    pub fn same(&self, other: &Self) -> (r: bool)
        ensures
            r == (self@ == other@),
    {
        match (self, other) {
            (Literal::Boolean(a), Literal::Boolean(b)) => *a == *b,
            (Literal::Int(a), Literal::Int(b)) => *a == *b,
            (Literal::Long(a), Literal::Long(b)) => *a == *b,
            (Literal::Float(a), Literal::Float(b)) => *a == *b,
            (Literal::Double(a), Literal::Double(b)) => *a == *b,
            (Literal::Str(a), Literal::Str(b)) => *a == *b,
            (Literal::Binary(a), Literal::Binary(b)) => same_bytes(a, b),
            (Literal::Int128(a), Literal::Int128(b)) => *a == *b,
            (Literal::UInt128(a), Literal::UInt128(b)) => *a == *b,
            _ => false,
        }
    }
}

/// What an optional value stands for.
pub open spec fn field_view(field: Option<Literal>) -> Option<LiteralView> {
    match field {
        Some(value) => Some(value@),
        None => None,
    }
}

/// A partition tuple: one value, or null, for each partition field. The tuple
/// of an unpartitioned table has no fields.
#[derive(Debug, PartialEq, Eq)]
pub struct Struct {
    pub fields: Vec<Option<Literal>>,
}

impl View for Struct {
    type V = Seq<Option<LiteralView>>;

    open spec fn view(&self) -> Seq<Option<LiteralView>> {
        self.fields@.map_values(|field: Option<Literal>| field_view(field))
    }
}

impl Clone for Struct {
    fn clone(&self) -> (r: Self)
        ensures
            r@ == self@,
    {
        let mut fields: Vec<Option<Literal>> = Vec::new();
        let mut i: usize = 0;
        while i < self.fields.len()
            invariant
                i <= self.fields.len(),
                fields.len() == i,
                forall|j: int|
                    0 <= j < i ==> field_view(#[trigger] fields@[j]) == field_view(self.fields@[j]),
            decreases self.fields.len() - i,
        {
            let copy: Option<Literal> = match &self.fields[i] {
                Some(value) => Some(value.clone()),
                None => None,
            };
            fields.push(copy);
            i = i + 1;
        }
        let r = Struct { fields };
        assert(r@ =~= self@);
        r
    }
}

impl Struct {
    /// The tuple of the given values.
    pub fn new(fields: Vec<Option<Literal>>) -> (r: Self)
        ensures
            r.fields == fields,
    {
        Struct { fields }
    }

    /// The tuple of an unpartitioned table.
    pub fn empty() -> (r: Self)
        ensures
            r@.len() == 0,
            r.fields@.len() == 0,
    {
        Struct { fields: Vec::new() }
    }

    /// Compares two tuples.
    pub fn same(&self, other: &Self) -> (r: bool)
        ensures
            r == (self@ == other@),
    {
        if self.fields.len() != other.fields.len() {
            assert(self@.len() != other@.len());
            return false;
        }
        let mut i: usize = 0;
        while i < self.fields.len()
            invariant
                i <= self.fields.len(),
                self.fields.len() == other.fields.len(),
                forall|j: int| 0 <= j < i ==> #[trigger] self@[j] == other@[j],
            decreases self.fields.len() - i,
        {
            let equal: bool = match (&self.fields[i], &other.fields[i]) {
                (Some(a), Some(b)) => a.same(b),
                (None, None) => true,
                _ => false,
            };
            assert(equal == (self@[i as int] == other@[i as int]));
            if !equal {
                return false;
            }
            i = i + 1;
        }
        assert(self@ =~= other@);
        true
    }
}

} // verus!
