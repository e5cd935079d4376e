//! Logical types of arrays, as far as read planning looks at them.

use vstd::prelude::*;

verus! {

/// Whether an array may hold nulls.
#[derive(Debug, Clone, Copy, PartialEq, Eq, Structural)]
pub enum Nullability {
    NonNullable,
    Nullable,
}

/// The fixed-width numeric types.
#[derive(Debug, Clone, Copy, PartialEq, Eq, Structural)]
pub enum PType {
    U8,
    U16,
    U32,
    U64,
    I8,
    I16,
    I32,
    I64,
    F16,
    F32,
    F64,
}

impl PType {
    /// The number of bytes of a value.
    pub open spec fn spec_byte_width(self) -> usize {
        match self {
            PType::U8 | PType::I8 => 1,
            PType::U16 | PType::I16 | PType::F16 => 2,
            PType::U32 | PType::I32 | PType::F32 => 4,
            PType::U64 | PType::I64 | PType::F64 => 8,
        }
    }

    /// Whether values are integers.
    pub open spec fn spec_is_int(self) -> bool {
        !(self is F16 || self is F32 || self is F64)
    }

    /// Returns the number of bytes of a value.
    pub fn byte_width(&self) -> (r: usize)
        ensures
            r == self.spec_byte_width(),
    {
        match self {
            PType::U8 | PType::I8 => 1,
            PType::U16 | PType::I16 | PType::F16 => 2,
            PType::U32 | PType::I32 | PType::F32 => 4,
            PType::U64 | PType::I64 | PType::F64 => 8,
        }
    }

    /// Returns whether values are integers.
    pub fn is_int(&self) -> (r: bool)
        ensures
            r == self.spec_is_int(),
    {
        match self {
            PType::F16 | PType::F32 | PType::F64 => false,
            _ => true,
        }
    }
}

/// The logical type of an array.
#[derive(Debug)]
pub enum DType {
    /// Only nulls.
    Null,
    /// Booleans.
    Bool(Nullability),
    /// Fixed-width numbers.
    Primitive(PType, Nullability),
    /// Numbers with a fixed precision and scale.
    Decimal(u8, i8, Nullability),
    /// Strings.
    Utf8(Nullability),
    /// Byte strings.
    Binary(Nullability),
    /// Lists of varying length.
    List(Box<DType>, Nullability),
    /// Lists that all have the given number of elements.
    FixedSizeList(Box<DType>, u32, Nullability),
    /// A struct or extension type, known only by a number. Two of them are the same type, up to
    /// nullability, exactly when their numbers agree.
    Opaque(u64, Nullability),
}

impl DType {
    /// Whether values may be null.
    pub open spec fn spec_nullability(self) -> Nullability {
        match self {
            DType::Null => Nullability::Nullable,
            DType::Bool(n) => n,
            DType::Primitive(_, n) => n,
            DType::Decimal(_, _, n) => n,
            DType::Utf8(n) => n,
            DType::Binary(n) => n,
            DType::List(_, n) => n,
            DType::FixedSizeList(_, _, n) => n,
            DType::Opaque(_, n) => n,
        }
    }

    /// The same type with another nullability at the top; `Null` stays as it is.
    pub open spec fn spec_with_nullability(self, nullability: Nullability) -> DType {
        match self {
            DType::Null => DType::Null,
            DType::Bool(_) => DType::Bool(nullability),
            DType::Primitive(p, _) => DType::Primitive(p, nullability),
            DType::Decimal(p, s, _) => DType::Decimal(p, s, nullability),
            DType::Utf8(_) => DType::Utf8(nullability),
            DType::Binary(_) => DType::Binary(nullability),
            DType::List(e, _) => DType::List(e, nullability),
            DType::FixedSizeList(e, size, _) => DType::FixedSizeList(e, size, nullability),
            DType::Opaque(id, _) => DType::Opaque(id, nullability),
        }
    }

    /// The type with every nullability in it, at any depth, set to non-nullable.
    pub open spec fn without_nullability(self) -> DType
        decreases self,
    {
        match self {
            DType::List(e, _) => DType::List(
                Box::new(e.without_nullability()),
                Nullability::NonNullable,
            ),
            DType::FixedSizeList(e, size, _) => DType::FixedSizeList(
                Box::new(e.without_nullability()),
                size,
                Nullability::NonNullable,
            ),
            _ => self.spec_with_nullability(Nullability::NonNullable),
        }
    }

    /// Whether values are integers.
    pub open spec fn spec_is_int(self) -> bool {
        self matches DType::Primitive(p, _) && p.spec_is_int()
    }

    /// Returns whether values may be null.
    pub fn nullability(&self) -> (r: Nullability)
        ensures
            r == self.spec_nullability(),
    {
        match self {
            DType::Null => Nullability::Nullable,
            DType::Bool(n) => *n,
            DType::Primitive(_, n) => *n,
            DType::Decimal(_, _, n) => *n,
            DType::Utf8(n) => *n,
            DType::Binary(n) => *n,
            DType::List(_, n) => *n,
            DType::FixedSizeList(_, _, n) => *n,
            DType::Opaque(_, n) => *n,
        }
    }

    /// Returns the same type with another nullability at the top; `Null` stays as it is.
    pub fn with_nullability(&self, nullability: Nullability) -> (r: DType)
        ensures
            r == self.spec_with_nullability(nullability),
    {
        match self {
            DType::Null => DType::Null,
            DType::Bool(_) => DType::Bool(nullability),
            DType::Primitive(p, _) => DType::Primitive(*p, nullability),
            DType::Decimal(p, s, _) => DType::Decimal(*p, *s, nullability),
            DType::Utf8(_) => DType::Utf8(nullability),
            DType::Binary(_) => DType::Binary(nullability),
            DType::List(e, _) => DType::List(Box::new((**e).clone()), nullability),
            DType::FixedSizeList(e, size, _) => DType::FixedSizeList(
                Box::new((**e).clone()),
                *size,
                nullability,
            ),
            DType::Opaque(id, _) => DType::Opaque(*id, nullability),
        }
    }

    /// Returns whether two types differ at most in nullability, at any depth.
    pub fn eq_ignore_nullability(&self, other: &DType) -> (r: bool)
        ensures
            r == (self.without_nullability() == other.without_nullability()),
        decreases self,
    {
        match (self, other) {
            (DType::Null, DType::Null) => true,
            (DType::Bool(_), DType::Bool(_)) => true,
            (DType::Primitive(a, _), DType::Primitive(b, _)) => *a == *b,
            (DType::Decimal(p, s, _), DType::Decimal(q, t, _)) => *p == *q && *s == *t,
            (DType::Utf8(_), DType::Utf8(_)) => true,
            (DType::Binary(_), DType::Binary(_)) => true,
            (DType::List(a, _), DType::List(b, _)) => a.eq_ignore_nullability(b),
            (DType::FixedSizeList(a, m, _), DType::FixedSizeList(b, n, _)) => *m == *n
                && a.eq_ignore_nullability(b),
            (DType::Opaque(a, _), DType::Opaque(b, _)) => *a == *b,
            _ => false,
        }
    }

    /// Returns whether values are integers.
    pub fn is_int(&self) -> (r: bool)
        ensures
            r == self.spec_is_int(),
    {
        match self {
            DType::Primitive(p, _) => p.is_int(),
            _ => false,
        }
    }
}

impl Clone for DType {
    fn clone(&self) -> (r: Self)
        ensures
            r == *self,
        decreases self,
    {
        match self {
            DType::Null => DType::Null,
            DType::Bool(n) => DType::Bool(*n),
            DType::Primitive(p, n) => DType::Primitive(*p, *n),
            DType::Decimal(p, s, n) => DType::Decimal(*p, *s, *n),
            DType::Utf8(n) => DType::Utf8(*n),
            DType::Binary(n) => DType::Binary(*n),
            DType::List(e, n) => DType::List(Box::new((**e).clone()), *n),
            DType::FixedSizeList(e, size, n) => DType::FixedSizeList(
                Box::new((**e).clone()),
                *size,
                *n,
            ),
            DType::Opaque(id, n) => DType::Opaque(*id, *n),
        }
    }
}

impl PartialEq for DType {
    fn eq(&self, other: &DType) -> (r: bool)
        decreases self,
    {
        match (self, other) {
            (DType::Null, DType::Null) => true,
            (DType::Bool(m), DType::Bool(n)) => *m == *n,
            (DType::Primitive(a, m), DType::Primitive(b, n)) => *a == *b && *m == *n,
            (DType::Decimal(p, s, m), DType::Decimal(q, t, n)) => *p == *q && *s == *t && *m
                == *n,
            (DType::Utf8(m), DType::Utf8(n)) => *m == *n,
            (DType::Binary(m), DType::Binary(n)) => *m == *n,
            (DType::List(a, m), DType::List(b, n)) => *m == *n && (**a).eq(&**b),
            (DType::FixedSizeList(a, s, m), DType::FixedSizeList(b, t, n)) => *s == *t && *m
                == *n && (**a).eq(&**b),
            (DType::Opaque(a, m), DType::Opaque(b, n)) => *a == *b && *m == *n,
            _ => false,
        }
    }
}

impl vstd::std_specs::cmp::PartialEqSpecImpl for DType {
    open spec fn obeys_eq_spec() -> bool {
        true
    }

    open spec fn eq_spec(&self, other: &DType) -> bool {
        *self == *other
    }
}

/// A value takes as many bytes as the name of its type says: a number of `n` bits takes `n / 8`.
pub proof fn law_widths_are_those_of_the_names()
    ensures
        PType::U8.spec_byte_width() * 8 == 8,
        PType::U16.spec_byte_width() * 8 == 16,
        PType::U32.spec_byte_width() * 8 == 32,
        PType::U64.spec_byte_width() * 8 == 64,
        PType::I8.spec_byte_width() * 8 == 8,
        PType::I16.spec_byte_width() * 8 == 16,
        PType::I32.spec_byte_width() * 8 == 32,
        PType::I64.spec_byte_width() * 8 == 64,
        PType::F16.spec_byte_width() * 8 == 16,
        PType::F32.spec_byte_width() * 8 == 32,
        PType::F64.spec_byte_width() * 8 == 64,
{
}

/// The integer types are those with and without a sign, and no others.
pub proof fn law_integers_are_not_floats(ptype: PType, nullability: Nullability)
    ensures
        ptype.spec_is_int() <==> ptype is U8 || ptype is U16 || ptype is U32 || ptype is U64
            || ptype is I8 || ptype is I16 || ptype is I32 || ptype is I64,
        !ptype.spec_is_int() <==> ptype is F16 || ptype is F32 || ptype is F64,
        DType::Primitive(ptype, nullability).spec_is_int() <==> ptype.spec_is_int(),
{
}

/// Only fixed-width numbers can be integers.
pub proof fn law_only_primitives_are_integers(dtype: DType)
    ensures
        dtype.spec_is_int() ==> dtype is Primitive && !(dtype->Primitive_0 is F16)
            && !(dtype->Primitive_0 is F32) && !(dtype->Primitive_0 is F64),
        dtype is Primitive ==> dtype.spec_is_int() || dtype->Primitive_0 is F16
            || dtype->Primitive_0 is F32 || dtype->Primitive_0 is F64,
{
}

/// A type that is given a nullability has it, keeps everything else, and gets back to what it was
/// with the nullability that it had. A type of nulls alone is nullable and stays as it is.
pub proof fn law_nullability_can_be_replaced(dtype: DType, other: Nullability)
    ensures
        DType::Null.spec_nullability() == Nullability::Nullable,
        DType::Null.spec_with_nullability(other) == DType::Null,
        !(dtype is Null) ==> dtype.spec_with_nullability(other).spec_nullability() == other,
        dtype.spec_with_nullability(dtype.spec_nullability()) == dtype,
        dtype.spec_with_nullability(other).spec_with_nullability(dtype.spec_nullability()) == dtype,
        dtype is Bool ==> dtype.spec_with_nullability(other) == DType::Bool(other),
        dtype is Primitive ==> dtype.spec_with_nullability(other) == DType::Primitive(
            dtype->Primitive_0,
            other,
        ),
        dtype is Decimal ==> dtype.spec_with_nullability(other) == DType::Decimal(
            dtype->Decimal_0,
            dtype->Decimal_1,
            other,
        ),
        dtype is Utf8 ==> dtype.spec_with_nullability(other) == DType::Utf8(other),
        dtype is Binary ==> dtype.spec_with_nullability(other) == DType::Binary(other),
        dtype is List ==> dtype.spec_with_nullability(other) == DType::List(
            dtype->List_0,
            other,
        ),
        dtype is FixedSizeList ==> dtype.spec_with_nullability(other) == DType::FixedSizeList(
            dtype->FixedSizeList_0,
            dtype->FixedSizeList_1,
            other,
        ),
        dtype is Opaque ==> dtype.spec_with_nullability(other) == DType::Opaque(
            dtype->Opaque_0,
            other,
        ),
{
}

/// Types are alike, whatever their nullability, if they are of the same kind with the same
/// parameters and their elements are alike.
pub proof fn law_types_alike_differ_in_nullability_alone(a: DType, b: DType)
    ensures
        a.without_nullability() == b.without_nullability() <==> {
            ||| a is Null && b is Null
            ||| a is Bool && b is Bool
            ||| a is Primitive && b is Primitive && a->Primitive_0 == b->Primitive_0
            ||| a is Decimal && b is Decimal && a->Decimal_0 == b->Decimal_0 && a->Decimal_1
                == b->Decimal_1
            ||| a is Utf8 && b is Utf8
            ||| a is Binary && b is Binary
            ||| a is List && b is List && a->List_0.without_nullability()
                == b->List_0.without_nullability()
            ||| a is FixedSizeList && b is FixedSizeList && a->FixedSizeList_1
                == b->FixedSizeList_1 && a->FixedSizeList_0.without_nullability()
                == b->FixedSizeList_0.without_nullability()
            ||| a is Opaque && b is Opaque && a->Opaque_0 == b->Opaque_0
        },
        forall|other: Nullability| #[trigger]
            a.spec_with_nullability(other).without_nullability() == a.without_nullability(),
        a.without_nullability().spec_nullability() == Nullability::NonNullable || a is Null,
{
    reveal_with_fuel(DType::without_nullability, 2);
}

/// Comparing two types tells whether they are the same.
pub proof fn law_equal_types_are_the_same(a: DType, b: DType)
    ensures
        vstd::std_specs::cmp::PartialEqSpec::eq_spec(&a, &b) <==> a == b,
{
}

} // verus!
