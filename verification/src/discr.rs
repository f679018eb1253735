//! Enum discriminants: reading an explicit value and resolving a relative
//! one.

use vstd::prelude::*;
use crate::context::TyCtxt;
use crate::model::{AdtDef, DefId, TyKind, VariantDiscr};

verus! {

/// The value of a discriminant, signed or unsigned as the enum's
/// representation is.
#[derive(Clone, Copy, Debug, PartialEq, Eq, Structural)]
pub enum EnumValue {
    Unsigned(u128),
    Signed(i128),
}

impl EnumValue {
    /// The number that the value stands for.
    pub open spec fn as_int(self) -> int {
        match self {
            EnumValue::Unsigned(x) => x as int,
            EnumValue::Signed(x) => x as int,
        }
    }

    /// Whether `n` can be added without leaving the range of the value's
    /// representation.
    pub open spec fn can_add(self, n: u32) -> bool {
        match self {
            EnumValue::Unsigned(x) => x + n <= u128::MAX,
            EnumValue::Signed(x) => x + n <= i128::MAX,
        }
    }

    /// The value `n` steps on, in the same representation.
    pub open spec fn add_spec(self, n: u32) -> EnumValue {
        match self {
            EnumValue::Unsigned(x) => EnumValue::Unsigned((x + n) as u128),
            EnumValue::Signed(x) => EnumValue::Signed((x + n) as i128),
        }
    }

    /// Adds an offset, keeping the signedness.
    pub fn add(self, n: u32) -> (r: EnumValue)
        requires
            self.can_add(n),
        ensures
            r == self.add_spec(n),
            r.as_int() == self.as_int() + n,
            (r is Signed) == (self is Signed),
    {
        match self {
            EnumValue::Unsigned(x) => EnumValue::Unsigned(x + n as u128),
            EnumValue::Signed(x) => EnumValue::Signed(x + n as i128),
        }
    }
}

/// Two to the power of the number of bits in `size` bytes, for the widths
/// that integers have; zero for any other.
pub open spec fn width_modulus(size: u8) -> int {
    if size == 1 {
        0x100
    } else if size == 2 {
        0x1_0000
    } else if size == 4 {
        0x1_0000_0000
    } else if size == 8 {
        0x1_0000_0000_0000_0000
    } else if size == 16 {
        u128::MAX + 1
    } else {
        0
    }
}

/// The low `size` bytes of `data` read as a two's complement number.
pub open spec fn signed_value(data: u128, size: u8) -> int
    recommends
        width_modulus(size) > 0,
{
    let m = width_modulus(size);
    let low = data as int % m;
    if 2 * low < m {
        low
    } else {
        low - m
    }
}

/// The low `size` bytes of `data` read as an unsigned number.
pub open spec fn unsigned_value(data: u128, size: u8) -> int
    recommends
        width_modulus(size) > 0,
{
    data as int % width_modulus(size)
}

/// The value of the constant `id` read as an enum value: present where the
/// constant evaluates to an integer of one, two, four, eight or sixteen
/// bytes and its type is an integer type, whose signedness decides how the
/// bits are read.
pub open spec fn explicit_value(tcx: &TyCtxt, id: DefId) -> Option<EnumValue> {
    match tcx.def(id) {
        Some(x) => match (x.const_value, x.type_of) {
            (Some(v), Some(t)) => match tcx.kind(t) {
                Some(TyKind::Int(_)) => if width_modulus(v.size) > 0 {
                    Some(EnumValue::Signed(signed_value(v.data, v.size) as i128))
                } else {
                    None
                },
                Some(TyKind::Uint(_)) => if width_modulus(v.size) > 0 {
                    Some(EnumValue::Unsigned(unsigned_value(v.data, v.size) as u128))
                } else {
                    None
                },
                _ => None,
            },
            _ => None,
        },
        None => None,
    }
}

/// The low `size` bytes of `data`, for a width below sixteen bytes.
fn low_bytes(data: u128, size: u8) -> (r: u128)
    requires
        size == 1 || size == 2 || size == 4 || size == 8,
    ensures
        r == unsigned_value(data, size),
        r < width_modulus(size),
{
    if size == 1 {
        data % 0x100
    } else if size == 2 {
        data % 0x1_0000
    } else if size == 4 {
        data % 0x1_0000_0000
    } else {
        data % 0x1_0000_0000_0000_0000
    }
}

/// Reads the low `size` bytes of `data` as a two's complement number.
fn sign_extend(data: u128, size: u8) -> (r: i128)
    requires
        width_modulus(size) > 0,
    ensures
        r == signed_value(data, size),
{
    if size == 16 {
        proof {
            vstd::arithmetic::div_mod::lemma_small_mod(data as nat, (u128::MAX + 1) as nat);
        }
        if data < 0x8000_0000_0000_0000_0000_0000_0000_0000 {
            data as i128
        } else {
            let high: u128 = data - 0x8000_0000_0000_0000_0000_0000_0000_0000;
            high as i128 + i128::MIN
        }
    } else {
        let low = low_bytes(data, size);
        let half: u128 = if size == 1 {
            0x80
        } else if size == 2 {
            0x8000
        } else if size == 4 {
            0x8000_0000
        } else {
            0x8000_0000_0000_0000
        };
        if low < half {
            low as i128
        } else {
            low as i128 - half as i128 - half as i128
        }
    }
}

/// Attempts to read the given constant as though it were an enum value.
pub fn read_explicit_enum_value(tcx: &TyCtxt, id: DefId) -> (r: Option<EnumValue>)
    ensures
        r == explicit_value(tcx, id),
{
    let x = match tcx.get_def(id) {
        Some(x) => x,
        None => { return None; },
    };
    let (v, t) = match (x.const_value, x.type_of) {
        (Some(v), Some(t)) => (v, t),
        _ => { return None; },
    };
    let d = match tcx.get(t) {
        Some(d) => d,
        None => { return None; },
    };
    let known = v.size == 1 || v.size == 2 || v.size == 4 || v.size == 8 || v.size == 16;
    match &d.kind {
        TyKind::Int(_) => if known {
            Some(EnumValue::Signed(sign_extend(v.data, v.size)))
        } else {
            None
        },
        TyKind::Uint(_) => if known {
            if v.size == 16 {
                proof {
                    vstd::arithmetic::div_mod::lemma_small_mod(
                        v.data as nat,
                        (u128::MAX + 1) as nat,
                    );
                }
                Some(EnumValue::Unsigned(v.data))
            } else {
                Some(EnumValue::Unsigned(low_bytes(v.data, v.size)))
            }
        } else {
            None
        },
        _ => None,
    }
}

/// Whether the discriminant of variant `i` of `adt` can be resolved: the
/// variant exists; an explicit discriminant can be read; a relative one
/// counts from a variant of the enum, and where that one is explicit its
/// value can be read and the offset added to it.
pub open spec fn discriminant_resolves(tcx: &TyCtxt, adt: &AdtDef, i: usize) -> bool {
    i < adt.variants.len() && match adt.variants[i as int].discr {
        VariantDiscr::Explicit(id) => explicit_value(tcx, id).is_some(),
        VariantDiscr::Relative(x) => x <= i && match adt.variants[i - x].discr {
            VariantDiscr::Explicit(id) => explicit_value(tcx, id) matches Some(v) && v.can_add(x),
            VariantDiscr::Relative(_) => true,
        },
    }
}

/// The number `x` as a value of the enum `adt`: signed where the declared
/// representation of the enum is, unsigned where it is not.
pub open spec fn counted_from_start(adt: &AdtDef, x: u32) -> EnumValue {
    if adt.repr_signed {
        EnumValue::Signed(x as i128)
    } else {
        EnumValue::Unsigned(x as u128)
    }
}

/// The number `x` as a value of the enum `adt`.
fn count_from_start(adt: &AdtDef, x: u32) -> (r: EnumValue)
    ensures
        r == counted_from_start(adt, x),
        r.as_int() == x,
        (r is Signed) == adt.repr_signed,
{
    if adt.repr_signed {
        EnumValue::Signed(x as i128)
    } else {
        EnumValue::Unsigned(x as u128)
    }
}

/// The value of variant `i` of `adt`: its explicit value, or its offset
/// added to the explicit value of the variant it counts from, or, where it
/// counts from the start, the offset itself in the signedness of the
/// enum's declared representation.
pub open spec fn discriminant(tcx: &TyCtxt, adt: &AdtDef, i: usize) -> EnumValue
    recommends
        discriminant_resolves(tcx, adt, i),
{
    match adt.variants[i as int].discr {
        VariantDiscr::Explicit(id) => explicit_value(tcx, id).unwrap(),
        VariantDiscr::Relative(x) => match adt.variants[i - x].discr {
            VariantDiscr::Explicit(id) => explicit_value(tcx, id).unwrap().add_spec(x),
            VariantDiscr::Relative(_) => counted_from_start(adt, x),
        },
    }
}

/// Gets the value of the given variant.
pub fn get_discriminant_value(tcx: &TyCtxt, adt: &AdtDef, i: usize) -> (r: EnumValue)
    requires
        discriminant_resolves(tcx, adt, i),
    ensures
        r == discriminant(tcx, adt, i),
{
    match adt.variants[i].discr {
        VariantDiscr::Explicit(id) => read_explicit_enum_value(tcx, id).unwrap(),
        VariantDiscr::Relative(x) => match adt.variants[i - x as usize].discr {
            VariantDiscr::Explicit(id) => read_explicit_enum_value(tcx, id).unwrap().add(x),
            VariantDiscr::Relative(_) => count_from_start(adt, x),
        },
    }
}

/// Gets the value of the given variant where it can be resolved.
pub fn try_get_discriminant_value(tcx: &TyCtxt, adt: &AdtDef, i: usize) -> (r: Option<EnumValue>)
    ensures
        r == if discriminant_resolves(tcx, adt, i) {
            Some(discriminant(tcx, adt, i))
        } else {
            None
        },
{
    if i >= adt.variants.len() {
        return None;
    }
    match adt.variants[i].discr {
        VariantDiscr::Explicit(id) => read_explicit_enum_value(tcx, id),
        VariantDiscr::Relative(x) => {
            if x as usize > i {
                return None;
            }
            match adt.variants[i - x as usize].discr {
                VariantDiscr::Explicit(id) => match read_explicit_enum_value(tcx, id) {
                    Some(EnumValue::Unsigned(v)) => if v <= u128::MAX - x as u128 {
                        Some(EnumValue::Unsigned(v).add(x))
                    } else {
                        None
                    },
                    Some(EnumValue::Signed(v)) => if v <= i128::MAX - x as i128 {
                        Some(EnumValue::Signed(v).add(x))
                    } else {
                        None
                    },
                    None => None,
                },
                VariantDiscr::Relative(_) => Some(count_from_start(adt, x)),
            }
        },
    }
}

/// A relative variant resolves to the value of the explicit variant that it
/// counts from plus its offset, in that variant's signedness.
pub proof fn lemma_relative_discriminant(tcx: &TyCtxt, adt: &AdtDef, i: usize, x: u32)
    requires
        discriminant_resolves(tcx, adt, i),
        adt.variants[i as int].discr == VariantDiscr::Relative(x),
        adt.variants[i - x].discr is Explicit,
    ensures
        discriminant_resolves(tcx, adt, (i - x) as usize),
        discriminant(tcx, adt, i).as_int() == discriminant(tcx, adt, (i - x) as usize).as_int()
            + x,
        (discriminant(tcx, adt, i) is Signed) == (discriminant(tcx, adt, (i - x) as usize) is Signed),
{
}

/// Of two neighbouring variants that count from the same variant, the
/// second resolves to one more than the first.
pub proof fn lemma_discriminant_step(tcx: &TyCtxt, adt: &AdtDef, i: usize, x: u32)
    requires
        i + 1 < adt.variants.len(),
        x < u32::MAX,
        adt.variants[i as int].discr == VariantDiscr::Relative(x),
        adt.variants[i + 1].discr == VariantDiscr::Relative((x + 1) as u32),
        discriminant_resolves(tcx, adt, (i + 1) as usize),
    ensures
        discriminant_resolves(tcx, adt, i),
        discriminant(tcx, adt, (i + 1) as usize).as_int() == discriminant(tcx, adt, i).as_int()
            + 1,
{
}

/// The variant after an explicit one, counting one from it, resolves to one
/// more than the explicit value.
pub proof fn lemma_discriminant_after_explicit(tcx: &TyCtxt, adt: &AdtDef, i: usize)
    requires
        i + 1 < adt.variants.len(),
        adt.variants[i as int].discr is Explicit,
        adt.variants[i + 1].discr == VariantDiscr::Relative(1),
        discriminant_resolves(tcx, adt, (i + 1) as usize),
    ensures
        discriminant_resolves(tcx, adt, i),
        discriminant(tcx, adt, (i + 1) as usize).as_int() == discriminant(tcx, adt, i).as_int()
            + 1,
{
}

/// A variant that counts from the start of an enum resolves to its offset,
/// signed exactly where the declared representation of the enum is.
pub proof fn lemma_discriminant_from_start(tcx: &TyCtxt, adt: &AdtDef, i: usize, x: u32)
    requires
        discriminant_resolves(tcx, adt, i),
        adt.variants[i as int].discr == VariantDiscr::Relative(x),
        adt.variants[i - x].discr is Relative,
    ensures
        discriminant(tcx, adt, i).as_int() == x,
        (discriminant(tcx, adt, i) is Signed) == adt.repr_signed,
{
}

} // verus!
