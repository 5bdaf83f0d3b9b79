//! Declarations of dynamic parameters: fields whose concrete type is
//! chosen by a one-byte tag from a fixed, per-declaration set.
use vstd::prelude::*;
use crate::value::FieldType;

verus! {

/// The dynamic-parameter declarations known to the codec.
#[derive(Clone, Copy, Debug, PartialEq, Eq, Structural)]
pub enum DynKind {
    /// The value of a socket option (`setsockopt`/`getsockopt`).
    Sockopt,
    /// An address or data argument of `ptrace`.
    Ptrace,
}

/// The type that tag `tag` selects in declaration `k`, if `tag` is declared.
pub open spec fn dyn_variant(k: DynKind, tag: u8) -> Option<FieldType> {
    match k {
        DynKind::Sockopt => if tag == 0 {
            Some(FieldType::ByteBuf)
        } else if tag == 1 {
            Some(FieldType::I64)
        } else if tag == 2 {
            Some(FieldType::U32)
        } else if tag == 3 {
            Some(FieldType::U64)
        } else if tag == 4 {
            Some(FieldType::RelTime)
        } else {
            None
        },
        DynKind::Ptrace => if tag == 0 {
            Some(FieldType::U64)
        } else if tag == 1 {
            Some(FieldType::U8)
        } else {
            None
        },
    }
}

/// The type that tag `tag` selects in declaration `k`.
pub fn dyn_variant_type(k: DynKind, tag: u8) -> (r: Option<FieldType>)
    ensures
        r == dyn_variant(k, tag),
{
    match k {
        DynKind::Sockopt => if tag == 0 {
            Some(FieldType::ByteBuf)
        } else if tag == 1 {
            Some(FieldType::I64)
        } else if tag == 2 {
            Some(FieldType::U32)
        } else if tag == 3 {
            Some(FieldType::U64)
        } else if tag == 4 {
            Some(FieldType::RelTime)
        } else {
            None
        },
        DynKind::Ptrace => if tag == 0 {
            Some(FieldType::U64)
        } else if tag == 1 {
            Some(FieldType::U8)
        } else {
            None
        },
    }
}

/// The short name of a tag.
pub open spec fn dyn_name(k: DynKind, tag: u8) -> Seq<char> {
    match k {
        DynKind::Sockopt => if tag == 0 {
            "UNKNOWN"@
        } else if tag == 1 {
            "ERRNO"@
        } else if tag == 2 {
            "UINT32"@
        } else if tag == 3 {
            "UINT64"@
        } else {
            "TIMEVAL"@
        },
        DynKind::Ptrace => if tag == 0 {
            "UINT64"@
        } else {
            "SIGTYPE"@
        },
    }
}

/// The short name of a tag, as rendered before the value (`ERRNO:...`).
pub fn dyn_variant_name(k: DynKind, tag: u8) -> (r: &'static str)
    requires
        dyn_variant(k, tag) is Some,
    ensures
        r@ == dyn_name(k, tag),
{
    match k {
        DynKind::Sockopt => if tag == 0 {
            "UNKNOWN"
        } else if tag == 1 {
            "ERRNO"
        } else if tag == 2 {
            "UINT32"
        } else if tag == 3 {
            "UINT64"
        } else {
            "TIMEVAL"
        },
        DynKind::Ptrace => if tag == 0 {
            "UINT64"
        } else {
            "SIGTYPE"
        },
    }
}

} // verus!
