use vstd::prelude::*;

use crate::error::DecodeError;
use crate::error::Malformation;

verus! {

/// <https://webassembly.github.io/spec/core/syntax/types.html#number-types>
#[derive(Clone, Copy, Debug, PartialEq, Eq, Structural)]
pub enum NumType {
    I32,
    I64,
    F32,
    F64,
}

/// <https://webassembly.github.io/spec/core/syntax/types.html#reference-types>
#[derive(Clone, Copy, Debug, PartialEq, Eq, Structural)]
pub enum RefType {
    FuncRef,
    ExternRef,
}

/// <https://webassembly.github.io/spec/core/syntax/types.html#value-types>
#[derive(Clone, Copy, Debug, PartialEq, Eq, Structural)]
pub enum ValType {
    Number(NumType),
    Ref(RefType),
    /// <https://webassembly.github.io/spec/core/syntax/types.html#vector-types>
    Vec,
}

/// <https://webassembly.github.io/spec/core/syntax/types.html#result-types>
#[derive(Debug, PartialEq, Eq)]
pub struct ResultType(pub Vec<ValType>);

/// <https://webassembly.github.io/spec/core/syntax/types.html#function-types>
#[derive(Debug, PartialEq, Eq)]
pub struct FuncType(pub ResultType, pub ResultType);

/// The fixed table from a value-type byte to its variant; bytes outside the
/// table map to `None`.
pub open spec fn val_type_of(b: u8) -> Option<ValType> {
    if b == 0x7F {
        Some(ValType::Number(NumType::I32))
    } else if b == 0x7E {
        Some(ValType::Number(NumType::I64))
    } else if b == 0x7D {
        Some(ValType::Number(NumType::F32))
    } else if b == 0x7C {
        Some(ValType::Number(NumType::F64))
    } else if b == 0x7B {
        Some(ValType::Vec)
    } else if b == 0x70 {
        Some(ValType::Ref(RefType::FuncRef))
    } else if b == 0x6F {
        Some(ValType::Ref(RefType::ExternRef))
    } else {
        None
    }
}

/// The value types named by a run of bytes, one per byte; decoding stops at
/// the first byte outside the table and reports it.
pub open spec fn val_types_of(bytes: Seq<u8>) -> Result<Seq<ValType>, DecodeError>
    decreases bytes.len(),
{
    if bytes.len() == 0 {
        Ok(Seq::empty())
    } else {
        match val_type_of(bytes[0]) {
            None => Err(DecodeError::Malformed(Malformation::UnknownValType(bytes[0]))),
            Some(v) => match val_types_of(bytes.skip(1)) {
                Err(e) => Err(e),
                Ok(r) => Ok(seq![v] + r),
            },
        }
    }
}

impl ValType {
    /// Decode one value-type byte.
    pub fn try_from(value: u8) -> (r: Result<ValType, DecodeError>)
        ensures
            val_type_of(value) matches Some(v) ==> r == Ok::<ValType, DecodeError>(v),
            val_type_of(value) is None ==> r == Err::<ValType, DecodeError>(
                DecodeError::Malformed(Malformation::UnknownValType(value)),
            ),
    {
        match value {
            0x7F => Ok(ValType::Number(NumType::I32)),
            0x7E => Ok(ValType::Number(NumType::I64)),
            0x7D => Ok(ValType::Number(NumType::F32)),
            0x7C => Ok(ValType::Number(NumType::F64)),
            0x7B => Ok(ValType::Vec),
            0x70 => Ok(ValType::Ref(RefType::FuncRef)),
            0x6F => Ok(ValType::Ref(RefType::ExternRef)),
            _ => Err(DecodeError::Malformed(Malformation::UnknownValType(value))),
        }
    }
}

impl ResultType {
    /// Decode a list of value-type bytes, one value type per byte.
    /// Succeeds exactly when every byte is in the value-type table; otherwise
    /// reports the first byte outside it.
    pub fn try_from(value: Vec<u8>) -> (r: Result<ResultType, DecodeError>)
        ensures
            val_types_of(value@) matches Ok(vs) ==> r matches Ok(rt) && rt.0@ == vs,
            val_types_of(value@) matches Err(e) ==> r == Err::<ResultType, DecodeError>(e),
    {
        let ghost s = value@;
        proof {
            assert(s.skip(0) =~= s);
            match val_types_of(s) {
                Ok(rest) => {
                    assert(Seq::<ValType>::empty() + rest =~= rest);
                },
                Err(_) => {},
            }
        }
        let mut out: Vec<ValType> = Vec::new();
        let mut i: usize = 0;
        while i < value.len()
            invariant
                0 <= i <= s.len(),
                value@ == s,
                out@.len() == i,
                val_types_of(s.skip(i as int)) matches Ok(rest) ==> val_types_of(s) == Ok::<
                    Seq<ValType>,
                    DecodeError,
                >(out@ + rest),
                val_types_of(s.skip(i as int)) matches Err(e) ==> val_types_of(s) == Err::<
                    Seq<ValType>,
                    DecodeError,
                >(e),
            decreases s.len() - i,
        {
            proof {
                assert(s.skip(i as int)[0] == s[i as int]);
                assert(s.skip(i as int).skip(1) =~= s.skip(i as int + 1));
            }
            match ValType::try_from(value[i]) {
                Ok(v) => {
                    let ghost out0 = out@;
                    out.push(v);
                    proof {
                        match val_types_of(s.skip(i as int + 1)) {
                            Ok(rest) => {
                                assert(out0 + (seq![v] + rest) =~= out@ + rest);
                            },
                            Err(_) => {},
                        }
                    }
                },
                Err(e) => {
                    return Err(e);
                },
            }
            i = i + 1;
        }
        proof {
            assert(s.skip(i as int).len() == 0);
            assert(out@ + Seq::<ValType>::empty() =~= out@);
        }
        Ok(ResultType(out))
    }
}

} // verus!
