//! Reading committed operations: each operation is its code, then its
//! fields as the schema lists them, padded to a multiple of twelve bytes.

use vstd::prelude::*;
use vstd::arithmetic::power::pow;
use crate::bytes::{le_value, slice};
use crate::converter::{spec_to_tx, to_tx};
use crate::error::Error;
use crate::scalar::{modulus, Scalar};
use crate::tx::Tx;

verus! {

/// The bytes that a chunk of committed data has.
pub const CHUNK: usize = 12;

/// One field of an operation: its name, its width in bytes, and whether it
/// is an amount in floating point.
#[derive(Clone, Debug)]
pub struct Param {
    pub symbol: String,
    pub len: usize,
    pub is_fixed: bool,
}

/// The operations by code: the name of each and its fields in order.
#[derive(Clone, Debug)]
pub struct Schema {
    pub ops: Vec<(String, Vec<Param>)>,
}

/// The amount that the floating-point number in the low 40 bits of `x`
/// stands for: five bits of decimal exponent above 35 bits of mantissa.
pub open spec fn spec_float2fix(x: nat) -> nat {
    let low = x % 0x1_0000_0000_0000_0000;
    ((low % 0x8_0000_0000) * pow(10, (low / 0x8_0000_0000) as nat)) as nat % modulus()
}

/// The amount that the floating-point number in the low bits of `x` stands for.
pub fn float2fix(x: Scalar) -> (r: Scalar)
    ensures
        r@ == spec_float2fix(x@),
{
    let low: u64 = x.low_u64();
    let exp: u64 = low / 0x8_0000_0000;
    let mantissa: u64 = low % 0x8_0000_0000;
    let scale: Scalar = Scalar::from_u64(10).pow(exp);
    proof {
        vstd::arithmetic::power::lemma_pow_positive(10, exp as nat);
        vstd::arithmetic::div_mod::lemma_mul_mod_noop_right(
            mantissa as int,
            pow(10, exp as nat),
            modulus() as int,
        );
        assert(mantissa * pow(10, exp as nat) >= 0) by (nonlinear_arith)
            requires
                mantissa >= 0,
                pow(10, exp as nat) > 0,
        ;
    }
    Scalar::from_u64(mantissa).mul(&scale)
}

/// The value of a field of the width and kind of `param` that lies in `bytes`.
pub open spec fn spec_field(param: Param, bytes: Seq<u8>) -> Scalar {
    let raw = Scalar::spec_new(le_value(bytes.reverse()) % modulus());
    if param.is_fixed {
        Scalar::spec_new(spec_float2fix(raw@))
    } else {
        raw
    }
}

/// The fields `params[k ..]` read from `data` at `ptr` on, behind the fields
/// `sofar`, and where the last one ends; nothing where the data ends early.
pub open spec fn spec_fields(
    params: Seq<Param>,
    data: Seq<u8>,
    k: nat,
    ptr: nat,
    sofar: Seq<(String, Scalar)>,
) -> Option<(Seq<(String, Scalar)>, nat)>
    decreases params.len() - k,
{
    if k >= params.len() {
        Some((sofar, ptr))
    } else if ptr + params[k as int].len > data.len() {
        None
    } else {
        let value = spec_field(
            params[k as int],
            data.subrange(ptr as int, ptr + params[k as int].len),
        );
        spec_fields(
            params,
            data,
            k + 1,
            (ptr + params[k as int].len) as nat,
            sofar.push((params[k as int].symbol, value)),
        )
    }
}

/// `n` raised to the next multiple of twelve.
pub open spec fn spec_aligned(n: nat) -> nat {
    if n % 12 == 0 {
        n
    } else {
        (n + 12 - n % 12) as nat
    }
}

/// The width in bytes that `widths` gives the kind of field `kind`: the last
/// one, where the kind stands more than once.
pub open spec fn spec_width(widths: Seq<(String, usize)>, kind: Seq<char>) -> Option<usize>
    decreases widths.len(),
{
    if widths.len() == 0 {
        None
    } else if widths.last().0@ == kind {
        Some(widths.last().1)
    } else {
        spec_width(widths.drop_last(), kind)
    }
}

/// The width in bytes that `widths` gives the kind of field `kind`.
pub fn width(widths: &Vec<(String, usize)>, kind: &String) -> (r: Option<usize>)
    ensures
        r == spec_width(widths@, kind@),
{
    let mut i: usize = widths.len();
    proof {
        assert(widths@.subrange(0, widths@.len() as int) =~= widths@);
    }
    while i > 0
        invariant
            i <= widths@.len(),
            spec_width(widths@, kind@) == spec_width(widths@.subrange(0, i as int), kind@),
        decreases i,
    {
        i -= 1;
        proof {
            let upto = widths@.subrange(0, i + 1);
            assert(upto.last() == widths@[i as int]);
            assert(upto.drop_last() =~= widths@.subrange(0, i as int));
        }
        if widths[i].0 == *kind {
            return Some(widths[i].1);
        }
    }
    proof {
        assert(widths@.subrange(0, 0) =~= Seq::<(String, usize)>::empty());
    }
    None
}

/// Whether fields of the kind `kind` hold an amount in floating point.
pub open spec fn spec_is_fixed(kind: Seq<char>) -> bool {
    kind == "tx_amount"@ || kind == "tx_ratio"@
}

/// Whether `param` is the field that is declared with the kind `declared.0`
/// and the name `declared.1`, the widths of the kinds being `widths`.
pub open spec fn describes(widths: Seq<(String, usize)>, declared: (String, String), param: Param) -> bool {
    &&& param.symbol@ == declared.1@
    &&& spec_width(widths, declared.0@) == Some(param.len)
    &&& param.is_fixed == spec_is_fixed(declared.0@)
}

/// The fields that are declared by `declared`, each with its kind and its
/// name, or nothing where a kind has no width.
pub fn build_params(widths: &Vec<(String, usize)>, declared: &Vec<(String, String)>) -> (r: Option<
    Vec<Param>,
>)
    ensures
        r is Some <==> forall|f: int|
            0 <= f < declared@.len() ==> spec_width(widths@, (#[trigger] declared@[f]).0@) is Some,
        r is Some ==> r->0@.len() == declared@.len() && forall|f: int|
            0 <= f < declared@.len() ==> describes(widths@, declared@[f], #[trigger] r->0@[f]),
{
    let amount: String = String::from_str("tx_amount");
    let ratio: String = String::from_str("tx_ratio");
    let mut params: Vec<Param> = Vec::new();
    let mut f: usize = 0;
    while f < declared.len()
        invariant
            f <= declared@.len(),
            amount@ == "tx_amount"@,
            ratio@ == "tx_ratio"@,
            params@.len() == f,
            forall|g: int| 0 <= g < f ==> spec_width(widths@, (#[trigger] declared@[g]).0@) is Some,
            forall|g: int| 0 <= g < f ==> describes(widths@, declared@[g], #[trigger] params@[g]),
        decreases declared@.len() - f,
    {
        let len: usize = match width(widths, &declared[f].0) {
            Some(len) => len,
            None => {
                return None;
            },
        };
        let is_fixed: bool = declared[f].0 == amount || declared[f].0 == ratio;
        params.push(Param { symbol: declared[f].1.clone(), len, is_fixed });
        f += 1;
    }
    Some(params)
}


impl Schema {
    /// The operations that `transactions` declares, each with its name and
    /// its fields by kind and name, the widths of the kinds being `widths`;
    /// `InvalidOp` where a kind has no width.
    pub fn build(widths: &Vec<(String, usize)>, transactions: &Vec<(String, Vec<(String, String)>)>) -> (r:
        Result<Schema, Error>)
        ensures
            r is Ok <==> forall|t: int, f: int|
                0 <= t < transactions@.len() && 0 <= f < transactions@[t].1@.len() ==> spec_width(
                    widths@,
                    (#[trigger] transactions@[t].1@[f]).0@,
                ) is Some,
            r is Ok ==> r->Ok_0.ops@.len() == transactions@.len() && forall|t: int|
                0 <= t < transactions@.len() ==> {
                    let op = #[trigger] r->Ok_0.ops@[t];
                    &&& op.0@ == transactions@[t].0@
                    &&& op.1@.len() == transactions@[t].1@.len()
                    &&& forall|f: int|
                        0 <= f < op.1@.len() ==> describes(
                            widths@,
                            transactions@[t].1@[f],
                            #[trigger] op.1@[f],
                        )
                },
            r is Err ==> r->Err_0 == Error::InvalidOp,
    {
        let mut ops: Vec<(String, Vec<Param>)> = Vec::new();
        let mut t: usize = 0;
        while t < transactions.len()
            invariant
                t <= transactions@.len(),
                ops@.len() == t,
                forall|u: int, f: int|
                    0 <= u < t && 0 <= f < transactions@[u].1@.len() ==> spec_width(
                        widths@,
                        (#[trigger] transactions@[u].1@[f]).0@,
                    ) is Some,
                forall|u: int|
                    0 <= u < t ==> {
                        let op = #[trigger] ops@[u];
                        &&& op.0@ == transactions@[u].0@
                        &&& op.1@.len() == transactions@[u].1@.len()
                        &&& forall|f: int|
                            0 <= f < op.1@.len() ==> describes(
                                widths@,
                                transactions@[u].1@[f],
                                #[trigger] op.1@[f],
                            )
                    },
            decreases transactions@.len() - t,
        {
            let params: Vec<Param> = match build_params(widths, &transactions[t].1) {
                Some(params) => params,
                None => {
                    return Err(Error::InvalidOp);
                },
            };
            ops.push((transactions[t].0.clone(), params));
            t += 1;
        }
        Ok(Schema { ops })
    }


    /// The operation that stands in `data` at `at`, and where the next one
    /// starts; `InvalidOp` where the code names no operation, the data ends
    /// before the operation does, or its fields make no transaction.
    pub open spec fn spec_parse(&self, data: Seq<u8>, at: nat) -> Result<(Tx, usize), Error> {
        if at >= data.len() || data[at as int] >= self.ops@.len() {
            Err(Error::InvalidOp)
        } else {
            let op = self.ops@[data[at as int] as int];
            match spec_fields(op.1@, data, 0, at, Seq::empty()) {
                None => Err(Error::InvalidOp),
                Some((fields, end)) => {
                    let next = at + spec_aligned((end - at) as nat);
                    if next > data.len() {
                        Err(Error::InvalidOp)
                    } else {
                        match spec_to_tx(op.0@, fields) {
                            Ok(tx) => Ok((tx, next as usize)),
                            Err(e) => Err(e),
                        }
                    }
                },
            }
        }
    }

    /// The operation that stands in `data` at `at`, and where the next one starts.
    pub fn parse(&self, data: &Vec<u8>, at: usize) -> (r: Result<(Tx, usize), Error>)
        ensures
            r == self.spec_parse(data@, at as nat),
    {
        if at >= data.len() {
            return Err(Error::InvalidOp);
        }
        let code: usize = data[at] as usize;
        if code >= self.ops.len() {
            return Err(Error::InvalidOp);
        }
        let params: &Vec<Param> = &self.ops[code].1;
        let mut fields: Vec<(String, Scalar)> = Vec::new();
        let mut ptr: usize = at;
        let mut k: usize = 0;
        while k < params.len()
            invariant
                k <= params@.len(),
                at <= ptr <= data@.len(),
                at < data@.len(),
                code == data@[at as int],
                code < self.ops@.len(),
                params@ == self.ops@[code as int].1@,
                spec_fields(params@, data@, 0, at as nat, Seq::empty()) == spec_fields(
                    params@,
                    data@,
                    k as nat,
                    ptr as nat,
                    fields@,
                ),
            decreases params@.len() - k,
        {
            let len: usize = params[k].len;
            if len > data.len() - ptr {
                return Err(Error::InvalidOp);
            }
            let bytes = slice(data, ptr, ptr + len);
            let raw: Scalar = Scalar::from_be_bytes_mod_order(&bytes);
            raw.check_reduced_spec();
            let value: Scalar = if params[k].is_fixed {
                let fixed = float2fix(raw);
                fixed.check_reduced_spec();
                fixed
            } else {
                raw
            };
            fields.push((params[k].symbol.clone(), value));
            ptr = ptr + len;
            k += 1;
        }
        let used: usize = ptr - at;
        let pad: usize = if used % CHUNK == 0 {
            0
        } else {
            CHUNK - used % CHUNK
        };
        if pad > data.len() - ptr {
            return Err(Error::InvalidOp);
        }
        let aligned: usize = used + pad;
        match to_tx(&self.ops[code].0, &fields) {
            Ok(tx) => Ok((tx, at + aligned)),
            Err(e) => Err(e),
        }
    }
}

} // verus!
