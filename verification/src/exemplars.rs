//! The exemplar record: a small self-describing JSON object stored inside
//! a fixed-size, zero-padded slot, so a stream of exemplars can be scanned
//! at a fixed stride.
//!
//! The object holds one label pair, the value and a timestamp, in the
//! fixed field order the writers emit:
//! `{"label_name":...,"label_value":...,"value":...,"timestamp":...}`.
//! The two strings follow the escape-free string grammar of the metric
//! text; the timestamp is a plain run of decimal digits.

use vstd::prelude::*;

use crate::error::MmapError;
use crate::metric_text::{
    has_word, is_digit, parse_number, parse_string, scan_digits, spec_has_word, spec_parse_number,
    spec_parse_string, spec_scan_digits,
};
use crate::value::{f64_parse, value_parse};

verus! {

/// Byte size of one exemplar slot: 512 bytes reserved for the label pair
/// (128 code points at up to four bytes each), eight for the value and
/// eight for the timestamp.
pub const EXEMPLAR_ENTRY_MAX_SIZE_BYTES: usize = 528;

/// One exemplar: a label pair, the value's bit pattern, and a timestamp.
#[derive(PartialEq, Eq, Clone, Debug)]
pub struct Exemplar {
    pub label_name: Vec<u8>,
    pub label_value: Vec<u8>,
    pub value: u64,
    pub timestamp: u128,
}

/// The mathematical content of an exemplar.
pub struct ExemplarView {
    pub label_name: Seq<u8>,
    pub label_value: Seq<u8>,
    pub value: u64,
    pub timestamp: int,
}

impl Exemplar {
    /// The mathematical content.
    pub open spec fn view_spec(self) -> ExemplarView {
        ExemplarView {
            label_name: self.label_name@,
            label_value: self.label_value@,
            value: self.value,
            timestamp: self.timestamp as int,
        }
    }
}

/// The value of a run of decimal digits, most significant first.
pub open spec fn spec_digits_val(ds: Seq<u8>) -> int
    decreases ds.len(),
{
    if ds.len() == 0 {
        0
    } else {
        spec_digits_val(ds.drop_last()) * 10 + (ds.last() - 0x30)
    }
}

/// A digit run's value is non-negative and no smaller than any prefix's.
proof fn lemma_digits_val_prefix(ds: Seq<u8>, k: int)
    requires
        0 <= k <= ds.len(),
        forall|j: int| 0 <= j < ds.len() ==> is_digit(#[trigger] ds[j]),
    ensures
        0 <= spec_digits_val(ds.take(k)) <= spec_digits_val(ds),
    decreases ds.len() - k,
{
    if k == ds.len() {
        assert(ds.take(k) =~= ds);
        lemma_digits_val_nonneg(ds);
    } else {
        lemma_digits_val_prefix(ds, k + 1);
        assert(ds.take(k + 1).drop_last() =~= ds.take(k));
        assert forall|j: int| 0 <= j < ds.take(k).len() implies is_digit(
            #[trigger] ds.take(k)[j],
        ) by {
            assert(ds.take(k)[j] == ds[j]);
        }
        lemma_digits_val_nonneg(ds.take(k));
    }
}

/// A digit run's value is non-negative.
proof fn lemma_digits_val_nonneg(ds: Seq<u8>)
    requires
        forall|j: int| 0 <= j < ds.len() ==> is_digit(#[trigger] ds[j]),
    ensures
        0 <= spec_digits_val(ds),
    decreases ds.len(),
{
    if ds.len() != 0 {
        assert forall|j: int| 0 <= j < ds.drop_last().len() implies is_digit(
            #[trigger] ds.drop_last()[j],
        ) by {
            assert(ds.drop_last()[j] == ds[j]);
        }
        lemma_digits_val_nonneg(ds.drop_last());
    }
}

/// The bytes of `{"label_name":`.
pub open spec fn label_name_key() -> Seq<u8> {
    seq![
        123u8,
        34u8,
        108u8,
        97u8,
        98u8,
        101u8,
        108u8,
        95u8,
        110u8,
        97u8,
        109u8,
        101u8,
        34u8,
        58u8,
    ]
}

/// The bytes of `,"label_value":`.
pub open spec fn label_value_key() -> Seq<u8> {
    seq![
        44u8,
        34u8,
        108u8,
        97u8,
        98u8,
        101u8,
        108u8,
        95u8,
        118u8,
        97u8,
        108u8,
        117u8,
        101u8,
        34u8,
        58u8,
    ]
}

/// The bytes of `,"value":`.
pub open spec fn value_key() -> Seq<u8> {
    seq![44u8, 34u8, 118u8, 97u8, 108u8, 117u8, 101u8, 34u8, 58u8]
}

/// The bytes of `,"timestamp":`.
pub open spec fn timestamp_key() -> Seq<u8> {
    seq![
        44u8,
        34u8,
        116u8,
        105u8,
        109u8,
        101u8,
        115u8,
        116u8,
        97u8,
        109u8,
        112u8,
        34u8,
        58u8,
    ]
}

/// The parsed fields of an exemplar object, or `None` where the bytes do
/// not follow the layout: the four keys in order, two strings, a number
/// whose text is a decimal rendering, a digit-run timestamp that fits in
/// 128 bits, and the closing brace ending the input.
pub open spec fn spec_parse_exemplar(s: Seq<u8>) -> Option<ExemplarView> {
    if !spec_has_word(s, 0, label_name_key()) {
        None
    } else {
        match spec_parse_string(s, label_name_key().len() as int) {
            None => None,
            Some((name, i1)) => {
                if !spec_has_word(s, i1, label_value_key()) {
                    None
                } else {
                    match spec_parse_string(s, i1 + label_value_key().len()) {
                        None => None,
                        Some((val, i2)) => {
                            if !spec_has_word(s, i2, value_key()) {
                                None
                            } else {
                                let n0 = i2 + value_key().len();
                                match spec_parse_number(s, n0 as int) {
                                    None => None,
                                    Some(n1) => {
                                        let bits = f64_parse(s.subrange(n0 as int, n1));
                                        if bits is None || !spec_has_word(
                                            s,
                                            n1,
                                            timestamp_key(),
                                        ) {
                                            None
                                        } else {
                                            let d0 = n1 + timestamp_key().len();
                                            let d1 = spec_scan_digits(s, d0 as int);
                                            if d1 == d0 || spec_digits_val(
                                                s.subrange(d0 as int, d1),
                                            ) > u128::MAX || !(d1 == s.len() - 1 && s[d1]
                                                == 125) {
                                                None
                                            } else {
                                                Some(
                                                    ExemplarView {
                                                        label_name: name,
                                                        label_value: val,
                                                        value: bits->Some_0,
                                                        timestamp: spec_digits_val(
                                                            s.subrange(d0 as int, d1),
                                                        ),
                                                    },
                                                )
                                            }
                                        }
                                    },
                                }
                            }
                        },
                    }
                }
            },
        }
    }
}

/// The value of a run of decimal digits, or `None` where it exceeds 128
/// bits.
fn digits_to_u128(ds: &[u8]) -> (r: Option<u128>)
    requires
        forall|j: int| 0 <= j < ds@.len() ==> is_digit(#[trigger] ds@[j]),
    ensures
        r is Some <==> spec_digits_val(ds@) <= u128::MAX,
        r matches Some(v) ==> v == spec_digits_val(ds@),
{
    let n = ds.len();
    let mut acc: u128 = 0;
    let mut k: usize = 0;
    proof {
        assert(ds@.take(0) =~= Seq::<u8>::empty());
    }
    while k < n
        invariant
            n == ds@.len(),
            0 <= k <= n,
            forall|j: int| 0 <= j < ds@.len() ==> is_digit(#[trigger] ds@[j]),
            acc == spec_digits_val(ds@.take(k as int)),
        decreases n - k,
    {
        let d = *vstd::slice::slice_index_get(ds, k);
        proof {
            assert(ds@.take(k + 1).drop_last() =~= ds@.take(k as int));
            assert(ds@.take(k + 1).last() == ds@[k as int]);
        }
        if acc > (u128::MAX - (d - 0x30) as u128) / 10 {
            proof {
                lemma_digits_val_prefix(ds@, k + 1);
                assert(spec_digits_val(ds@.take(k + 1)) > u128::MAX) by {
                    vstd::arithmetic::div_mod::lemma_fundamental_div_mod(
                        u128::MAX - (d - 0x30) as u128,
                        10,
                    );
                }
            }
            return None;
        }
        acc = acc * 10 + (d - 0x30) as u128;
        k = k + 1;
    }
    proof {
        assert(ds@.take(n as int) =~= ds@);
    }
    Some(acc)
}

/// Parse one exemplar object.
pub fn parse_exemplar(s: &[u8]) -> (r: Option<Exemplar>)
    ensures
        r is Some <==> spec_parse_exemplar(s@) is Some,
        r matches Some(e) ==> spec_parse_exemplar(s@) == Some(e.view_spec()),
{
    let name_key: [u8; 14] = [123, 34, 108, 97, 98, 101, 108, 95, 110, 97, 109, 101, 34, 58];
    let val_key: [u8; 15] = [44, 34, 108, 97, 98, 101, 108, 95, 118, 97, 108, 117, 101, 34, 58];
    let value_word: [u8; 9] = [44, 34, 118, 97, 108, 117, 101, 34, 58];
    let ts_key: [u8; 13] = [44, 34, 116, 105, 109, 101, 115, 116, 97, 109, 112, 34, 58];
    proof {
        assert(name_key@ =~= label_name_key());
        assert(val_key@ =~= label_value_key());
        assert(value_word@ =~= value_key());
        assert(ts_key@ =~= timestamp_key());
    }

    let s_len = s.len();
    if !has_word(s, 0, name_key.as_slice()) {
        return None;
    }
    let (label_name, i1) = match parse_string(s, 14) {
        Some(p) => p,
        None => {
            return None;
        },
    };
    if !has_word(s, i1, val_key.as_slice()) {
        return None;
    }
    let (label_value, i2) = match parse_string(s, i1 + 15) {
        Some(p) => p,
        None => {
            return None;
        },
    };
    if !has_word(s, i2, value_word.as_slice()) {
        return None;
    }
    let n0 = i2 + 9;
    let n1 = match parse_number(s, n0) {
        Some(n1) => n1,
        None => {
            return None;
        },
    };
    let bits = match value_parse(vstd::slice::slice_subrange(s, n0, n1)) {
        Some(b) => b,
        None => {
            return None;
        },
    };
    if !has_word(s, n1, ts_key.as_slice()) {
        return None;
    }
    let d0 = n1 + 13;
    proof {
        crate::metric_text::lemma_scan_digits_range(s@, d0 as int);
    }
    let d1 = scan_digits(s, d0);
    if d1 == d0 {
        return None;
    }
    let timestamp = match digits_to_u128(vstd::slice::slice_subrange(s, d0, d1)) {
        Some(t) => t,
        None => {
            return None;
        },
    };
    if !(d1 == s.len() - 1 && *vstd::slice::slice_index_get(s, d1) == 125) {
        return None;
    }
    Some(Exemplar { label_name, label_value, value: bits, timestamp })
}

/// The slot's payload: every zero byte of the padding (and any stray ones)
/// dropped.
pub open spec fn spec_slot_payload(slot: Seq<u8>) -> Seq<u8> {
    slot.filter(|b: u8| b != 0)
}

/// Read the exemplar stored in the fixed-size slot at `offset`: the slot's
/// zero bytes are dropped and the rest parsed as one exemplar object.
pub fn read_exemplar(buf: &[u8], offset: usize) -> (r: Result<Exemplar, MmapError>)
    ensures
        r is Ok <==> offset + EXEMPLAR_ENTRY_MAX_SIZE_BYTES <= buf@.len() && spec_parse_exemplar(
            spec_slot_payload(
                buf@.subrange(offset as int, offset + EXEMPLAR_ENTRY_MAX_SIZE_BYTES),
            ),
        ) is Some,
        r matches Ok(e) ==> spec_parse_exemplar(
            spec_slot_payload(
                buf@.subrange(offset as int, offset + EXEMPLAR_ENTRY_MAX_SIZE_BYTES),
            ),
        ) == Some(e.view_spec()),
        r is Err ==> ({
            if offset + EXEMPLAR_ENTRY_MAX_SIZE_BYTES > buf@.len() {
                crate::error::is_oob_err(
                    r->Err_0,
                    offset + EXEMPLAR_ENTRY_MAX_SIZE_BYTES,
                    buf@.len() as int,
                )
            } else {
                r->Err_0 is PromParsing
            }
        }),
{
    if offset > buf.len() || buf.len() - offset < EXEMPLAR_ENTRY_MAX_SIZE_BYTES {
        return Err(
            MmapError::out_of_bounds_wide(
                offset as u128 + EXEMPLAR_ENTRY_MAX_SIZE_BYTES as u128,
                buf.len() as u128,
            ),
        );
    }

    let slot = vstd::slice::slice_subrange(buf, offset, offset + EXEMPLAR_ENTRY_MAX_SIZE_BYTES);
    let mut payload: Vec<u8> = Vec::new();
    let mut k: usize = 0;
    proof {
        assert(slot@.take(0) =~= Seq::<u8>::empty());
        assert(payload@ =~= slot@.take(0).filter(|b: u8| b != 0));
    }
    while k < EXEMPLAR_ENTRY_MAX_SIZE_BYTES
        invariant
            slot@.len() == EXEMPLAR_ENTRY_MAX_SIZE_BYTES,
            0 <= k <= EXEMPLAR_ENTRY_MAX_SIZE_BYTES,
            payload@ == slot@.take(k as int).filter(|b: u8| b != 0),
        decreases EXEMPLAR_ENTRY_MAX_SIZE_BYTES - k,
    {
        let b = *vstd::slice::slice_index_get(slot, k);
        proof {
            reveal_with_fuel(Seq::filter, 2);
            assert(slot@.take(k + 1).drop_last() =~= slot@.take(k as int));
            assert(slot@.take(k + 1).last() == slot@[k as int]);
        }
        if b != 0 {
            payload.push(b);
        }
        k = k + 1;
    }
    proof {
        assert(slot@.take(EXEMPLAR_ENTRY_MAX_SIZE_BYTES as int) =~= slot@);
    }

    match parse_exemplar(payload.as_slice()) {
        Some(e) => Ok(e),
        None => Err(MmapError::PromParsing(String::from_str("invalid exemplar record"))),
    }
}

} // verus!
