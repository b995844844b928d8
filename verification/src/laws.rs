//! Laws of the decoder, stated over the model of the walk and proved from
//! it.

use vstd::prelude::*;
use vstd::arithmetic::power2::pow2;
use crate::bits::{field, lemma_field_bound};
use crate::cache::Cache;
use crate::record::{Scaled, ValueModel};
use crate::state::{is_counter, is_text_unit, State};
use crate::tables::BTableEntry;
use crate::walk::{eval_element, step, Machine};

verus! {

/// Missing values: a numeric element of 1 to 64 bits that is no
/// delayed-replication counter decodes to `Missing` exactly where every bit
/// read is 1, which is the raw value `2^width - 1`; every other raw value
/// decodes to a number that carries the bits as read.
pub proof fn lemma_missing_semantics(state: State, data: Seq<u8>, pos: nat, e: BTableEntry)
    requires
        !is_text_unit(e.bufr_unit@),
        !is_counter(e),
        1 <= state.spec_datawidth(e) <= 64,
        pos + state.spec_datawidth(e) <= 8 * data.len(),
    ensures
        eval_element(state, data, pos, e) is Ok,
        ({
            let width = state.spec_datawidth(e) as nat;
            let raw = field(data, pos as int, width);
            let (value, after) = eval_element(state, data, pos, e)->Ok_0;
            &&& after == pos + width
            &&& raw == pow2(width) - 1 ==> value is Missing
            &&& raw != pow2(width) - 1 ==> value == ValueModel::Number(
                Scaled {
                    raw: raw as u64,
                    reference: state.spec_reference_value(e),
                    scale: state.spec_scale(e),
                },
            )
        }),
{
    let width = state.spec_datawidth(e) as nat;
    lemma_field_bound(data, pos as int, width);
    vstd::arithmetic::power2::lemma2_to64();
    if width < 64 {
        vstd::arithmetic::power2::lemma_pow2_strictly_increases(width, 64);
    }
}

/// A delayed-replication counter is never missing: whatever bits are read,
/// the value is the number.
pub proof fn lemma_counter_is_never_missing(state: State, data: Seq<u8>, pos: nat, e: BTableEntry)
    requires
        !is_text_unit(e.bufr_unit@),
        is_counter(e),
        eval_element(state, data, pos, e) is Ok,
    ensures
        eval_element(state, data, pos, e)->Ok_0.0 is Number,
{
}

/// One-shot discipline: after a step on an element descriptor, the
/// one-shot width and the one-shot adjustment are used up, and the lasting
/// overrides are as before.
pub proof fn lemma_one_shot_discipline(cache: Cache, data: Seq<u8>, m: Machine)
    requires
        m.stack.len() > 0,
        m.stack.last() is Slice,
        0 <= m.stack.last()->Slice_idx < m.stack.last()->Slice_descs.len(),
        m.stack.last()->Slice_descs[m.stack.last()->Slice_idx].f == 0,
        step(cache, data, m) is Ok,
    ensures
        ({
            let next = step(cache, data, m)->Ok_0;
            &&& next.state.local_data_width is None
            &&& next.state.temp_operator is None
            &&& next.state.common_scale == m.state.common_scale
            &&& next.state.common_ref_value == m.state.common_ref_value
            &&& next.state.common_data_width == m.state.common_data_width
            &&& next.state.common_str_width == m.state.common_str_width
        }),
{
}

} // verus!
