//! The update channel: the single write path into the registry. It parses
//! and validates raw producer text, so that malformed input is rejected with
//! `ParseError` before the registry is touched.

use vstd::prelude::*;
use crate::bytes::views_of;
use crate::errors::MetricsError;
use crate::model::{has_metric, label_keys_of, set_spec};
use crate::registry::Registry;
use crate::value::{GaugeValue, is_decimal};

verus! {

/// Submit one observation: parse `raw_value` as a decimal number and forward
/// it to the registry's `set`. Malformed text fails with `ParseError` and
/// leaves the registry untouched; the registry's own errors pass through
/// unchanged.
pub fn submit(reg: &mut Registry, name: &Vec<u8>, label_values: Vec<Vec<u8>>, raw_value: &Vec<u8>)
    -> (r: Result<(), MetricsError>)
    requires
        old(reg).wf(),
    ensures
        final(reg).wf(),
        match r {
            Ok(()) => is_decimal(raw_value@) && has_metric(old(reg)@, name@) && views_of(
                label_values@,
            ).len() == label_keys_of(old(reg)@, name@).len() && final(reg)@ == set_spec(
                old(reg)@,
                name@,
                views_of(label_values@),
                raw_value@,
            ),
            Err(e) => final(reg)@ == old(reg)@ && (if !is_decimal(raw_value@) {
                e == MetricsError::ParseError
            } else if !has_metric(old(reg)@, name@) {
                e == MetricsError::UnknownMetric
            } else {
                e == MetricsError::LabelArityMismatch && views_of(label_values@).len()
                    != label_keys_of(old(reg)@, name@).len()
            }),
        },
{
    match GaugeValue::parse(raw_value) {
        Some(v) => reg.set(name, label_values, v),
        None => Err(MetricsError::ParseError),
    }
}

} // verus!
