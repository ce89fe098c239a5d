//! The library's laws, stated over the registry model and proved once and
//! for all: last write wins over any sequence of writes, and overlapping
//! writes to one series can never blend into a value nobody wrote.

use vstd::prelude::*;
use crate::model::{
    MetricModel, has_metric, metric_idx, label_keys_of, value_of, registry_wf, set_spec,
    lemma_metric_idx, lemma_set_spec, lemma_set_spec_frame,
};

verus! {

/// One producer observation, as the update channel hands it to the registry.
pub ghost struct UpdateModel {
    pub name: Seq<u8>,
    pub label_values: Seq<Seq<u8>>,
    pub value: Seq<u8>,
}

/// The registry admits the update: its metric is registered and the label
/// arity matches. Admission depends only on the schema, which no write
/// changes.
pub open spec fn update_admitted(m: Seq<MetricModel>, u: UpdateModel) -> bool {
    has_metric(m, u.name) && u.label_values.len() == label_keys_of(m, u.name).len()
}

/// The registry after one update: applied if admitted, else unchanged.
pub open spec fn apply_update(m: Seq<MetricModel>, u: UpdateModel) -> Seq<MetricModel> {
    if update_admitted(m, u) {
        set_spec(m, u.name, u.label_values, u.value)
    } else {
        m
    }
}

/// The registry after a whole sequence of updates, in program order.
pub open spec fn apply_all(m: Seq<MetricModel>, us: Seq<UpdateModel>) -> Seq<MetricModel>
    decreases us.len(),
{
    if us.len() == 0 {
        m
    } else {
        apply_update(apply_all(m, us.drop_last()), us.last())
    }
}

/// The value the last admitted update for (name, lvs) wrote, or the starting
/// value where no update addressed that series.
pub open spec fn last_written(
    m: Seq<MetricModel>,
    us: Seq<UpdateModel>,
    name: Seq<u8>,
    lvs: Seq<Seq<u8>>,
) -> Option<Seq<u8>>
    decreases us.len(),
{
    if us.len() == 0 {
        value_of(m, name, lvs)
    } else if us.last().name == name && us.last().label_values == lvs && update_admitted(
        m,
        us.last(),
    ) {
        Some(us.last().value)
    } else {
        last_written(m, us.drop_last(), name, lvs)
    }
}

/// No write changes the schema: after any sequence of updates the same
/// metrics are registered, with the same label keys, and the registry stays
/// well formed.
pub proof fn lemma_apply_all_schema(m: Seq<MetricModel>, us: Seq<UpdateModel>)
    requires
        registry_wf(m),
    ensures
        registry_wf(apply_all(m, us)),
        apply_all(m, us).len() == m.len(),
        forall|j: int|
            0 <= j < m.len() ==> (#[trigger] apply_all(m, us)[j]).name == m[j].name && apply_all(
                m,
                us,
            )[j].label_keys == m[j].label_keys,
        forall|n: Seq<u8>| has_metric(apply_all(m, us), n) == has_metric(m, n),
        forall|n: Seq<u8>|
            has_metric(m, n) ==> label_keys_of(apply_all(m, us), n) == label_keys_of(m, n),
    decreases us.len(),
{
    let r = apply_all(m, us);
    if us.len() == 0 {
        assert forall|n: Seq<u8>| has_metric(r, n) == has_metric(m, n) by {}
    } else {
        let prev = apply_all(m, us.drop_last());
        lemma_apply_all_schema(m, us.drop_last());
        let u = us.last();
        if update_admitted(prev, u) {
            lemma_set_spec(prev, u.name, u.label_values, u.value);
            assert forall|n: Seq<u8>| has_metric(r, n) == has_metric(m, n) by {
                if has_metric(m, n) {
                    let w = metric_idx(m, n);
                    assert(r[w].name == n);
                } else {
                    if has_metric(r, n) {
                        let w = metric_idx(r, n);
                        assert(m[w].name == n);
                    }
                }
            }
            assert forall|n: Seq<u8>| has_metric(m, n) implies label_keys_of(r, n)
                == label_keys_of(m, n) by {
                let w = metric_idx(m, n);
                assert(r[w].name == n);
                lemma_metric_idx(m, n, w);
                lemma_metric_idx(r, n, w);
            }
        } else {
        }
    }
}

/// Last write wins. For every sequence of updates applied in program order,
/// the value a snapshot then shows for each (name, label values) is exactly
/// the value of the last admitted update for that pair, and the starting
/// value where no update addressed it.
pub proof fn lemma_last_write_wins(
    m: Seq<MetricModel>,
    us: Seq<UpdateModel>,
    name: Seq<u8>,
    lvs: Seq<Seq<u8>>,
)
    requires
        registry_wf(m),
    ensures
        value_of(apply_all(m, us), name, lvs) == last_written(m, us, name, lvs),
    decreases us.len(),
{
    if us.len() == 0 {
    } else {
        let prev = apply_all(m, us.drop_last());
        let u = us.last();
        lemma_last_write_wins(m, us.drop_last(), name, lvs);
        lemma_apply_all_schema(m, us.drop_last());
        if update_admitted(m, u) {
            assert(update_admitted(prev, u));
            if u.name == name && u.label_values == lvs {
                lemma_set_spec(prev, u.name, u.label_values, u.value);
            } else {
                lemma_set_spec_frame(prev, u.name, u.label_values, u.value, name, lvs);
            }
        } else {
            assert(!update_admitted(prev, u));
        }
    }
}

/// No torn write. When two writes to the same series land in either order,
/// a snapshot taken after both always shows one of the two written values
/// whole — the later one — and never a mixture.
pub proof fn lemma_no_torn_write(
    m: Seq<MetricModel>,
    name: Seq<u8>,
    lvs: Seq<Seq<u8>>,
    v1: Seq<u8>,
    v2: Seq<u8>,
)
    requires
        registry_wf(m),
        has_metric(m, name),
        lvs.len() == label_keys_of(m, name).len(),
    ensures
        value_of(set_spec(set_spec(m, name, lvs, v1), name, lvs, v2), name, lvs) == Some(v2),
        value_of(set_spec(set_spec(m, name, lvs, v2), name, lvs, v1), name, lvs) == Some(v1),
{
    lemma_set_spec(m, name, lvs, v1);
    let r1 = set_spec(m, name, lvs, v1);
    assert(has_metric(r1, name) && label_keys_of(r1, name) == label_keys_of(m, name)) by {
        let w = metric_idx(m, name);
        assert(r1[w].name == name);
        lemma_metric_idx(m, name, w);
        lemma_metric_idx(r1, name, w);
    }
    lemma_set_spec(r1, name, lvs, v2);
    lemma_set_spec(m, name, lvs, v2);
    let r2 = set_spec(m, name, lvs, v2);
    assert(has_metric(r2, name) && label_keys_of(r2, name) == label_keys_of(m, name)) by {
        let w = metric_idx(m, name);
        assert(r2[w].name == name);
        lemma_metric_idx(m, name, w);
        lemma_metric_idx(r2, name, w);
    }
    lemma_set_spec(r2, name, lvs, v1);
}

} // verus!
