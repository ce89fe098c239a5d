//! The mathematical model of the registry: metric and series models, the
//! lookup and update functions over them, well-formedness, and the lemmas
//! that the executable registry and the library's laws are proved from.

use vstd::prelude::*;
use crate::value::is_digit;

verus! {

/// One series of a metric: its label values and its current value's text.
pub ghost struct SeriesModel {
    pub label_values: Seq<Seq<u8>>,
    pub value: Seq<u8>,
}

/// One metric: its name, its registered label keys, and its series in first
/// insertion order.
pub ghost struct MetricModel {
    pub name: Seq<u8>,
    pub label_keys: Seq<Seq<u8>>,
    pub series: Seq<SeriesModel>,
}

/// The byte may start an identifier: a letter or an underscore.
pub open spec fn is_ident_start(b: u8) -> bool {
    (65 <= b && b <= 90)  // A-Z
    || (97 <= b && b <= 122)  // a-z
    || b == 95  // _
}

/// The byte may continue an identifier: a letter, a digit or an underscore.
pub open spec fn is_ident_char(b: u8) -> bool {
    is_ident_start(b) || is_digit(b)
}

/// Metric names and label keys are identifiers: `[a-zA-Z_][a-zA-Z0-9_]*`.
pub open spec fn is_ident(s: Seq<u8>) -> bool {
    &&& s.len() > 0
    &&& is_ident_start(s[0])
    &&& forall|i: int| 1 <= i < s.len() ==> is_ident_char(#[trigger] s[i])
}

/// Some metric of this name exists.
pub open spec fn has_metric(m: Seq<MetricModel>, name: Seq<u8>) -> bool {
    exists|i: int| 0 <= i < m.len() && (#[trigger] m[i]).name == name
}

/// The index of the metric of this name (meaningful when `has_metric`).
pub open spec fn metric_idx(m: Seq<MetricModel>, name: Seq<u8>) -> int {
    choose|i: int| 0 <= i < m.len() && (#[trigger] m[i]).name == name
}

/// The registered label keys of the metric of this name.
pub open spec fn label_keys_of(m: Seq<MetricModel>, name: Seq<u8>) -> Seq<Seq<u8>> {
    m[metric_idx(m, name)].label_keys
}

/// Some series with these label values exists.
pub open spec fn has_series(s: Seq<SeriesModel>, lvs: Seq<Seq<u8>>) -> bool {
    exists|i: int| 0 <= i < s.len() && (#[trigger] s[i]).label_values == lvs
}

/// The index of the series with these label values (meaningful when
/// `has_series`).
pub open spec fn series_idx(s: Seq<SeriesModel>, lvs: Seq<Seq<u8>>) -> int {
    choose|i: int| 0 <= i < s.len() && (#[trigger] s[i]).label_values == lvs
}

/// The current value of the series (name, label values), if any.
pub open spec fn value_of(m: Seq<MetricModel>, name: Seq<u8>, lvs: Seq<Seq<u8>>) -> Option<
    Seq<u8>,
> {
    if has_metric(m, name) {
        let mm = m[metric_idx(m, name)];
        if has_series(mm.series, lvs) {
            Some(mm.series[series_idx(mm.series, lvs)].value)
        } else {
            None
        }
    } else {
        None
    }
}

/// No two series of one metric share their label values.
pub open spec fn series_unique(s: Seq<SeriesModel>) -> bool {
    forall|i: int, j: int|
        #![trigger s[i], s[j]]
        0 <= i < j < s.len() ==> s[i].label_values != s[j].label_values
}

/// A metric is well formed: identifier name and keys, distinct keys, every
/// series of the registered arity, and distinct series.
pub open spec fn metric_wf(m: MetricModel) -> bool {
    &&& is_ident(m.name)
    &&& forall|i: int| 0 <= i < m.label_keys.len() ==> is_ident(#[trigger] m.label_keys[i])
    &&& forall|i: int, j: int|
        #![trigger m.label_keys[i], m.label_keys[j]]
        0 <= i < j < m.label_keys.len() ==> m.label_keys[i] != m.label_keys[j]
    &&& forall|i: int|
        0 <= i < m.series.len() ==> (#[trigger] m.series[i]).label_values.len()
            == m.label_keys.len()
    &&& series_unique(m.series)
}

/// A registry is well formed: well-formed metrics with distinct names.
pub open spec fn registry_wf(m: Seq<MetricModel>) -> bool {
    &&& forall|i: int| 0 <= i < m.len() ==> metric_wf(#[trigger] m[i])
    &&& forall|i: int, j: int|
        #![trigger m[i], m[j]]
        0 <= i < j < m.len() ==> m[i].name != m[j].name
}

/// The series list after a write: overwrite the matching series, or append a
/// new one.
pub open spec fn updated_series(s: Seq<SeriesModel>, lvs: Seq<Seq<u8>>, v: Seq<u8>) -> Seq<
    SeriesModel,
> {
    if has_series(s, lvs) {
        s.update(series_idx(s, lvs), SeriesModel { label_values: lvs, value: v })
    } else {
        s.push(SeriesModel { label_values: lvs, value: v })
    }
}

/// The registry after a successful `set`: last write wins for exactly the
/// addressed series.
pub open spec fn set_spec(m: Seq<MetricModel>, name: Seq<u8>, lvs: Seq<Seq<u8>>, v: Seq<u8>) -> Seq<
    MetricModel,
> {
    let i = metric_idx(m, name);
    m.update(
        i,
        MetricModel {
            name: m[i].name,
            label_keys: m[i].label_keys,
            series: updated_series(m[i].series, lvs, v),
        },
    )
}

/// In a well-formed registry the metric index is the unique index that
/// carries the name.
pub proof fn lemma_metric_idx(m: Seq<MetricModel>, name: Seq<u8>, i: int)
    requires
        registry_wf(m),
        0 <= i < m.len(),
        m[i].name == name,
    ensures
        has_metric(m, name),
        metric_idx(m, name) == i,
{
    assert(has_metric(m, name));
    let k = metric_idx(m, name);
    assert(0 <= k < m.len() && m[k].name == name);
    if k < i {
        assert(m[k].name != m[i].name);
    } else if i < k {
        assert(m[i].name != m[k].name);
    }
}

/// In a duplicate-free series list the series index is the unique index that
/// carries the label values.
pub proof fn lemma_series_idx(s: Seq<SeriesModel>, lvs: Seq<Seq<u8>>, i: int)
    requires
        series_unique(s),
        0 <= i < s.len(),
        s[i].label_values == lvs,
    ensures
        has_series(s, lvs),
        series_idx(s, lvs) == i,
{
    assert(has_series(s, lvs));
    let k = series_idx(s, lvs);
    assert(0 <= k < s.len() && s[k].label_values == lvs);
    if k < i {
        assert(s[k].label_values != s[i].label_values);
    } else if i < k {
        assert(s[i].label_values != s[k].label_values);
    }
}

/// A successful write preserves well-formedness and the whole schema, and the
/// addressed series afterwards holds exactly the written value.
pub proof fn lemma_set_spec(m: Seq<MetricModel>, name: Seq<u8>, lvs: Seq<Seq<u8>>, v: Seq<u8>)
    requires
        registry_wf(m),
        has_metric(m, name),
        lvs.len() == label_keys_of(m, name).len(),
    ensures
        registry_wf(set_spec(m, name, lvs, v)),
        set_spec(m, name, lvs, v).len() == m.len(),
        forall|j: int|
            0 <= j < m.len() ==> (#[trigger] set_spec(m, name, lvs, v)[j]).name == m[j].name
                && set_spec(m, name, lvs, v)[j].label_keys == m[j].label_keys,
        value_of(set_spec(m, name, lvs, v), name, lvs) == Some(v),
{
    let i = metric_idx(m, name);
    assert(0 <= i < m.len() && m[i].name == name);
    let s = m[i].series;
    let ns = updated_series(s, lvs, v);
    let r = set_spec(m, name, lvs, v);
    let nm = SeriesModel { label_values: lvs, value: v };

    // the new series list is well formed and holds nm at a known index
    let j = if has_series(s, lvs) {
        series_idx(s, lvs)
    } else {
        s.len() as int
    };
    if has_series(s, lvs) {
        assert(0 <= j < s.len() && s[j].label_values == lvs);
        assert(ns == s.update(j, nm));
        assert(series_unique(ns)) by {
            assert forall|a: int, b: int|
                #![trigger ns[a], ns[b]]
                0 <= a < b < ns.len() implies ns[a].label_values != ns[b].label_values by {
                assert(ns[a].label_values == s[a].label_values);
                assert(ns[b].label_values == s[b].label_values);
            }
        }
    } else {
        assert(ns == s.push(nm));
        assert(series_unique(ns)) by {
            assert forall|a: int, b: int|
                #![trigger ns[a], ns[b]]
                0 <= a < b < ns.len() implies ns[a].label_values != ns[b].label_values by {
                if b < s.len() {
                    assert(ns[a].label_values == s[a].label_values);
                    assert(ns[b].label_values == s[b].label_values);
                } else {
                    assert(ns[b].label_values == lvs);
                    assert(ns[a].label_values == s[a].label_values);
                    if s[a].label_values == lvs {
                        assert(has_series(s, lvs));
                    }
                }
            }
        }
    }
    assert(0 <= j < ns.len() && ns[j].label_values == lvs && ns[j].value == v);
    assert(label_keys_of(m, name) == m[i].label_keys);

    assert(metric_wf(r[i])) by {
        assert(forall|a: int|
            0 <= a < ns.len() ==> (#[trigger] ns[a]).label_values.len() == m[i].label_keys.len());
    }
    assert(registry_wf(r)) by {
        assert(forall|a: int| 0 <= a < r.len() && a != i ==> r[a] == m[a]);
    }
    lemma_metric_idx(r, name, i);
    lemma_series_idx(ns, lvs, j);
    assert(value_of(r, name, lvs) == Some(v));
}

/// A write leaves every other series' value unchanged.
pub proof fn lemma_set_spec_frame(
    m: Seq<MetricModel>,
    name: Seq<u8>,
    lvs: Seq<Seq<u8>>,
    v: Seq<u8>,
    name2: Seq<u8>,
    lvs2: Seq<Seq<u8>>,
)
    requires
        registry_wf(m),
        has_metric(m, name),
        lvs.len() == label_keys_of(m, name).len(),
        name2 != name || lvs2 != lvs,
    ensures
        value_of(set_spec(m, name, lvs, v), name2, lvs2) == value_of(m, name2, lvs2),
{
    lemma_set_spec(m, name, lvs, v);
    let r = set_spec(m, name, lvs, v);
    let i = metric_idx(m, name);
    assert(0 <= i < m.len() && m[i].name == name);
    if name2 != name {
        if has_metric(m, name2) {
            let w = metric_idx(m, name2);
            assert(0 <= w < m.len() && m[w].name == name2);
            assert(w != i);
            assert(r[w] == m[w]);
            lemma_metric_idx(r, name2, w);
            assert(value_of(r, name2, lvs2) == value_of(m, name2, lvs2));
        } else {
            assert(!has_metric(r, name2)) by {
                if has_metric(r, name2) {
                    let w = metric_idx(r, name2);
                    assert(0 <= w < r.len() && r[w].name == name2);
                    assert(m[w].name == name2);
                    assert(has_metric(m, name2));
                }
            }
        }
    } else {
        // same metric, different label values
        lemma_metric_idx(r, name, i);
        let s = m[i].series;
        let ns = r[i].series;
        assert(ns == updated_series(s, lvs, v));
        if has_series(s, lvs2) {
            let j2 = series_idx(s, lvs2);
            assert(0 <= j2 < s.len() && s[j2].label_values == lvs2);
            if has_series(s, lvs) {
                let j = series_idx(s, lvs);
                assert(s[j].label_values == lvs);
                assert(j2 != j);
                assert(ns[j2] == s[j2]);
            } else {
                assert(ns[j2] == s[j2]);
            }
            assert(series_unique(ns));
            lemma_series_idx(ns, lvs2, j2);
            lemma_series_idx(s, lvs2, j2);
            assert(value_of(r, name, lvs2) == Some(ns[j2].value));
            assert(value_of(m, name, lvs2) == Some(s[j2].value));
        } else {
            assert(!has_series(ns, lvs2)) by {
                if has_series(ns, lvs2) {
                    let w = series_idx(ns, lvs2);
                    assert(0 <= w < ns.len() && ns[w].label_values == lvs2);
                    if has_series(s, lvs) {
                        let j = series_idx(s, lvs);
                        if w == j {
                            assert(ns[w].label_values == lvs);
                        } else {
                            assert(ns[w] == s[w]);
                            assert(has_series(s, lvs2));
                        }
                    } else {
                        if w < s.len() {
                            assert(ns[w] == s[w]);
                            assert(has_series(s, lvs2));
                        } else {
                            assert(ns[w].label_values == lvs);
                        }
                    }
                }
            }
            assert(value_of(r, name, lvs2) == None::<Seq<u8>>);
            assert(value_of(m, name, lvs2) == None::<Seq<u8>>);
        }
    }
}

} // verus!
