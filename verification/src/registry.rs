//! The metric registry: gauge metrics registered once with a fixed label-key
//! schema, written through `set`, and read through consistent snapshots.

use vstd::prelude::*;
use crate::bytes::{views_of, copy_bytes, copy_labels, bytes_eq, labels_eq};
use crate::errors::MetricsError;
use crate::model::{
    SeriesModel, MetricModel, is_ident, is_ident_start, is_ident_char, has_metric, metric_idx,
    label_keys_of, has_series, series_idx, series_unique, metric_wf, registry_wf,
    updated_series, set_spec, lemma_metric_idx, lemma_series_idx, lemma_set_spec,
};
use crate::value::GaugeValue;

verus! {

/// One stored series: its label values and its current value.
pub struct Series {
    pub label_values: Vec<Vec<u8>>,
    pub value: GaugeValue,
}

impl View for Series {
    type V = SeriesModel;

    open spec fn view(&self) -> SeriesModel {
        SeriesModel { label_values: views_of(self.label_values@), value: self.value@ }
    }
}

/// One stored metric: its name, its label keys, and its series.
pub struct Metric {
    pub name: Vec<u8>,
    pub label_keys: Vec<Vec<u8>>,
    pub series: Vec<Series>,
}

impl View for Metric {
    type V = MetricModel;

    open spec fn view(&self) -> MetricModel {
        MetricModel {
            name: self.name@,
            label_keys: views_of(self.label_keys@),
            series: Seq::new(self.series@.len(), |i: int| self.series@[i]@),
        }
    }
}

/// The registry: the only shared state between producers and scrapers.
pub struct Registry {
    metrics: Vec<Metric>,
}

impl View for Registry {
    type V = Seq<MetricModel>;

    closed spec fn view(&self) -> Seq<MetricModel> {
        Seq::new(self.metrics@.len(), |i: int| self.metrics@[i]@)
    }
}

/// An immutable, consistent copy of the registry's contents at one instant.
pub struct Snapshot {
    pub metrics: Vec<Metric>,
}

impl View for Snapshot {
    type V = Seq<MetricModel>;

    open spec fn view(&self) -> Seq<MetricModel> {
        Seq::new(self.metrics@.len(), |i: int| self.metrics@[i]@)
    }
}

/// The byte may appear in an identifier (run-time check).
fn ident_char(b: u8, first: bool) -> (r: bool)
    ensures
        r == if first {
            is_ident_start(b)
        } else {
            is_ident_char(b)
        },
{
    let alpha = (65 <= b && b <= 90) || (97 <= b && b <= 122) || b == 95;
    if first {
        alpha
    } else {
        alpha || crate::value::digit(b)
    }
}

/// The bytes form an identifier `[a-zA-Z_][a-zA-Z0-9_]*` (run-time check).
pub fn ident(s: &Vec<u8>) -> (r: bool)
    ensures
        r == is_ident(s@),
{
    if s.len() == 0 {
        return false;
    }
    if !ident_char(s[0], true) {
        return false;
    }
    let mut i: usize = 1;
    while i < s.len()
        invariant
            1 <= i <= s@.len(),
            is_ident_start(s@[0]),
            forall|j: int| 1 <= j < i ==> is_ident_char(#[trigger] s@[j]),
        decreases s.len() - i,
    {
        if !ident_char(s[i], false) {
            return false;
        }
        i = i + 1;
    }
    true
}

/// A copy of a series.
fn copy_series(src: &Series) -> (r: Series)
    ensures
        r@ == src@,
{
    Series { label_values: copy_labels(&src.label_values), value: src.value.duplicate() }
}

/// A copy of a metric.
fn copy_metric(src: &Metric) -> (r: Metric)
    ensures
        r@ == src@,
{
    let mut series: Vec<Series> = Vec::new();
    let mut i: usize = 0;
    while i < src.series.len()
        invariant
            i <= src.series@.len(),
            series@.len() == i,
            forall|j: int| 0 <= j < i ==> series@[j]@ == src.series@[j]@,
        decreases src.series.len() - i,
    {
        series.push(copy_series(&src.series[i]));
        i = i + 1;
    }
    let r = Metric { name: copy_bytes(&src.name), label_keys: copy_labels(&src.label_keys), series };
    proof {
        assert(r@.series =~= src@.series);
    }
    r
}

impl Registry {
    /// The registry's invariant: well-formed metrics with distinct names.
    pub open spec fn wf(&self) -> bool {
        registry_wf(self@)
    }

    /// An empty registry.
    pub fn new() -> (r: Registry)
        ensures
            r@ == Seq::<MetricModel>::empty(),
            r.wf(),
    {
        let r = Registry { metrics: Vec::new() };
        proof {
            assert(r@ =~= Seq::<MetricModel>::empty());
        }
        r
    }

    /// The index of the metric of this name, if registered.
    fn find_metric(&self, name: &Vec<u8>) -> (r: Option<usize>)
        requires
            self.wf(),
        ensures
            match r {
                Some(i) => i < self.metrics@.len() && self@[i as int].name == name@ && has_metric(
                    self@,
                    name@,
                ) && metric_idx(self@, name@) == i as int,
                None => !has_metric(self@, name@),
            },
    {
        let mut i: usize = 0;
        while i < self.metrics.len()
            invariant
                self.wf(),
                i <= self.metrics@.len(),
                forall|j: int| 0 <= j < i ==> (#[trigger] self@[j]).name != name@,
            decreases self.metrics.len() - i,
        {
            if bytes_eq(&self.metrics[i].name, name) {
                proof {
                    lemma_metric_idx(self@, name@, i as int);
                }
                return Some(i);
            }
            i = i + 1;
        }
        proof {
            if has_metric(self@, name@) {
                let w = metric_idx(self@, name@);
                assert(0 <= w < self@.len() && self@[w].name == name@);
            }
        }
        None
    }

    /// Declare a metric and its label keys. Idempotent for an identical
    /// registration; a second registration of the same name with different
    /// keys fails with `DuplicateMetric`; the registry is unchanged on
    /// failure and on an idempotent success.
    pub fn register(&mut self, name: Vec<u8>, label_keys: Vec<Vec<u8>>) -> (r: Result<
        (),
        MetricsError,
    >)
        requires
            old(self).wf(),
            is_ident(name@),
            forall|i: int| 0 <= i < label_keys@.len() ==> is_ident(#[trigger] views_of(label_keys@)[i]),
            forall|i: int, j: int|
                #![trigger views_of(label_keys@)[i], views_of(label_keys@)[j]]
                0 <= i < j < label_keys@.len() ==> views_of(label_keys@)[i] != views_of(
                    label_keys@,
                )[j],
        ensures
            final(self).wf(),
            match r {
                Ok(()) => (if has_metric(old(self)@, name@) {
                    label_keys_of(old(self)@, name@) == views_of(label_keys@) && final(self)@
                        == old(self)@
                } else {
                    final(self)@ == old(self)@.push(
                        MetricModel {
                            name: name@,
                            label_keys: views_of(label_keys@),
                            series: Seq::<SeriesModel>::empty(),
                        },
                    )
                }),
                Err(e) => e == MetricsError::DuplicateMetric && has_metric(old(self)@, name@)
                    && label_keys_of(old(self)@, name@) != views_of(label_keys@) && final(self)@
                    == old(self)@,
            },
    {
        match self.find_metric(&name) {
            Some(i) => {
                proof {
                    assert(label_keys_of(self@, name@) == self@[i as int].label_keys);
                }
                if labels_eq(&self.metrics[i].label_keys, &label_keys) {
                    Ok(())
                } else {
                    Err(MetricsError::DuplicateMetric)
                }
            },
            None => {
                let m = Metric { name, label_keys, series: Vec::new() };
                proof {
                    assert(m@.series =~= Seq::<SeriesModel>::empty());
                }
                self.metrics.push(m);
                proof {
                    assert(self@ =~= old(self)@.push(m@));
                    assert(metric_wf(m@));
                    assert forall|a: int| 0 <= a < self@.len() implies metric_wf(
                        #[trigger] self@[a],
                    ) by {
                        if a < old(self)@.len() {
                            assert(self@[a] == old(self)@[a]);
                        }
                    }
                    assert forall|a: int, b: int|
                        #![trigger self@[a], self@[b]]
                        0 <= a < b < self@.len() implies self@[a].name != self@[b].name by {
                        if b < old(self)@.len() {
                            assert(self@[a] == old(self)@[a]);
                            assert(self@[b] == old(self)@[b]);
                        } else {
                            assert(self@[a] == old(self)@[a]);
                            assert(self@[b].name == name@);
                        }
                    }
                }
                Ok(())
            },
        }
    }

    /// Insert or overwrite the value of the series (name, label values).
    /// Fails with `UnknownMetric` for an unregistered name and with
    /// `LabelArityMismatch` when the label-value count differs from the
    /// registered key count; the registry is unchanged on failure.
    pub fn set(&mut self, name: &Vec<u8>, label_values: Vec<Vec<u8>>, value: GaugeValue) -> (r:
        Result<(), MetricsError>)
        requires
            old(self).wf(),
        ensures
            final(self).wf(),
            match r {
                Ok(()) => has_metric(old(self)@, name@) && views_of(label_values@).len()
                    == label_keys_of(old(self)@, name@).len() && final(self)@ == set_spec(
                    old(self)@,
                    name@,
                    views_of(label_values@),
                    value@,
                ),
                Err(e) => final(self)@ == old(self)@ && (if !has_metric(old(self)@, name@) {
                    e == MetricsError::UnknownMetric
                } else {
                    e == MetricsError::LabelArityMismatch && views_of(label_values@).len()
                        != label_keys_of(old(self)@, name@).len()
                }),
            },
    {
        let i = match self.find_metric(name) {
            Some(i) => i,
            None => {
                return Err(MetricsError::UnknownMetric);
            },
        };
        proof {
            assert(label_keys_of(self@, name@) == self@[i as int].label_keys);
        }
        if label_values.len() != self.metrics[i].label_keys.len() {
            return Err(MetricsError::LabelArityMismatch);
        }
        let ghost m0 = self@;
        let ghost lvs = views_of(label_values@);
        let mut met = self.metrics.remove(i);
        let ghost old_met = met@;
        proof {
            assert(old_met == m0[i as int]);
            assert(metric_wf(old_met));
        }
        match Self::find_series(&met, &label_values) {
            Some(j) => {
                let mut ser = met.series.remove(j);
                ser.value = value;
                met.series.insert(j, ser);
                proof {
                    assert(met@.series =~= old_met.series.update(
                        j as int,
                        SeriesModel { label_values: lvs, value: value@ },
                    ));
                    assert(met@.series == updated_series(old_met.series, lvs, value@));
                }
            },
            None => {
                met.series.push(Series { label_values, value });
                proof {
                    assert(met@.series =~= old_met.series.push(
                        SeriesModel { label_values: lvs, value: value@ },
                    ));
                    assert(met@.series == updated_series(old_met.series, lvs, value@));
                }
            },
        }
        proof {
            assert(met@.name == old_met.name && met@.label_keys == old_met.label_keys);
        }
        self.metrics.insert(i, met);
        proof {
            assert(self@ =~= m0.update(i as int, met@));
            assert(self@ == set_spec(m0, name@, lvs, value@));
            lemma_set_spec(m0, name@, lvs, value@);
        }
        Ok(())
    }

    /// The index of the series with these label values within a metric.
    fn find_series(met: &Metric, lvs: &Vec<Vec<u8>>) -> (r: Option<usize>)
        requires
            series_unique(met@.series),
        ensures
            match r {
                Some(j) => j < met.series@.len() && met@.series[j as int].label_values == views_of(
                    lvs@,
                ) && has_series(met@.series, views_of(lvs@)) && series_idx(
                    met@.series,
                    views_of(lvs@),
                ) == j as int,
                None => !has_series(met@.series, views_of(lvs@)),
            },
    {
        let mut j: usize = 0;
        while j < met.series.len()
            invariant
                j <= met.series@.len(),
                forall|t: int|
                    0 <= t < j ==> (#[trigger] met@.series[t]).label_values != views_of(lvs@),
                series_unique(met@.series),
            decreases met.series.len() - j,
        {
            if labels_eq(&met.series[j].label_values, lvs) {
                proof {
                    lemma_series_idx(met@.series, views_of(lvs@), j as int);
                }
                return Some(j);
            }
            j = j + 1;
        }
        proof {
            if has_series(met@.series, views_of(lvs@)) {
                let w = series_idx(met@.series, views_of(lvs@));
                assert(0 <= w < met@.series.len() && met@.series[w].label_values == views_of(lvs@));
            }
        }
        None
    }

    /// An immutable, consistent copy of every (name, label values, value)
    /// triple as of one logical instant.
    pub fn snapshot(&self) -> (s: Snapshot)
        ensures
            s@ == self@,
    {
        let mut metrics: Vec<Metric> = Vec::new();
        let mut i: usize = 0;
        while i < self.metrics.len()
            invariant
                i <= self.metrics@.len(),
                metrics@.len() == i,
                forall|j: int| 0 <= j < i ==> metrics@[j]@ == self.metrics@[j]@,
            decreases self.metrics.len() - i,
        {
            metrics.push(copy_metric(&self.metrics[i]));
            i = i + 1;
        }
        let s = Snapshot { metrics };
        proof {
            assert(s@ =~= self@);
        }
        s
    }
}

} // verus!
