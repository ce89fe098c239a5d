//! The exposition encoder: a snapshot is rendered as one line per series,
//! `name{key="value",...} number`, label pairs in the metric's registration
//! order, label values escaped, lines in registration order of the metrics
//! and first-insertion order of the series. Encoding is a pure function of
//! the snapshot's contents.

use vstd::prelude::*;
use crate::bytes::views_of;
use crate::model::{SeriesModel, MetricModel};
use crate::registry::{Series, Metric, Snapshot};

verus! {

/// ASCII codes used by the exposition format.
pub const B_LBRACE: u8 = 123;

pub const B_RBRACE: u8 = 125;

pub const B_COMMA: u8 = 44;

pub const B_EQ: u8 = 61;

pub const B_QUOTE: u8 = 34;

pub const B_BACKSLASH: u8 = 92;

pub const B_NEWLINE: u8 = 10;

pub const B_SPACE: u8 = 32;

pub const B_LOWER_N: u8 = 110;

/// How one byte of a label value is escaped: backslash and double quote get
/// a leading backslash, a line feed becomes `\n`, all else stands as it is.
pub open spec fn escape_byte(b: u8) -> Seq<u8> {
    if b == B_QUOTE || b == B_BACKSLASH {
        seq![B_BACKSLASH, b]
    } else if b == B_NEWLINE {
        seq![B_BACKSLASH, B_LOWER_N]
    } else {
        seq![b]
    }
}

/// A label value with every byte escaped.
pub open spec fn escape(s: Seq<u8>) -> Seq<u8>
    decreases s.len(),
{
    if s.len() == 0 {
        Seq::empty()
    } else {
        escape(s.drop_last()) + escape_byte(s.last())
    }
}

/// One `key="value"` pair.
pub open spec fn label_pair(key: Seq<u8>, val: Seq<u8>) -> Seq<u8> {
    key + seq![B_EQ, B_QUOTE] + escape(val) + seq![B_QUOTE]
}

/// The comma-separated label pairs of one line, in registration order of the
/// keys.
pub open spec fn labels_body(keys: Seq<Seq<u8>>, vals: Seq<Seq<u8>>) -> Seq<u8>
    decreases keys.len(),
{
    if keys.len() == 0 {
        Seq::empty()
    } else if keys.len() == 1 {
        label_pair(keys[0], vals[0])
    } else {
        labels_body(keys.drop_last(), vals.drop_last()) + seq![B_COMMA] + label_pair(
            keys.last(),
            vals.last(),
        )
    }
}

/// One series line: `name{key="value",...} number\n`, the braces omitted for
/// a metric without labels.
pub open spec fn series_line(name: Seq<u8>, keys: Seq<Seq<u8>>, s: SeriesModel) -> Seq<u8> {
    if keys.len() == 0 {
        name + seq![B_SPACE] + s.value + seq![B_NEWLINE]
    } else {
        name + seq![B_LBRACE] + labels_body(keys, s.label_values) + seq![B_RBRACE, B_SPACE]
            + s.value + seq![B_NEWLINE]
    }
}

/// All lines of one metric, in first-insertion order of its series.
pub open spec fn metric_text(m: MetricModel) -> Seq<u8>
    decreases m.series.len(),
{
    if m.series.len() == 0 {
        Seq::empty()
    } else {
        metric_text(MetricModel { series: m.series.drop_last(), ..m }) + series_line(
            m.name,
            m.label_keys,
            m.series.last(),
        )
    }
}

/// The whole exposition text of a snapshot, metrics in registration order.
pub open spec fn snapshot_text(ms: Seq<MetricModel>) -> Seq<u8>
    decreases ms.len(),
{
    if ms.len() == 0 {
        Seq::empty()
    } else {
        snapshot_text(ms.drop_last()) + metric_text(ms.last())
    }
}

/// Encoding is deterministic: snapshots with the same contents encode to
/// byte-identical output, however and whenever they were taken.
pub proof fn lemma_encode_deterministic(a: Seq<MetricModel>, b: Seq<MetricModel>)
    requires
        a == b,
    ensures
        snapshot_text(a) == snapshot_text(b),
{
}

proof fn lemma_escape_step(s: Seq<u8>, i: int)
    requires
        0 <= i < s.len(),
    ensures
        escape(s.take(i + 1)) == escape(s.take(i)) + escape_byte(s[i]),
{
    assert(s.take(i + 1).drop_last() =~= s.take(i));
    assert(s.take(i + 1).last() == s[i]);
}

/// Append the escaped form of `src` to `out`.
fn escape_into(out: &mut Vec<u8>, src: &Vec<u8>)
    ensures
        final(out)@ == old(out)@ + escape(src@),
{
    let ghost base = out@;
    let mut i: usize = 0;
    while i < src.len()
        invariant
            i <= src@.len(),
            out@ == base + escape(src@.take(i as int)),
        decreases src.len() - i,
    {
        let b = src[i];
        if b == B_QUOTE || b == B_BACKSLASH {
            out.push(B_BACKSLASH);
            out.push(b);
        } else if b == B_NEWLINE {
            out.push(B_BACKSLASH);
            out.push(B_LOWER_N);
        } else {
            out.push(b);
        }
        proof {
            lemma_escape_step(src@, i as int);
            assert(out@ =~= base + escape(src@.take(i + 1 as int)));
        }
        i = i + 1;
    }
    proof {
        assert(src@.take(src@.len() as int) =~= src@);
    }
}

/// Append a copy of `src` to `out`.
fn push_all(out: &mut Vec<u8>, src: &Vec<u8>)
    ensures
        final(out)@ == old(out)@ + src@,
{
    let ghost base = out@;
    let mut i: usize = 0;
    while i < src.len()
        invariant
            i <= src@.len(),
            out@ == base + src@.take(i as int),
        decreases src.len() - i,
    {
        out.push(src[i]);
        proof {
            assert(out@ =~= base + src@.take(i + 1 as int));
        }
        i = i + 1;
    }
    proof {
        assert(src@.take(src@.len() as int) =~= src@);
    }
}

proof fn lemma_labels_body_step(keys: Seq<Seq<u8>>, vals: Seq<Seq<u8>>, k: int)
    requires
        0 <= k < keys.len(),
        keys.len() == vals.len(),
    ensures
        labels_body(keys.take(k + 1), vals.take(k + 1)) == if k == 0 {
            label_pair(keys[0], vals[0])
        } else {
            labels_body(keys.take(k), vals.take(k)) + seq![B_COMMA] + label_pair(keys[k], vals[k])
        },
{
    let tk = keys.take(k + 1);
    let tv = vals.take(k + 1);
    assert(tk.last() == keys[k]);
    assert(tv.last() == vals[k]);
    assert(tk.drop_last() =~= keys.take(k));
    assert(tv.drop_last() =~= vals.take(k));
    if k == 0 {
        assert(tk[0] == keys[0]);
        assert(tv[0] == vals[0]);
    }
}

/// Append one series line to `out`.
fn series_line_into(out: &mut Vec<u8>, name: &Vec<u8>, keys: &Vec<Vec<u8>>, ser: &Series)
    requires
        ser@.label_values.len() == keys@.len(),
    ensures
        final(out)@ == old(out)@ + series_line(name@, views_of(keys@), ser@),
{
    let ghost base = out@;
    let ghost gkeys = views_of(keys@);
    let ghost gvals = ser@.label_values;
    push_all(out, name);
    if keys.len() == 0 {
        out.push(B_SPACE);
        push_all(out, ser.value.text());
        out.push(B_NEWLINE);
        proof {
            assert(out@ =~= base + series_line(name@, gkeys, ser@));
        }
        return ;
    }
    out.push(B_LBRACE);
    let ghost mid = out@;
    let mut k: usize = 0;
    while k < keys.len()
        invariant
            k <= keys@.len(),
            keys@.len() == ser.label_values@.len(),
            gkeys == views_of(keys@),
            gvals == views_of(ser.label_values@),
            out@ == mid + labels_body(gkeys.take(k as int), gvals.take(k as int)),
        decreases keys.len() - k,
    {
        if k > 0 {
            out.push(B_COMMA);
        }
        push_all(out, &keys[k]);
        out.push(B_EQ);
        out.push(B_QUOTE);
        escape_into(out, &ser.label_values[k]);
        out.push(B_QUOTE);
        proof {
            lemma_labels_body_step(gkeys, gvals, k as int);
            assert(gkeys[k as int] == keys@[k as int]@);
            assert(gvals[k as int] == ser.label_values@[k as int]@);
            assert(out@ =~= mid + labels_body(gkeys.take(k + 1 as int), gvals.take(k + 1 as int)));
        }
        k = k + 1;
    }
    out.push(B_RBRACE);
    out.push(B_SPACE);
    push_all(out, ser.value.text());
    out.push(B_NEWLINE);
    proof {
        assert(gkeys.take(gkeys.len() as int) =~= gkeys);
        assert(gvals.take(gvals.len() as int) =~= gvals);
        assert(out@ =~= base + series_line(name@, gkeys, ser@));
    }
}

proof fn lemma_metric_text_step(m: MetricModel, j: int)
    requires
        0 <= j < m.series.len(),
    ensures
        metric_text(MetricModel { series: m.series.take(j + 1), ..m }) == metric_text(
            MetricModel { series: m.series.take(j), ..m },
        ) + series_line(m.name, m.label_keys, m.series[j]),
{
    let a = MetricModel { series: m.series.take(j + 1), ..m };
    assert(a.series.last() == m.series[j]);
    assert(a.series.drop_last() =~= m.series.take(j));
}

/// Append every line of one metric to `out`.
fn metric_text_into(out: &mut Vec<u8>, met: &Metric)
    requires
        forall|j: int|
            0 <= j < met@.series.len() ==> (#[trigger] met@.series[j]).label_values.len()
                == met@.label_keys.len(),
    ensures
        final(out)@ == old(out)@ + metric_text(met@),
{
    let ghost base = out@;
    let ghost gm = met@;
    let mut j: usize = 0;
    while j < met.series.len()
        invariant
            j <= met.series@.len(),
            gm == met@,
            forall|t: int|
                0 <= t < gm.series.len() ==> (#[trigger] gm.series[t]).label_values.len()
                    == gm.label_keys.len(),
            out@ == base + metric_text(MetricModel { series: gm.series.take(j as int), ..gm }),
        decreases met.series.len() - j,
    {
        proof {
            assert(met@.series[j as int] == met.series@[j as int]@);
        }
        series_line_into(out, &met.name, &met.label_keys, &met.series[j]);
        proof {
            lemma_metric_text_step(gm, j as int);
        }
        j = j + 1;
    }
    proof {
        assert(gm.series.take(gm.series.len() as int) =~= gm.series);
        assert(MetricModel { series: gm.series.take(gm.series.len() as int), ..gm } == gm);
    }
}

proof fn lemma_snapshot_text_step(ms: Seq<MetricModel>, i: int)
    requires
        0 <= i < ms.len(),
    ensures
        snapshot_text(ms.take(i + 1)) == snapshot_text(ms.take(i)) + metric_text(ms[i]),
{
    assert(ms.take(i + 1).last() == ms[i]);
    assert(ms.take(i + 1).drop_last() =~= ms.take(i));
}

/// Serialize a snapshot into the exposition text. The output is a pure
/// function of the snapshot's contents: calling this twice on the same
/// snapshot yields byte-identical bytes.
pub fn encode(snap: &Snapshot) -> (out: Vec<u8>)
    requires
        forall|i: int|
            0 <= i < snap@.len() ==> forall|j: int|
                0 <= j < (#[trigger] snap@[i]).series.len() ==> (#[trigger] snap@[i].series[
                    j
                ]).label_values.len() == snap@[i].label_keys.len(),
    ensures
        out@ == snapshot_text(snap@),
{
    let mut out: Vec<u8> = Vec::new();
    let mut i: usize = 0;
    while i < snap.metrics.len()
        invariant
            i <= snap.metrics@.len(),
            forall|a: int|
                0 <= a < snap@.len() ==> forall|j: int|
                    0 <= j < (#[trigger] snap@[a]).series.len() ==> (#[trigger] snap@[a].series[
                        j
                    ]).label_values.len() == snap@[a].label_keys.len(),
            out@ == snapshot_text(snap@.take(i as int)),
        decreases snap.metrics.len() - i,
    {
        proof {
            assert(snap@[i as int] == snap.metrics@[i as int]@);
        }
        metric_text_into(&mut out, &snap.metrics[i]);
        proof {
            lemma_snapshot_text_step(snap@, i as int);
        }
        i = i + 1;
    }
    proof {
        assert(snap@.take(snap@.len() as int) =~= snap@);
    }
    out
}

} // verus!
