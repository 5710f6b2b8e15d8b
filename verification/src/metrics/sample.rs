//! One figure as text.
use crate::text::{chars_of, decimal, decimal_text};
use vstd::prelude::*;

verus! {

/// What kind of figure a name stands for.
#[derive(Clone, Copy, Debug, PartialEq, Eq, Structural)]
pub enum MetricKind {
    Gauge,
    Counter,
}

impl MetricKind {
    /// The name of a kind.
    pub open spec fn name(self) -> Seq<char> {
        match self {
            MetricKind::Gauge => "gauge"@,
            MetricKind::Counter => "counter"@,
        }
    }

    /// The name of a kind.
    pub fn as_str(self) -> (name: &'static str)
        ensures
            name@ == self.name(),
    {
        match self {
            MetricKind::Gauge => "gauge",
            MetricKind::Counter => "counter",
        }
    }
}

#[derive(Clone, Debug)]
pub struct Label {
    pub key: &'static str,
    pub value: String,
}

/// A figure. Where `kind` is set, the kind of the name is declared ahead of it.
#[derive(Clone, Debug)]
pub struct Sample {
    pub name: &'static str,
    pub labels: Vec<Label>,
    pub value: String,
    pub kind: Option<MetricKind>,
}

/// A figure as plain values.
pub struct SampleView {
    pub name: Seq<char>,
    pub labels: Seq<(Seq<char>, Seq<char>)>,
    pub value: Seq<char>,
    pub kind: Option<MetricKind>,
}

/// Labels as plain values.
pub open spec fn label_views(labels: Seq<Label>) -> Seq<(Seq<char>, Seq<char>)> {
    labels.map_values(|label: Label| (label.key@, label.value@))
}

impl View for Sample {
    type V = SampleView;

    open spec fn view(&self) -> SampleView {
        SampleView {
            name: self.name@,
            labels: label_views(self.labels@),
            value: self.value@,
            kind: self.kind,
        }
    }
}

/// Figures as plain values.
pub open spec fn sample_views(samples: Seq<Sample>) -> Seq<SampleView> {
    samples.map_values(|sample: Sample| sample@)
}

/// A character of a label.
pub open spec fn escaped_char(c: char) -> Seq<char> {
    if c == '\\' {
        seq!['\\', '\\']
    } else if c == '"' {
        seq!['\\', '"']
    } else if c == '\n' {
        seq!['\\', 'n']
    } else {
        seq![c]
    }
}

/// The value of a label: backslashes, quotes and line ends are escaped.
pub open spec fn escaped(s: Seq<char>) -> Seq<char>
    decreases s.len(),
{
    if s.len() == 0 {
        Seq::empty()
    } else {
        escaped(s.drop_last()) + escaped_char(s.last())
    }
}

/// Labels between commas.
pub open spec fn labels_text(labels: Seq<(Seq<char>, Seq<char>)>) -> Seq<char>
    decreases labels.len(),
{
    if labels.len() == 0 {
        Seq::empty()
    } else {
        let before = labels_text(labels.drop_last());
        let (key, value) = labels.last();
        (if labels.len() > 1 {
            before.push(',')
        } else {
            before
        }) + key + seq!['=', '"'] + escaped(value) + seq!['"']
    }
}

/// A figure as text.
pub open spec fn sample_text(sample: SampleView) -> Seq<char> {
    let head = match sample.kind {
        Some(kind) => "# TYPE "@ + sample.name + seq![' '] + kind.name() + seq!['\n'],
        None => Seq::empty(),
    };
    let labels = if sample.labels.len() == 0 {
        Seq::empty()
    } else {
        seq!['{'] + labels_text(sample.labels) + seq!['}']
    };
    head + sample.name + labels + seq![' '] + sample.value + seq!['\n']
}

/// Figures as text.
pub open spec fn samples_text(samples: Seq<SampleView>) -> Seq<char>
    decreases samples.len(),
{
    if samples.len() == 0 {
        Seq::empty()
    } else {
        samples_text(samples.drop_last()) + sample_text(samples.last())
    }
}

/// Appends the value of a label.
pub fn push_escaped_label(out: &mut String, value: &str)
    ensures
        final(out)@ == old(out)@ + escaped(value@),
{
    let chars = chars_of(value);
    let ghost start = out@;
    let mut i: usize = 0;
    assert(start + escaped(chars@.take(0)) =~= start);
    while i < chars.len()
        invariant
            i <= chars.len(),
            out@ == start + escaped(chars@.take(i as int)),
        decreases chars.len() - i,
    {
        assert(chars@.take(i + 1).drop_last() =~= chars@.take(i as int));
        assert(chars@.take(i + 1).last() == chars@[i as int]);
        let c = chars[i];
        if c == '\\' {
            out.push('\\');
            out.push('\\');
        } else if c == '"' {
            out.push('\\');
            out.push('"');
        } else if c == '\n' {
            out.push('\\');
            out.push('n');
        } else {
            out.push(c);
        }
        assert(out@ =~= start + escaped(chars@.take(i + 1)));
        i += 1;
    }
    assert(chars@.take(chars@.len() as int) =~= chars@);
}

fn push_labels(out: &mut String, labels: &[Label])
    ensures
        final(out)@ == old(out)@ + labels_text(label_views(labels@)),
{
    let ghost views = label_views(labels@);
    let ghost start = out@;
    let mut i: usize = 0;
    assert(start + labels_text(views.take(0)) =~= start);
    while i < labels.len()
        invariant
            i <= labels.len(),
            views == label_views(labels@),
            out@ == start + labels_text(views.take(i as int)),
        decreases labels.len() - i,
    {
        assert(views.take(i + 1).drop_last() =~= views.take(i as int));
        assert(views.take(i + 1).last() == (labels@[i as int].key@, labels@[i as int].value@));
        if i > 0 {
            out.push(',');
        }
        out.append(labels[i].key);
        out.push('=');
        out.push('"');
        push_escaped_label(out, labels[i].value.as_str());
        out.push('"');
        assert(out@ =~= start + labels_text(views.take(i + 1)));
        i += 1;
    }
    assert(views.take(views.len() as int) =~= views);
}

/// Appends a figure.
pub fn push_sample(out: &mut String, sample: &Sample)
    ensures
        final(out)@ == old(out)@ + sample_text(sample@),
{
    let ghost start = out@;
    if let Some(kind) = sample.kind {
        out.append("# TYPE ");
        out.append(sample.name);
        out.push(' ');
        out.append(kind.as_str());
        out.push('\n');
    }
    let ghost head = match sample.kind {
        Some(kind) => "# TYPE "@ + sample.name@ + seq![' '] + kind.name() + seq!['\n'],
        None => Seq::empty(),
    };
    assert(out@ =~= start + head);
    out.append(sample.name);
    assert(sample@.labels.len() == sample.labels@.len());
    if sample.labels.len() > 0 {
        out.push('{');
        push_labels(out, sample.labels.as_slice());
        out.push('}');
    }
    out.push(' ');
    out.append(sample.value.as_str());
    out.push('\n');
    assert(out@ =~= start + sample_text(sample@));
}

/// Figures as text.
pub fn render_samples(samples: &[Sample]) -> (out: String)
    ensures
        out@ == samples_text(sample_views(samples@)),
{
    let mut out = String::new();
    let ghost views = sample_views(samples@);
    let mut i: usize = 0;
    assert(out@ =~= samples_text(views.take(0)));
    while i < samples.len()
        invariant
            i <= samples.len(),
            views == sample_views(samples@),
            out@ == samples_text(views.take(i as int)),
        decreases samples.len() - i,
    {
        assert(views.take(i + 1).drop_last() =~= views.take(i as int));
        assert(views.take(i + 1).last() == samples@[i as int]@);
        push_sample(&mut out, &samples[i]);
        i += 1;
    }
    assert(views.take(views.len() as int) =~= views);
    out
}

/// A whole figure without labels.
pub open spec fn plain(name: Seq<char>, value: u64, kind: MetricKind) -> SampleView {
    SampleView {
        name,
        labels: Seq::empty(),
        value: decimal(value as nat),
        kind: Some(kind),
    }
}

/// A whole figure with one label.
pub open spec fn labelled(
    name: Seq<char>,
    key: Seq<char>,
    label: Seq<char>,
    value: u64,
    kind: Option<MetricKind>,
) -> SampleView {
    SampleView { name, labels: seq![(key, label)], value: decimal(value as nat), kind }
}

/// A figure without labels whose value is given as text.
pub open spec fn written(name: Seq<char>, value: Seq<char>, kind: MetricKind) -> SampleView {
    SampleView { name, labels: Seq::empty(), value, kind: Some(kind) }
}

/// Adds a whole figure without labels.
pub fn push_plain(out: &mut Vec<Sample>, name: &'static str, value: u64, kind: MetricKind)
    ensures
        sample_views(final(out)@) == sample_views(old(out)@).push(plain(name@, value, kind)),
{
    push_written(out, name, decimal_text(value), kind);
}

/// Adds a figure without labels whose value is given as text.
pub fn push_written(out: &mut Vec<Sample>, name: &'static str, value: String, kind: MetricKind)
    ensures
        sample_views(final(out)@) == sample_views(old(out)@).push(written(name@, value@, kind)),
{
    let labels: Vec<Label> = Vec::new();
    assert(label_views(labels@) =~= Seq::<(Seq<char>, Seq<char>)>::empty());
    let sample = Sample { name, labels, value, kind: Some(kind) };
    let ghost view = sample@;
    let ghost before = out@;
    out.push(sample);
    assert(sample_views(out@) =~= sample_views(before).push(view));
}

/// Adds a whole figure with one label.
pub fn push_labelled(
    out: &mut Vec<Sample>,
    name: &'static str,
    key: &'static str,
    label: &str,
    value: u64,
    kind: Option<MetricKind>,
)
    ensures
        sample_views(final(out)@) == sample_views(old(out)@).push(
            labelled(name@, key@, label@, value, kind),
        ),
{
    let mut labels: Vec<Label> = Vec::new();
    labels.push(Label { key, value: String::from_str(label) });
    assert(label_views(labels@) =~= seq![(key@, label@)]);
    let sample = Sample { name, labels, value: decimal_text(value), kind };
    let ghost view = sample@;
    let ghost before = out@;
    out.push(sample);
    assert(sample_views(out@) =~= sample_views(before).push(view));
}

// ---------------------------------------------------------------------------
// Laws
// ---------------------------------------------------------------------------

/// The text that an escaped text stands for.
pub open spec fn unescaped(s: Seq<char>) -> Seq<char>
    decreases s.len(),
{
    if s.len() == 0 {
        Seq::empty()
    } else if s[0] == '\\' && s.len() > 1 {
        seq![
            if s[1] == 'n' {
                '\n'
            } else {
                s[1]
            },
        ] + unescaped(s.skip(2))
    } else {
        seq![s[0]] + unescaped(s.skip(1))
    }
}

proof fn lemma_escaped_front(c: char, rest: Seq<char>)
    ensures
        escaped(seq![c] + rest) == escaped_char(c) + escaped(rest),
    decreases rest.len(),
{
    let whole = seq![c] + rest;
    if rest.len() == 0 {
        assert(whole.drop_last() =~= Seq::<char>::empty());
        assert(whole.last() == c);
        assert(escaped(whole.drop_last()) =~= Seq::<char>::empty());
        assert(escaped(whole) =~= escaped_char(c) + escaped(rest));
    } else {
        lemma_escaped_front(c, rest.drop_last());
        assert(whole.drop_last() =~= seq![c] + rest.drop_last());
        assert(whole.last() == rest.last());
        assert(escaped(whole) =~= escaped_char(c) + escaped(rest));
    }
}

/// The value of a label can be read back from its escaped form, and holds no line
/// end there.
pub proof fn law_labels_read_back(s: Seq<char>)
    ensures
        unescaped(escaped(s)) == s,
        forall|i: int| 0 <= i < escaped(s).len() ==> #[trigger] escaped(s)[i] != '\n',
    decreases s.len(),
{
    if s.len() > 0 {
        let c = s[0];
        let rest = s.skip(1);
        assert(s =~= seq![c] + rest);
        lemma_escaped_front(c, rest);
        law_labels_read_back(rest);
        let e = escaped(s);
        let tail = escaped(rest);
        if c == '\\' || c == '"' || c == '\n' {
            assert(e.skip(2) =~= tail);
        } else {
            assert(e.skip(1) =~= tail);
        }
        assert forall|i: int| 0 <= i < e.len() implies #[trigger] e[i] != '\n' by {
            let n = escaped_char(c).len();
            if i >= n {
                assert(e[i] == tail[i - n]);
            }
        }
        assert(unescaped(e) =~= s);
    }
}

/// A figure without labels is its name and its value on a line; where its kind is declared, a
/// line ahead of it says so.
pub proof fn law_figure_is_a_line(name: Seq<char>, value: Seq<char>)
    ensures
        sample_text(SampleView { name, labels: Seq::empty(), value, kind: None }) == name + " "@
            + value + "\n"@,
        sample_text(written(name, value, MetricKind::Gauge)) == "# TYPE "@ + name + " "@ + "gauge"@
            + "\n"@ + name + " "@ + value + "\n"@,
        sample_text(written(name, value, MetricKind::Counter)) == "# TYPE "@ + name + " "@
            + "counter"@ + "\n"@ + name + " "@ + value + "\n"@,
{
    reveal_strlit(" ");
    reveal_strlit("\n");
    assert(" "@ =~= seq![' ']);
    assert("\n"@ =~= seq!['\n']);
    let bare = SampleView { name, labels: Seq::empty(), value, kind: None };
    assert(sample_text(bare) =~= name + " "@ + value + "\n"@);
    assert(sample_text(written(name, value, MetricKind::Gauge)) =~= "# TYPE "@ + name + " "@
        + "gauge"@ + "\n"@ + name + " "@ + value + "\n"@);
    assert(sample_text(written(name, value, MetricKind::Counter)) =~= "# TYPE "@ + name + " "@
        + "counter"@ + "\n"@ + name + " "@ + value + "\n"@);
}

/// A label stands in braces behind the name, with its value in quotes.
pub proof fn law_labels_stand_in_braces(name: Seq<char>, key: Seq<char>, label: Seq<char>, n: u64)
    ensures
        sample_text(labelled(name, key, label, n, None)) == name + "{"@ + key + "=\""@ + escaped(
            label,
        ) + "\"} "@ + decimal(n as nat) + "\n"@,
{
    reveal_strlit("{");
    reveal_strlit("=\"");
    reveal_strlit("\"} ");
    reveal_strlit("\n");
    assert("{"@ =~= seq!['{']);
    assert("=\""@ =~= seq!['=', '"']);
    assert("\"} "@ =~= seq!['"'] + seq!['}'] + seq![' ']);
    assert("\n"@ =~= seq!['\n']);
    let labels = seq![(key, label)];
    assert(labels.drop_last() =~= Seq::<(Seq<char>, Seq<char>)>::empty());
    reveal_with_fuel(labels_text, 2);
    assert(labels_text(labels) =~= key + seq!['=', '"'] + escaped(label) + seq!['"']);
    assert(sample_text(labelled(name, key, label, n, None)) =~= name + "{"@ + key + "=\""@
        + escaped(label) + "\"} "@ + decimal(n as nat) + "\n"@);
}

/// Several labels stand in their order with commas between them.
pub proof fn law_labels_stand_in_order(
    labels: Seq<(Seq<char>, Seq<char>)>,
    key: Seq<char>,
    value: Seq<char>,
)
    requires
        labels.len() > 0,
    ensures
        labels_text(labels.push((key, value))) == labels_text(labels) + ","@ + key + "=\""@
            + escaped(value) + "\""@,
{
    reveal_strlit(",");
    reveal_strlit("=\"");
    reveal_strlit("\"");
    assert(","@ =~= seq![',']);
    assert("=\""@ =~= seq!['=', '"']);
    assert("\""@ =~= seq!['"']);
    assert(labels.push((key, value)).drop_last() =~= labels);
    assert(labels_text(labels.push((key, value))) =~= labels_text(labels) + ","@ + key + "=\""@
        + escaped(value) + "\""@);
}

/// Figures stand in their order, one behind the other.
pub proof fn law_figures_stand_in_order(samples: Seq<SampleView>, sample: SampleView)
    ensures
        samples_text(Seq::empty()) == Seq::<char>::empty(),
        samples_text(samples.push(sample)) == samples_text(samples) + sample_text(sample),
{
    assert(samples.push(sample).drop_last() =~= samples);
}

} // verus!
