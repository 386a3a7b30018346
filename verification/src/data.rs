//! Field values and points, and the line-protocol text they encode to.

use vstd::prelude::*;

use crate::decimal::{spec_decimal_chars, Decimal};
use crate::numfmt::{i64_chars, spec_idec, spec_udec, u64_chars};
use crate::text::{
    chars_to_string, escape_chars, escape_quotes_chars, push_all, sort_entries, spec_escape,
    spec_escape_quotes, spec_join_with, spec_sort_entries, lemma_join_with_push,
};

verus! {

/// A field value of a point.
#[derive(Debug)]
pub enum MetricData {
    /// A decimal number, rendered as bare numeric text.
    Float(Decimal),
    /// A signed integer, rendered with a trailing `i`.
    Integer(i64),
    /// An unsigned integer, rendered with a trailing `i`.
    UInteger(u64),
    /// Free text, rendered double quoted.
    String(String),
    /// A truth value, rendered `true` or `false`.
    Boolean(bool),
    /// Nanoseconds since the epoch, rendered as a bare integer.
    Timestamp(i64),
    /// Numeric text from an outside formatter, emitted as it stands.
    Numeric(String),
}

/// The mathematical value of a field.
pub enum MetricDataView {
    /// Billionths of the decimal value.
    Float(int),
    /// A signed integer.
    Integer(int),
    /// An unsigned integer.
    UInteger(int),
    /// The characters of the text.
    Str(Seq<char>),
    /// A truth value.
    Boolean(bool),
    /// Nanoseconds since the epoch.
    Timestamp(int),
    /// The characters of pre-rendered numeric text.
    Numeric(Seq<char>),
}

impl View for MetricData {
    type V = MetricDataView;

    open spec fn view(&self) -> MetricDataView {
        match self {
            MetricData::Float(d) => MetricDataView::Float(d.units as int),
            MetricData::Integer(i) => MetricDataView::Integer(*i as int),
            MetricData::UInteger(u) => MetricDataView::UInteger(*u as int),
            MetricData::String(s) => MetricDataView::Str(s@),
            MetricData::Boolean(b) => MetricDataView::Boolean(*b),
            MetricData::Timestamp(t) => MetricDataView::Timestamp(*t as int),
            MetricData::Numeric(s) => MetricDataView::Numeric(s@),
        }
    }
}

impl DeepView for MetricData {
    type V = MetricDataView;

    open spec fn deep_view(&self) -> MetricDataView {
        self.view()
    }
}

/// The text of a field value: numbers bare, integers with a trailing
/// `i`, text double quoted with inner quotes escaped, truth values
/// spelled out, timestamps as bare nanosecond counts.
pub open spec fn spec_value_chars(v: MetricDataView) -> Seq<char> {
    match v {
        MetricDataView::Float(u) => spec_decimal_chars(u),
        MetricDataView::Integer(i) => spec_idec(i) + seq!['i'],
        MetricDataView::UInteger(u) => spec_udec(u as nat) + seq!['i'],
        MetricDataView::Str(s) => seq!['"'] + spec_escape_quotes(s) + seq!['"'],
        MetricDataView::Boolean(b) => if b {
            seq!['t', 'r', 'u', 'e']
        } else {
            seq!['f', 'a', 'l', 's', 'e']
        },
        MetricDataView::Timestamp(t) => spec_idec(t),
        MetricDataView::Numeric(s) => s,
    }
}

/// Renders one field value as line-protocol text.
pub fn value_chars(v: &MetricData) -> (out: Vec<char>)
    ensures
        out@ == spec_value_chars(v@),
{
    match v {
        MetricData::Float(d) => d.chars(),
        MetricData::Integer(i) => {
            let mut out = i64_chars(*i);
            out.push('i');
            assert(out@ =~= spec_idec(*i as int) + seq!['i']);
            out
        },
        MetricData::UInteger(u) => {
            let mut out = u64_chars(*u);
            out.push('i');
            assert(out@ =~= spec_udec(*u as nat) + seq!['i']);
            out
        },
        MetricData::String(s) => {
            let mut out: Vec<char> = Vec::new();
            out.push('"');
            let body = escape_quotes_chars(s.as_str());
            push_all(&mut out, &body);
            out.push('"');
            assert(out@ =~= seq!['"'] + spec_escape_quotes(s@) + seq!['"']);
            out
        },
        MetricData::Boolean(b) => {
            let mut out: Vec<char> = Vec::new();
            if *b {
                out.push('t');
                out.push('r');
                out.push('u');
                out.push('e');
                assert(out@ =~= seq!['t', 'r', 'u', 'e']);
            } else {
                out.push('f');
                out.push('a');
                out.push('l');
                out.push('s');
                out.push('e');
                assert(out@ =~= seq!['f', 'a', 'l', 's', 'e']);
            }
            out
        },
        MetricData::Timestamp(t) => i64_chars(*t),
        MetricData::Numeric(s) => crate::text::str_chars(s.as_str()),
    }
}

/// Copies a field value; the copy has the same mathematical value.
pub fn clone_data(v: &MetricData) -> (r: MetricData)
    ensures
        r@ == v@,
{
    match v {
        MetricData::Float(d) => MetricData::Float(Decimal { units: d.units }),
        MetricData::Integer(i) => MetricData::Integer(*i),
        MetricData::UInteger(u) => MetricData::UInteger(*u),
        MetricData::String(s) => MetricData::String(s.clone()),
        MetricData::Boolean(b) => MetricData::Boolean(*b),
        MetricData::Timestamp(t) => MetricData::Timestamp(*t),
        MetricData::Numeric(s) => MetricData::Numeric(s.clone()),
    }
}

/// One fully resolved point: measurement name, tags, fields and a
/// timestamp in nanoseconds since the epoch.
#[derive(Debug)]
pub struct InfluxMetric {
    /// The measurement name.
    pub name: String,
    /// Nanoseconds since the epoch.
    pub timestamp: i64,
    /// Field keys and values, in insertion order.
    pub fields: Vec<(String, MetricData)>,
    /// Tag keys and values, in insertion order.
    pub tags: Vec<(String, String)>,
}

/// The text of one tag: escaped key, `=`, escaped value.
pub open spec fn spec_tag_chars(t: (Seq<char>, Seq<char>)) -> Seq<char> {
    spec_escape(t.0) + seq!['='] + spec_escape(t.1)
}

/// The text of one field: escaped key, `=`, the value's text.
pub open spec fn spec_field_chars(f: (Seq<char>, MetricDataView)) -> Seq<char> {
    spec_escape(f.0) + seq!['='] + spec_value_chars(f.1)
}

/// The full line for one point: escaped name; the tags sorted by key,
/// each preceded by a comma; a space and the fields sorted by key,
/// comma separated, when there are any; a space and the timestamp.
pub open spec fn spec_metric_line(
    name: Seq<char>,
    tags: Seq<(Seq<char>, Seq<char>)>,
    fields: Seq<(Seq<char>, MetricDataView)>,
    ts: int,
) -> Seq<char> {
    let st = spec_sort_entries(tags);
    let sf = spec_sort_entries(fields);
    spec_escape(name) + (if st.len() == 0 {
        Seq::<char>::empty()
    } else {
        seq![','] + spec_join_with(st.map_values(|t: (Seq<char>, Seq<char>)| spec_tag_chars(t)), ',')
    }) + (if sf.len() == 0 {
        Seq::<char>::empty()
    } else {
        seq![' '] + spec_join_with(
            sf.map_values(|f: (Seq<char>, MetricDataView)| spec_field_chars(f)),
            ',',
        )
    }) + seq![' '] + spec_idec(ts)
}

/// Copies a tag list; the copy reads the same.
pub fn clone_tags(tags: &Vec<(String, String)>) -> (out: Vec<(String, String)>)
    ensures
        out.deep_view() == tags.deep_view(),
{
    let mut out: Vec<(String, String)> = Vec::new();
    let mut i: usize = 0;
    while i < tags.len()
        invariant
            i <= tags@.len(),
            out@.len() == i,
            out.deep_view() =~= tags.deep_view().take(i as int),
        decreases tags@.len() - i,
    {
        let k = tags[i].0.clone();
        let v = tags[i].1.clone();
        let ghost kk = k@;
        let ghost vv = v@;
        out.push((k, v));
        proof {
            assert(out.deep_view()[i as int] == (kk, vv));
            assert(tags.deep_view()[i as int] == (tags@[i as int].0@, tags@[i as int].1@));
            assert(out.deep_view() =~~= tags.deep_view().take(i + 1 as int));
        }
        i = i + 1;
    }
    assert(tags.deep_view().take(tags@.len() as int) =~= tags.deep_view());
    out
}

/// Copies a field list; the copy reads the same.
pub fn clone_fields(fields: &Vec<(String, MetricData)>) -> (out: Vec<(String, MetricData)>)
    ensures
        out.deep_view() == fields.deep_view(),
{
    let mut out: Vec<(String, MetricData)> = Vec::new();
    let mut i: usize = 0;
    while i < fields.len()
        invariant
            i <= fields@.len(),
            out@.len() == i,
            out.deep_view() =~= fields.deep_view().take(i as int),
        decreases fields@.len() - i,
    {
        let k = fields[i].0.clone();
        let v = clone_data(&fields[i].1);
        let ghost kk = k@;
        let ghost vv = v@;
        out.push((k, v));
        proof {
            assert(out.deep_view()[i as int] == (kk, vv));
            assert(fields.deep_view()[i as int] == (fields@[i as int].0@, fields@[i as int].1@));
            assert(out.deep_view() =~~= fields.deep_view().take(i + 1 as int));
        }
        i = i + 1;
    }
    assert(fields.deep_view().take(fields@.len() as int) =~= fields.deep_view());
    out
}

impl InfluxMetric {
    /// Encodes this point as one line of line-protocol text.
    pub fn encode(&self) -> (line: String)
        ensures
            line@ == spec_metric_line(
                self.name@,
                self.tags.deep_view(),
                self.fields.deep_view(),
                self.timestamp as int,
            ),
    {
        let st = sort_entries(clone_tags(&self.tags));
        let sf = sort_entries(clone_fields(&self.fields));
        let ghost stv = spec_sort_entries(self.tags.deep_view());
        let ghost sfv = spec_sort_entries(self.fields.deep_view());
        let ghost tag_texts = stv.map_values(|t: (Seq<char>, Seq<char>)| spec_tag_chars(t));
        let ghost field_texts = sfv.map_values(|f: (Seq<char>, MetricDataView)| spec_field_chars(f));

        let mut out = escape_chars(self.name.as_str());
        let ghost base0 = out@;

        if st.len() > 0 {
            out.push(',');
            let ghost base = out@;
            let mut k: usize = 0;
            while k < st.len()
                invariant
                    k <= st@.len(),
                    st.deep_view() == stv,
                    tag_texts == stv.map_values(|t: (Seq<char>, Seq<char>)| spec_tag_chars(t)),
                    out@ == base + spec_join_with(tag_texts.take(k as int), ','),
                    base == base0 + seq![','],
                decreases st@.len() - k,
            {
                if k > 0 {
                    out.push(',');
                }
                let kc = escape_chars(st[k].0.as_str());
                push_all(&mut out, &kc);
                out.push('=');
                let vc = escape_chars(st[k].1.as_str());
                push_all(&mut out, &vc);
                proof {
                    assert(st.deep_view()[k as int] == (st@[k as int].0@, st@[k as int].1@));
                    assert(tag_texts[k as int] == spec_tag_chars(stv[k as int]));
                    lemma_join_with_push(tag_texts.take(k as int), tag_texts[k as int], ',');
                    assert(tag_texts.take(k + 1 as int) =~= tag_texts.take(k as int).push(
                        tag_texts[k as int],
                    ));
                    assert(out@ =~= base + spec_join_with(tag_texts.take(k + 1 as int), ','));
                }
                k = k + 1;
            }
            proof {
                assert(tag_texts.take(tag_texts.len() as int) =~= tag_texts);
            }
        }
        let ghost with_tags = out@;

        if sf.len() > 0 {
            out.push(' ');
            let ghost base = out@;
            let mut k: usize = 0;
            while k < sf.len()
                invariant
                    k <= sf@.len(),
                    sf.deep_view() == sfv,
                    field_texts == sfv.map_values(
                        |f: (Seq<char>, MetricDataView)| spec_field_chars(f),
                    ),
                    out@ == base + spec_join_with(field_texts.take(k as int), ','),
                    base == with_tags + seq![' '],
                decreases sf@.len() - k,
            {
                if k > 0 {
                    out.push(',');
                }
                let kc = escape_chars(sf[k].0.as_str());
                push_all(&mut out, &kc);
                out.push('=');
                let vc = value_chars(&sf[k].1);
                push_all(&mut out, &vc);
                proof {
                    assert(sf.deep_view()[k as int] == (sf@[k as int].0@, sf@[k as int].1@));
                    assert(field_texts[k as int] == spec_field_chars(sfv[k as int]));
                    lemma_join_with_push(field_texts.take(k as int), field_texts[k as int], ',');
                    assert(field_texts.take(k + 1 as int) =~= field_texts.take(k as int).push(
                        field_texts[k as int],
                    ));
                    assert(out@ =~= base + spec_join_with(field_texts.take(k + 1 as int), ','));
                }
                k = k + 1;
            }
            proof {
                assert(field_texts.take(field_texts.len() as int) =~= field_texts);
            }
        }

        out.push(' ');
        let ts = i64_chars(self.timestamp);
        push_all(&mut out, &ts);
        proof {
            assert(out@ =~= spec_metric_line(
                self.name@,
                self.tags.deep_view(),
                self.fields.deep_view(),
                self.timestamp as int,
            ));
        }
        chars_to_string(&out)
    }
}

/// Escapes spaces, commas and equals signs with backslashes.
pub fn escape_string(s: &str) -> (r: String)
    ensures
        r@ == spec_escape(s@),
{
    let v = escape_chars(s);
    chars_to_string(&v)
}

} // verus!
