//! Laws that tie the codecs, the mapping and the key projection together.
use vstd::prelude::*;

use crate::attribute::{AttrView, CodecError, MappingErrorView};
use crate::codec::{
    admits, decode_value, decode_variant, encode_value, labels_distinct, type_wf, variant_of,
    FieldTypeView, ValueView,
};
use crate::mapping::{conforms, key_values, read_record, record_map};
use crate::number::lemma_decimal_round_trip;
use crate::schema::{
    field_names, key_fields, names_distinct, record_wf, FieldView, ItemSchema, KeyRole,
};

verus! {

/// Decoding the label of variant `k` gives back `k`, and a variant only ever
/// decodes from its own label.
pub proof fn lemma_enum_round_trip(labels: Seq<Seq<char>>, k: nat, a: AttrView)
    requires
        labels_distinct(labels),
        k < labels.len(),
    ensures
        decode_variant(labels, AttrView::S(labels[k as int])) == Ok::<nat, CodecError>(k),
        decode_variant(labels, a) == Ok::<nat, CodecError>(k) ==> a == AttrView::S(
            labels[k as int],
        ),
{
    let s = labels[k as int];
    assert(labels[k as int] == s);
    let c = choose|j: int| 0 <= j < labels.len() && #[trigger] labels[j] == s;
    assert(labels[c] == labels[k as int]);
    if let AttrView::S(t) = a {
        if variant_of(labels, t) == Some(k) {
            let d = choose|j: int| 0 <= j < labels.len() && #[trigger] labels[j] == t;
            assert(d == k);
        }
    }
}

/// Decoding what a value of a type was encoded as gives the value back.
pub proof fn lemma_codec_round_trip(t: FieldTypeView, v: ValueView)
    requires
        type_wf(t),
        admits(t, v),
    ensures
        decode_value(t, encode_value(t, v)) == Ok::<ValueView, CodecError>(v),
{
    if let FieldTypeView::Enum(labels) = t {
        if let ValueView::Variant(k) = v {
            lemma_enum_round_trip(labels, k, AttrView::S(labels[k as int]));
        }
    }
    if let ValueView::Num(n) = v {
        lemma_decimal_round_trip(n as nat);
    }
}

/// The attribute map of a record binds each field's name to its encoded value,
/// and nothing else; it has one entry per field.
pub proof fn lemma_record_map_entries(fs: Seq<FieldView>, vs: Seq<ValueView>)
    requires
        names_distinct(fs),
        fs.len() == vs.len(),
    ensures
        forall|i: int|
            0 <= i < fs.len() ==> #[trigger] record_map(fs, vs).contains_key(fs[i].name)
                && record_map(fs, vs)[fs[i].name] == encode_value(fs[i].ty, vs[i]),
        forall|k: Seq<char>|
            #[trigger] record_map(fs, vs).contains_key(k) ==> exists|i: int|
                0 <= i < fs.len() && #[trigger] fs[i].name == k,
        record_map(fs, vs).dom().finite(),
        record_map(fs, vs).dom().len() == fs.len(),
    decreases fs.len(),
{
    if fs.len() > 0 {
        let rest = fs.drop_first();
        assert(names_distinct(rest)) by {
            assert forall|a: int, b: int|
                0 <= a < rest.len() && 0 <= b < rest.len() && a != b implies #[trigger] rest[a].name
                    != #[trigger] rest[b].name by {
                assert(rest[a] == fs[a + 1] && rest[b] == fs[b + 1]);
            }
        }
        lemma_record_map_entries(rest, vs.drop_first());
        let m = record_map(rest, vs.drop_first());
        assert forall|i: int| 0 <= i < fs.len() implies #[trigger] record_map(fs, vs).contains_key(
            fs[i].name,
        ) && record_map(fs, vs)[fs[i].name] == encode_value(fs[i].ty, vs[i]) by {
            if i > 0 {
                assert(fs[i] == rest[i - 1]);
                assert(vs[i] == vs.drop_first()[i - 1]);
                assert(fs[i].name != fs[0].name);
            }
        }
        assert forall|k: Seq<char>| #[trigger] record_map(fs, vs).contains_key(k) implies exists|i: int|
            0 <= i < fs.len() && #[trigger] fs[i].name == k by {
            if k != fs[0].name {
                assert(m.contains_key(k));
                let j = choose|j: int| 0 <= j < rest.len() && #[trigger] rest[j].name == k;
                assert(fs[j + 1].name == k);
            } else {
                assert(fs[0].name == k);
            }
        }
        assert(!m.contains_key(fs[0].name)) by {
            if m.contains_key(fs[0].name) {
                let j = choose|j: int| 0 <= j < rest.len() && #[trigger] rest[j].name == fs[0].name;
                assert(fs[j + 1].name == fs[0].name);
            }
        }
        assert(record_map(fs, vs).dom() =~= m.dom().insert(fs[0].name));
    } else {
        assert(record_map(fs, vs).dom() =~= Set::<Seq<char>>::empty());
    }
}

/// A map that holds every field of a record, encoded, reads back as that
/// record, whatever else it holds.
pub proof fn lemma_read_back(fs: Seq<FieldView>, vs: Seq<ValueView>, m: Map<Seq<char>, AttrView>)
    requires
        record_wf(fs),
        conforms(fs, vs),
        forall|i: int|
            0 <= i < fs.len() ==> #[trigger] m.contains_key(fs[i].name) && m[fs[i].name]
                == encode_value(fs[i].ty, vs[i]),
    ensures
        read_record(fs, m) == Ok::<Seq<ValueView>, MappingErrorView>(vs),
    decreases fs.len(),
{
    if fs.len() > 0 {
        assert(m.contains_key(fs[0].name));
        assert(type_wf(fs[0].ty));
        assert(admits(fs[0].ty, vs[0]));
        lemma_codec_round_trip(fs[0].ty, vs[0]);
        let rest = fs.drop_first();
        let rvs = vs.drop_first();
        let m2 = m.remove(fs[0].name);
        assert forall|a: int, b: int|
            0 <= a < rest.len() && 0 <= b < rest.len() && a != b implies #[trigger] rest[a].name
                != #[trigger] rest[b].name by {
            assert(rest[a] == fs[a + 1] && rest[b] == fs[b + 1]);
        }
        assert forall|i: int| 0 <= i < rest.len() implies type_wf(#[trigger] rest[i].ty) by {
            assert(rest[i] == fs[i + 1]);
        }
        assert forall|i: int| 0 <= i < rest.len() implies admits(rest[i].ty, #[trigger] rvs[i]) by {
            assert(rest[i] == fs[i + 1] && rvs[i] == vs[i + 1]);
        }
        assert forall|i: int| 0 <= i < rest.len() implies #[trigger] m2.contains_key(rest[i].name)
            && m2[rest[i].name] == encode_value(rest[i].ty, rvs[i]) by {
            assert(rest[i] == fs[i + 1] && rvs[i] == vs[i + 1]);
            assert(fs[i + 1].name != fs[0].name);
            assert(m.contains_key(fs[i + 1].name));
        }
        lemma_read_back(rest, rvs, m2);
        assert(seq![vs[0]] + rvs =~= vs);
    } else {
        assert(vs =~= seq![]);
    }
}

/// Reading a record back from its own attribute map gives the record.
pub proof fn lemma_round_trip(fs: Seq<FieldView>, vs: Seq<ValueView>)
    requires
        record_wf(fs),
        conforms(fs, vs),
    ensures
        read_record(fs, record_map(fs, vs)) == Ok::<Seq<ValueView>, MappingErrorView>(vs),
{
    lemma_record_map_entries(fs, vs);
    lemma_read_back(fs, vs, record_map(fs, vs));
}

/// A key that names no field does not disturb reading a record back.
pub proof fn lemma_unknown_key_ignored(
    fs: Seq<FieldView>,
    vs: Seq<ValueView>,
    k: Seq<char>,
    a: AttrView,
)
    requires
        record_wf(fs),
        conforms(fs, vs),
        !field_names(fs).contains(k),
    ensures
        read_record(fs, record_map(fs, vs).insert(k, a)) == Ok::<Seq<ValueView>, MappingErrorView>(
            vs,
        ),
{
    lemma_record_map_entries(fs, vs);
    let m = record_map(fs, vs).insert(k, a);
    assert forall|i: int| 0 <= i < fs.len() implies #[trigger] m.contains_key(fs[i].name)
        && m[fs[i].name] == encode_value(fs[i].ty, vs[i]) by {
        assert(field_names(fs)[i] == fs[i].name);
    }
    lemma_read_back(fs, vs, m);
}

/// With the fields before `i` present and encoded, and field `i` absent, the
/// read fails on field `i` as missing.
proof fn lemma_first_missing(
    fs: Seq<FieldView>,
    vs: Seq<ValueView>,
    m: Map<Seq<char>, AttrView>,
    i: int,
)
    requires
        record_wf(fs),
        conforms(fs, vs),
        0 <= i < fs.len(),
        forall|j: int|
            0 <= j < i ==> #[trigger] m.contains_key(fs[j].name) && m[fs[j].name] == encode_value(
                fs[j].ty,
                vs[j],
            ),
        !m.contains_key(fs[i].name),
    ensures
        read_record(fs, m) == Err::<Seq<ValueView>, MappingErrorView>(
            MappingErrorView::MissingField(fs[i].name),
        ),
    decreases i,
{
    if i > 0 {
        assert(m.contains_key(fs[0].name));
        assert(type_wf(fs[0].ty));
        assert(admits(fs[0].ty, vs[0]));
        lemma_codec_round_trip(fs[0].ty, vs[0]);
        let rest = fs.drop_first();
        let rvs = vs.drop_first();
        let m2 = m.remove(fs[0].name);
        assert forall|a: int, b: int|
            0 <= a < rest.len() && 0 <= b < rest.len() && a != b implies #[trigger] rest[a].name
                != #[trigger] rest[b].name by {
            assert(rest[a] == fs[a + 1] && rest[b] == fs[b + 1]);
        }
        assert forall|j: int| 0 <= j < rest.len() implies type_wf(#[trigger] rest[j].ty) by {
            assert(rest[j] == fs[j + 1]);
        }
        assert forall|j: int| 0 <= j < rest.len() implies admits(rest[j].ty, #[trigger] rvs[j]) by {
            assert(rest[j] == fs[j + 1] && rvs[j] == vs[j + 1]);
        }
        assert forall|j: int| 0 <= j < i - 1 implies #[trigger] m2.contains_key(rest[j].name)
            && m2[rest[j].name] == encode_value(rest[j].ty, rvs[j]) by {
            assert(rest[j] == fs[j + 1] && rvs[j] == vs[j + 1]);
            assert(fs[j + 1].name != fs[0].name);
            assert(m.contains_key(fs[j + 1].name));
        }
        assert(rest[i - 1] == fs[i]);
        lemma_first_missing(rest, rvs, m2, i - 1);
    }
}

/// Taking any one field out of a record's attribute map makes the read fail
/// with that field missing.
pub proof fn lemma_missing_field(fs: Seq<FieldView>, vs: Seq<ValueView>, i: int)
    requires
        record_wf(fs),
        conforms(fs, vs),
        0 <= i < fs.len(),
    ensures
        read_record(fs, record_map(fs, vs).remove(fs[i].name)) == Err::<
            Seq<ValueView>,
            MappingErrorView,
        >(MappingErrorView::MissingField(fs[i].name)),
{
    lemma_record_map_entries(fs, vs);
    let m = record_map(fs, vs).remove(fs[i].name);
    assert forall|j: int| 0 <= j < i implies #[trigger] m.contains_key(fs[j].name) && m[fs[j].name]
        == encode_value(fs[j].ty, vs[j]) by {
        assert(fs[j].name != fs[i].name);
    }
    lemma_first_missing(fs, vs, m, i);
}

/// The key of a record is a record of the key type in its own right. Its
/// attribute map is the record's attribute map cut down to the key fields'
/// names, with one entry for the hash field and one for the range field if
/// there is one, and it reads back as the key.
pub proof fn lemma_key_projection(s: ItemSchema, vs: Seq<ValueView>)
    requires
        s.wf(),
        conforms(s.def.fields_view(), vs),
        s.keys.hash.is_some(),
    ensures
        ({
            let fs = s.def.fields_view();
            let kf = key_fields(fs, s.keys);
            let kv = key_values(vs, s.keys);
            &&& s.key_def matches Some(k) && k.fields_view() == kf
            &&& record_wf(kf)
            &&& conforms(kf, kv)
            &&& record_map(kf, kv) == record_map(fs, vs).restrict(field_names(kf).to_set())
            &&& record_map(kf, kv).dom().len() == (if s.keys.range.is_some() { 2nat } else { 1nat })
            &&& read_record(kf, record_map(kf, kv)) == Ok::<Seq<ValueView>, MappingErrorView>(kv)
        }),
{
    let fs = s.def.fields_view();
    let kf = key_fields(fs, s.keys);
    let kv = key_values(vs, s.keys);
    let h = s.keys.hash.unwrap() as int;
    if let Some(g) = s.keys.range {
        let g = g as int;
        assert(h != g) by {
            if h == g {
                assert(fs[h].role == Some(KeyRole::Hash));
                assert(fs[g].role == Some(KeyRole::Range));
            }
        }
        assert(kf[0] == fs[h] && kf[1] == fs[g]);
        assert(fs[h].name != fs[g].name);
    }
    assert(names_distinct(kf));
    assert(forall|i: int| 0 <= i < kf.len() ==> type_wf(#[trigger] kf[i].ty));
    assert(conforms(kf, kv));
    lemma_record_map_entries(kf, kv);
    lemma_record_map_entries(fs, vs);
    let full = record_map(fs, vs).restrict(field_names(kf).to_set());
    assert forall|k: Seq<char>| #[trigger] full.contains_key(k) == record_map(kf, kv).contains_key(k) by {
        if field_names(kf).contains(k) {
            let j = choose|j: int| 0 <= j < field_names(kf).len() && field_names(kf)[j] == k;
            assert(kf[j].name == k);
        }
        if record_map(kf, kv).contains_key(k) {
            let j = choose|j: int| 0 <= j < kf.len() && #[trigger] kf[j].name == k;
            assert(field_names(kf)[j] == k);
        }
    }
    assert forall|k: Seq<char>| #[trigger] full.contains_key(k) implies full[k] == record_map(kf, kv)[k] by {
        let j = choose|j: int| 0 <= j < kf.len() && #[trigger] kf[j].name == k;
        assert(record_map(kf, kv).contains_key(kf[j].name));
        if j == 0 {
            assert(kf[0] == fs[h] && kv[0] == vs[h]);
            assert(record_map(fs, vs).contains_key(fs[h].name));
        } else {
            let g = s.keys.range.unwrap() as int;
            assert(kf[1] == fs[g] && kv[1] == vs[g]);
            assert(record_map(fs, vs).contains_key(fs[g].name));
        }
    }
    assert(full.dom() =~= record_map(kf, kv).dom());
    assert(forall|k: Seq<char>| #[trigger] full.dom().contains(k) ==> full[k] == record_map(kf, kv)[k]);
    assert(record_map(kf, kv) =~= full);
    lemma_round_trip(kf, kv);
}

} // verus!
