//! Conversion of records to and from attribute maps, and projection onto keys.
use vstd::prelude::*;

use crate::attribute::{AttrView, MappingError, MappingErrorView};
use crate::attribute_map::AttributeMap;
use crate::codec::{admits, decode_value, encode_value, Value, ValueView};
use crate::schema::{key_fields, FieldView, ItemSchema, KeyFields, RecordDef};

verus! {

/// A record: one value per field of its record type, in declaration order.
#[derive(Debug, PartialEq, Eq)]
pub struct Record {
    pub values: Vec<Value>,
}

impl View for Record {
    type V = Seq<ValueView>;

    open spec fn view(&self) -> Seq<ValueView> {
        self.values@.map_values(|v: Value| v@)
    }
}

/// Whether `vs` holds one value of the right type for each field of `fs`.
pub open spec fn conforms(fs: Seq<FieldView>, vs: Seq<ValueView>) -> bool {
    &&& fs.len() == vs.len()
    &&& forall|i: int| 0 <= i < fs.len() ==> admits(fs[i].ty, #[trigger] vs[i])
}

/// The attribute map of a record: each field's name bound to its encoded value.
pub open spec fn record_map(fs: Seq<FieldView>, vs: Seq<ValueView>) -> Map<Seq<char>, AttrView>
    decreases fs.len(),
{
    if fs.len() == 0 || vs.len() == 0 {
        Map::empty()
    } else {
        record_map(fs.drop_first(), vs.drop_first()).insert(
            fs[0].name,
            encode_value(fs[0].ty, vs[0]),
        )
    }
}

/// What reading a record of fields `fs` out of map `m` gives: fields are taken
/// out in order, and the first that is missing or does not decode is the error.
/// Keys of no field are left alone.
pub open spec fn read_record(fs: Seq<FieldView>, m: Map<Seq<char>, AttrView>) -> Result<
    Seq<ValueView>,
    MappingErrorView,
>
    decreases fs.len(),
{
    if fs.len() == 0 {
        Ok(seq![])
    } else if !m.contains_key(fs[0].name) {
        Err(MappingErrorView::MissingField(fs[0].name))
    } else {
        match decode_value(fs[0].ty, m[fs[0].name]) {
            Err(c) => Err(MappingErrorView::InvalidField(fs[0].name, c)),
            Ok(v) => match read_record(fs.drop_first(), m.remove(fs[0].name)) {
                Ok(vs) => Ok(seq![v] + vs),
                Err(e) => Err(e),
            },
        }
    }
}

/// `res` with `p` put in front of its values.
pub open spec fn prefixed(p: Seq<ValueView>, res: Result<Seq<ValueView>, MappingErrorView>) -> Result<
    Seq<ValueView>,
    MappingErrorView,
> {
    match res {
        Ok(vs) => Ok(p + vs),
        Err(e) => Err(e),
    }
}

/// The values of the key fields of a record, in the order of [`key_fields`].
pub open spec fn key_values(vs: Seq<ValueView>, keys: KeyFields) -> Seq<ValueView> {
    match keys.hash {
        Some(h) => match keys.range {
            Some(g) => seq![vs[h as int], vs[g as int]],
            None => seq![vs[h as int]],
        },
        None => seq![],
    }
}

impl RecordDef {
    /// Whether `r` is a record of this type.
    pub fn conforms(&self, r: &Record) -> (b: bool)
        ensures
            b == conforms(self.fields_view(), r@),
    {
        if self.fields.len() != r.values.len() {
            return false;
        }
        let mut i: usize = 0;
        while i < self.fields.len()
            invariant
                i <= self.fields@.len(),
                self.fields@.len() == r.values@.len(),
                forall|j: int| 0 <= j < i ==> admits(self.fields_view()[j].ty, #[trigger] r@[j]),
            decreases self.fields@.len() - i,
        {
            assert(self.fields_view()[i as int] == self.fields@[i as int]@);
            assert(r@[i as int] == r.values@[i as int]@);
            if !self.fields[i].ty.admits(&r.values[i]) {
                return false;
            }
            i = i + 1;
        }
        true
    }

    /// The attribute map of a record of this type. Never fails.
    pub fn to_attributes(&self, r: Record) -> (m: AttributeMap)
        requires
            conforms(self.fields_view(), r@),
        ensures
            m.wf(),
            m@ == record_map(self.fields_view(), r@),
    {
        let ghost fs = self.fields_view();
        let ghost vs = r@;
        let ghost orig = r.values@;
        let n = self.fields.len();
        let mut values = r.values;
        let mut m = AttributeMap::new();
        let mut i: usize = n;
        assert(fs.subrange(n as int, n as int) =~= Seq::<FieldView>::empty());
        while i > 0
            invariant
                fs == self.fields_view(),
                vs == orig.map_values(|v: Value| v@),
                conforms(fs, vs),
                n == fs.len(),
                i <= n,
                values@ == orig.subrange(0, i as int),
                m.wf(),
                m@ == record_map(fs.subrange(i as int, n as int), vs.subrange(i as int, n as int)),
            decreases i,
        {
            let v = values.pop().unwrap();
            i = i - 1;
            assert(v == orig[i as int]);
            assert(admits(fs[i as int].ty, vs[i as int]));
            let a = self.fields[i].ty.encode(v);
            m.insert(self.fields[i].name.clone(), a);
            assert(values@ =~= orig.subrange(0, i as int));
            let ghost fsub = fs.subrange(i as int, n as int);
            let ghost vsub = vs.subrange(i as int, n as int);
            assert(fsub.drop_first() =~= fs.subrange(i + 1, n as int));
            assert(vsub.drop_first() =~= vs.subrange(i + 1, n as int));
        }
        assert(fs.subrange(0, n as int) =~= fs);
        assert(vs.subrange(0, n as int) =~= vs);
        m
    }

    /// Reads a record of this type out of an attribute map, taking each field's
    /// value out in declaration order. A missing field or one that fails to
    /// decode ends the read with no record; other keys are ignored.
    pub fn from_attributes(&self, m: AttributeMap) -> (r: Result<Record, MappingError>)
        requires
            m.wf(),
        ensures
            match r {
                Ok(rec) => read_record(self.fields_view(), m@) == Ok::<
                    Seq<ValueView>,
                    MappingErrorView,
                >(rec@),
                Err(e) => read_record(self.fields_view(), m@) == Err::<
                    Seq<ValueView>,
                    MappingErrorView,
                >(e@),
            },
    {
        let ghost fs = self.fields_view();
        let ghost m0 = m@;
        let n = self.fields.len();
        let mut attrs = m;
        let mut values: Vec<Value> = Vec::new();
        let mut i: usize = 0;
        assert(fs.subrange(0, n as int) =~= fs);
        assert(values@.map_values(|v: Value| v@) =~= Seq::<ValueView>::empty());
        proof {
            match read_record(fs, m0) {
                Ok(vs) => assert(Seq::<ValueView>::empty() + vs =~= vs),
                Err(_) => {},
            }
        }
        while i < n
            invariant
                fs == self.fields_view(),
                m0 == m@,
                n == fs.len(),
                i <= n,
                attrs.wf(),
                read_record(fs, m0) == prefixed(
                    values@.map_values(|v: Value| v@),
                    read_record(fs.subrange(i as int, n as int), attrs@),
                ),
            decreases n - i,
        {
            let ghost fsub = fs.subrange(i as int, n as int);
            let ghost before = values@.map_values(|v: Value| v@);
            let ghost a_before = attrs@;
            assert(fsub[0] == fs[i as int]);
            assert(fs[i as int] == self.fields@[i as int]@);
            assert(fsub.drop_first() =~= fs.subrange(i + 1, n as int));
            let a = match attrs.remove(&self.fields[i].name) {
                Some(a) => a,
                None => {
                    let e = MappingError::MissingField { name: self.fields[i].name.clone() };
                    return Err(e);
                },
            };
            let v = match self.fields[i].ty.decode(a) {
                Ok(v) => v,
                Err(cause) => {
                    return Err(
                        MappingError::InvalidField { name: self.fields[i].name.clone(), cause },
                    );
                },
            };
            values.push(v);
            i = i + 1;
            proof {
                let after = values@.map_values(|v: Value| v@);
                assert(after =~= before.push(v@));
                let rest = read_record(fs.subrange(i as int, n as int), attrs@);
                match rest {
                    Ok(vs) => assert(before + (seq![v@] + vs) =~= after + vs),
                    Err(_) => {},
                }
            }
        }
        assert(fs.subrange(n as int, n as int) =~= Seq::<FieldView>::empty());
        assert(values@.map_values(|v: Value| v@) + seq![] =~= values@.map_values(|v: Value| v@));
        Ok(Record { values })
    }
}

impl ItemSchema {
    /// The record made of the key fields of `r`; `None` when the record type
    /// has no hash field.
    pub fn key_record(&self, r: &Record) -> (k: Option<Record>)
        requires
            self.wf(),
            conforms(self.def.fields_view(), r@),
        ensures
            match k {
                Some(k) => self.keys.hash.is_some() && k@ == key_values(r@, self.keys),
                None => self.keys.hash.is_none(),
            },
    {
        match self.keys.hash {
            Some(h) => {
                let mut values: Vec<Value> = Vec::new();
                values.push(r.values[h].copy());
                if let Some(g) = self.keys.range {
                    values.push(r.values[g].copy());
                }
                let k = Record { values };
                assert(k@ =~= key_values(r@, self.keys));
                Some(k)
            },
            None => None,
        }
    }

    /// The attribute map of the key of `r`: its hash field and, if there is
    /// one, its range field, encoded as by [`RecordDef::to_attributes`].
    /// `None` when the record type has no hash field.
    pub fn extract_key(&self, r: &Record) -> (m: Option<AttributeMap>)
        requires
            self.wf(),
            conforms(self.def.fields_view(), r@),
        ensures
            match m {
                Some(m) => {
                    &&& self.keys.hash.is_some()
                    &&& m.wf()
                    &&& m@ == record_map(
                        key_fields(self.def.fields_view(), self.keys),
                        key_values(r@, self.keys),
                    )
                },
                None => self.keys.hash.is_none(),
            },
    {
        let ghost fs = self.def.fields_view();
        match self.keys.hash {
            Some(h) => {
                let mut m = AttributeMap::new();
                if let Some(g) = self.keys.range {
                    assert(admits(fs[g as int].ty, r@[g as int]));
                    assert(fs[g as int] == self.def.fields@[g as int]@);
                    let a = self.def.fields[g].ty.encode(r.values[g].copy());
                    m.insert(self.def.fields[g].name.clone(), a);
                }
                assert(admits(fs[h as int].ty, r@[h as int]));
                assert(fs[h as int] == self.def.fields@[h as int]@);
                let a = self.def.fields[h].ty.encode(r.values[h].copy());
                m.insert(self.def.fields[h].name.clone(), a);
                proof {
                    reveal_with_fuel(record_map, 3);
                    let kf = key_fields(fs, self.keys);
                    let kv = key_values(r@, self.keys);
                    assert(kf.drop_first().len() <= 1);
                    if self.keys.range.is_some() {
                        assert(kf.drop_first() =~= seq![kf[1]]);
                        assert(kv.drop_first() =~= seq![kv[1]]);
                        assert(kf.drop_first().drop_first() =~= Seq::<FieldView>::empty());
                    } else {
                        assert(kf.drop_first() =~= Seq::<FieldView>::empty());
                    }
                    assert(m@ =~= record_map(kf, kv));
                }
                Some(m)
            },
            None => None,
        }
    }
}

} // verus!
