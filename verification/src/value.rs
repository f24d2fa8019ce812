//! Run-time values of the stack machine.
//!
//! Scalars (`Int`, `Float`, `Bool`, `Str`) are copied. Arrays have reference
//! semantics: a value holds the index of the array in the machine's heap, so
//! two variables can share one array. Structs have value semantics: copying a
//! struct copies its fields.

use vstd::prelude::*;

verus! {

/// A run-time value.
#[derive(Debug)]
pub enum Value {
    Int(i64),
    /// The bits of an IEEE-754 double.
    Float(u64),
    Bool(bool),
    Str(String),
    /// The index of an array in the heap.
    Array(usize),
    Struct(StructVal),
}

/// A struct instance: its type name and its fields in declaration order.
#[derive(Debug)]
pub struct StructVal {
    pub name: String,
    pub fields: Vec<(String, Value)>,
}

/// The mathematical model of a value.
pub enum Val {
    Int(i64),
    Float(u64),
    Bool(bool),
    Str(Seq<char>),
    Array(nat),
    Struct(Seq<char>, Seq<(Seq<char>, Val)>),
}

impl Value {
    pub open spec fn view(&self) -> Val
        decreases self,
    {
        match self {
            Value::Int(n) => Val::Int(*n),
            Value::Float(b) => Val::Float(*b),
            Value::Bool(b) => Val::Bool(*b),
            Value::Str(s) => Val::Str(s@),
            Value::Array(h) => Val::Array(*h as nat),
            Value::Struct(sv) => Val::Struct(sv.name@, fields_view(sv.fields@)),
        }
    }
}

/// The model of a list of named fields.
pub open spec fn fields_view(fs: Seq<(String, Value)>) -> Seq<(Seq<char>, Val)>
    decreases fs,
{
    if fs.len() == 0 {
        Seq::empty()
    } else {
        let last = fs[fs.len() - 1];
        fields_view(fs.drop_last()).push((last.0@, last.1.view()))
    }
}

/// Models of a list of values.
pub open spec fn values_view(vs: Seq<Value>) -> Seq<Val> {
    Seq::new(vs.len(), |i: int| vs[i].view())
}

pub proof fn lemma_fields_view_len(fs: Seq<(String, Value)>)
    ensures
        fields_view(fs).len() == fs.len(),
    decreases fs.len(),
{
    if fs.len() > 0 {
        lemma_fields_view_len(fs.drop_last());
    }
}

pub proof fn lemma_fields_view_index(fs: Seq<(String, Value)>, i: int)
    requires
        0 <= i < fs.len(),
    ensures
        fields_view(fs).len() == fs.len(),
        fields_view(fs)[i] == (fs[i].0@, fs[i].1.view()),
    decreases fs.len(),
{
    lemma_fields_view_len(fs);
    if i < fs.len() - 1 {
        lemma_fields_view_index(fs.drop_last(), i);
    }
}

/// Two lists of fields with the same names and values have the same model.
pub proof fn lemma_fields_view_ext(a: Seq<(String, Value)>, b: Seq<(String, Value)>)
    requires
        a.len() == b.len(),
        forall|i: int| 0 <= i < a.len() ==> a[i].0@ == b[i].0@ && a[i].1.view() == b[i].1.view(),
    ensures
        fields_view(a) == fields_view(b),
    decreases a.len(),
{
    if a.len() > 0 {
        lemma_fields_view_ext(a.drop_last(), b.drop_last());
    }
}

/// A copy of a value; struct fields are copied too.
pub fn copy_value(v: &Value) -> (r: Value)
    ensures
        r.view() == v.view(),
    decreases v,
{
    match v {
        Value::Int(n) => Value::Int(*n),
        Value::Float(b) => Value::Float(*b),
        Value::Bool(b) => Value::Bool(*b),
        Value::Str(s) => Value::Str(s.clone()),
        Value::Array(h) => Value::Array(*h),
        Value::Struct(sv) => {
            let fs = copy_fields(&sv.fields);
            Value::Struct(StructVal { name: sv.name.clone(), fields: fs })
        },
    }
}

/// A copy of a list of fields.
pub fn copy_fields(fs: &Vec<(String, Value)>) -> (r: Vec<(String, Value)>)
    ensures
        fields_view(r@) == fields_view(fs@),
        r@.len() == fs@.len(),
    decreases fs,
{
    let mut out: Vec<(String, Value)> = Vec::new();
    let mut i: usize = 0;
    while i < fs.len()
        invariant
            i <= fs.len(),
            out@.len() == i,
            forall|j: int| 0 <= j < i ==> out@[j].0@ == fs@[j].0@ && out@[j].1.view() == fs@[j].1.view(),
        decreases fs.len() - i,
    {
        proof {
            assert(decreases_to!(fs => fs@[i as int]));
        }
        let c = copy_value(&fs[i].1);
        out.push((fs[i].0.clone(), c));
        i = i + 1;
    }
    proof {
        lemma_fields_view_ext(out@, fs@);
    }
    out
}

/// Copies of a list of values.
pub fn copy_values(vs: &Vec<Value>) -> (r: Vec<Value>)
    ensures
        values_view(r@) == values_view(vs@),
{
    let mut out: Vec<Value> = Vec::new();
    let mut i: usize = 0;
    while i < vs.len()
        invariant
            i <= vs.len(),
            out@.len() == i,
            forall|j: int| 0 <= j < i ==> out@[j].view() == vs@[j].view(),
        decreases vs.len() - i,
    {
        let c = copy_value(&vs[i]);
        out.push(c);
        i = i + 1;
    }
    assert(values_view(out@) =~= values_view(vs@));
    out
}

/// The position of the first field with the given name.
pub open spec fn field_pos(fs: Seq<(Seq<char>, Val)>, name: Seq<char>) -> Option<int>
    decreases fs.len(),
{
    if fs.len() == 0 {
        None
    } else if fs[0].0 == name {
        Some(0)
    } else {
        match field_pos(fs.drop_first(), name) {
            Some(i) => Some(i + 1),
            None => None,
        }
    }
}

pub proof fn lemma_field_pos(fs: Seq<(Seq<char>, Val)>, name: Seq<char>)
    ensures
        match field_pos(fs, name) {
            Some(i) => 0 <= i < fs.len() && fs[i].0 == name
                && forall|j: int| 0 <= j < i ==> fs[j].0 != name,
            None => forall|j: int| 0 <= j < fs.len() ==> fs[j].0 != name,
        },
    decreases fs.len(),
{
    if fs.len() > 0 {
        lemma_field_pos(fs.drop_first(), name);
        if fs[0].0 != name {
            match field_pos(fs.drop_first(), name) {
                Some(i) => {
                    assert forall|j: int| 0 <= j < i + 1 implies fs[j].0 != name by {
                        if j > 0 {
                            assert(fs[j] == fs.drop_first()[j - 1]);
                        }
                    }
                },
                None => {
                    assert forall|j: int| 0 <= j < fs.len() implies fs[j].0 != name by {
                        if j > 0 {
                            assert(fs[j] == fs.drop_first()[j - 1]);
                        }
                    }
                },
            }
        }
    }
}

impl StructVal {
    pub open spec fn view(&self) -> (Seq<char>, Seq<(Seq<char>, Val)>) {
        (self.name@, fields_view(self.fields@))
    }

    /// The position of the first field named `f`.
    pub fn find(&self, f: &str) -> (r: Option<usize>)
        ensures
            match field_pos(fields_view(self.fields@), f@) {
                Some(i) => r.is_some() && r.unwrap() as int == i,
                None => r.is_none(),
            },
    {
        proof {
            lemma_field_pos(fields_view(self.fields@), f@);
            lemma_fields_view_len(self.fields@);
        }
        let mut i: usize = 0;
        while i < self.fields.len()
            invariant
                i <= self.fields.len(),
                fields_view(self.fields@).len() == self.fields@.len(),
                forall|j: int| 0 <= j < i ==> fields_view(self.fields@)[j].0 != f@,
            decreases self.fields.len() - i,
        {
            proof {
                lemma_fields_view_index(self.fields@, i as int);
            }
            if crate::text::str_eq(self.fields[i].0.as_str(), f) {
                proof {
                    lemma_field_pos(fields_view(self.fields@), f@);
                }
                return Some(i);
            }
            i = i + 1;
        }
        None
    }

    /// The value of the first field named `f`, copied.
    pub fn get(&self, f: &str) -> (r: Option<Value>)
        ensures
            match field_pos(fields_view(self.fields@), f@) {
                Some(i) => r.is_some() && r.unwrap().view() == fields_view(self.fields@)[i].1,
                None => r.is_none(),
            },
    {
        match self.find(f) {
            Some(i) => {
                proof {
                    lemma_field_pos(fields_view(self.fields@), f@);
                    lemma_fields_view_len(self.fields@);
                    lemma_fields_view_index(self.fields@, i as int);
                }
                Some(copy_value(&self.fields[i].1))
            },
            None => None,
        }
    }

    /// Writes `v` into the first field named `f`; `false`, and no change,
    /// when there is no such field.
    pub fn set(&mut self, f: &str, v: Value) -> (r: bool)
        ensures
            final(self).name@ == old(self).name@,
            match field_pos(fields_view(old(self).fields@), f@) {
                Some(i) => r && fields_view(final(self).fields@)
                    == fields_view(old(self).fields@).update(i, (f@, v.view())),
                None => !r && fields_view(final(self).fields@) == fields_view(old(self).fields@),
            },
    {
        match self.find(f) {
            Some(i) => {
                let ghost old_fields = self.fields@;
                proof {
                    lemma_field_pos(fields_view(old_fields), f@);
                    lemma_fields_view_len(old_fields);
                    lemma_fields_view_index(old_fields, i as int);
                    assert(old_fields[i as int].0@ == f@);
                }
                let name = self.fields[i].0.clone();
                self.fields.set(i, (name, v));
                proof {
                    let nf = self.fields@;
                    lemma_fields_view_len(nf);
                    assert forall|j: int| 0 <= j < nf.len() implies
                        fields_view(nf)[j] == fields_view(old_fields).update(i as int, (f@, v.view()))[j] by {
                        lemma_fields_view_index(nf, j);
                        lemma_fields_view_index(old_fields, j);
                        if j == i as int {
                            assert(nf[j] == (name, v));
                        } else {
                            assert(nf[j] == old_fields[j]);
                        }
                    }
                    assert(fields_view(nf) =~= fields_view(old_fields).update(i as int, (f@, v.view())));
                }
                true
            },
            None => false,
        }
    }
}

impl Value {
    /// The name of the value's type, as error messages give it.
    pub fn kind_name(&self) -> (s: &'static str)
        ensures
            s@ == kind_name_of(self.view()),
    {
        match self {
            Value::Int(_) => "int",
            Value::Float(_) => "float",
            Value::Bool(_) => "bool",
            Value::Str(_) => "string",
            Value::Array(_) => "array",
            Value::Struct(_) => "struct",
        }
    }
}

/// The type name of a value's model.
pub open spec fn kind_name_of(v: Val) -> Seq<char> {
    match v {
        Val::Int(_) => "int"@,
        Val::Float(_) => "float"@,
        Val::Bool(_) => "bool"@,
        Val::Str(_) => "string"@,
        Val::Array(_) => "array"@,
        Val::Struct(_, _) => "struct"@,
    }
}

} // verus!
