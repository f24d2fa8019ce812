//! The checker's types, and how a written type becomes one.

use vstd::prelude::*;
use crate::ast::TypeExpr;
use crate::text::{owned, push_str, str_eq};

verus! {

/// A type of the language.
#[derive(Debug)]
pub enum Type {
    Int,
    Float,
    Bool,
    Str,
    Void,
    Array(Box<Type>),
    Struct(String),
}

/// The model of a type.
pub enum TypeV {
    Int,
    Float,
    Bool,
    Str,
    Void,
    Array(Box<TypeV>),
    Struct(Seq<char>),
}

/// A struct's name and its typed fields in declaration order.
#[derive(Debug)]
pub struct StructInfo {
    pub name: String,
    pub fields: Vec<(String, Type)>,
}

impl Type {
    /// Whether a value of this type can be printed: every type but `void`.
    pub fn can_print(&self) -> (r: bool)
        ensures
            r == !(self is Void),
    {
        !matches!(self, Type::Void)
    }

    pub open spec fn view(&self) -> TypeV
        decreases self,
    {
        match self {
            Type::Int => TypeV::Int,
            Type::Float => TypeV::Float,
            Type::Bool => TypeV::Bool,
            Type::Str => TypeV::Str,
            Type::Void => TypeV::Void,
            Type::Array(e) => TypeV::Array(Box::new(e.view())),
            Type::Struct(n) => TypeV::Struct(n@),
        }
    }

    /// A copy of the type.
    pub fn copy(&self) -> (r: Type)
        ensures
            r.view() == self.view(),
        decreases self,
    {
        match self {
            Type::Int => Type::Int,
            Type::Float => Type::Float,
            Type::Bool => Type::Bool,
            Type::Str => Type::Str,
            Type::Void => Type::Void,
            Type::Array(e) => Type::Array(Box::new(e.copy())),
            Type::Struct(n) => Type::Struct(n.clone()),
        }
    }

    /// Whether two types are the same.
    pub fn same(&self, other: &Type) -> (r: bool)
        ensures
            r == (self.view() == other.view()),
        decreases self,
    {
        match (self, other) {
            (Type::Int, Type::Int) => true,
            (Type::Float, Type::Float) => true,
            (Type::Bool, Type::Bool) => true,
            (Type::Str, Type::Str) => true,
            (Type::Void, Type::Void) => true,
            (Type::Array(a), Type::Array(b)) => a.same(b),
            (Type::Struct(a), Type::Struct(b)) => str_eq(a.as_str(), b.as_str()),
            _ => false,
        }
    }

    /// Whether arithmetic applies: `int` or `float`.
    pub fn is_numeric(&self) -> (r: bool)
        ensures
            r == (self.view() is Int || self.view() is Float),
    {
        matches!(self, Type::Int | Type::Float)
    }

    /// Whether `print` accepts a value of this type: every type but `void`.
    pub fn printable(&self) -> (r: bool)
        ensures
            r == !(self.view() is Void),
    {
        !matches!(self, Type::Void)
    }

    /// Whether this is one of the four scalar types.
    pub fn is_scalar(&self) -> (r: bool)
        ensures
            r == (self.view() is Int || self.view() is Float || self.view() is Bool || self.view() is Str),
    {
        matches!(self, Type::Int | Type::Float | Type::Bool | Type::Str)
    }

    /// How the type is written: `int`, `float`, `bool`, `string`, `void`,
    /// `T[]`, or the struct's name.
    pub fn text(&self) -> (s: String)
        ensures
            s@ == type_text(self.view()),
        decreases self,
    {
        match self {
            Type::Int => owned("int"),
            Type::Float => owned("float"),
            Type::Bool => owned("bool"),
            Type::Str => owned("string"),
            Type::Void => owned("void"),
            Type::Array(e) => {
                let mut s = e.text();
                push_str(&mut s, "[]");
                s
            },
            Type::Struct(n) => n.clone(),
        }
    }

    /// The type that `t` names, given the declared structs: a name must be
    /// a declared struct.
    pub fn from_ast(t: &TypeExpr, structs: &Vec<StructInfo>) -> (r: Result<Type, String>)
        ensures
            match type_of_expr(*t, struct_names(structs@)) {
                Some(v) => r matches Ok(ty) && ty.view() == v,
                None => r matches Err(m) && m@ == "unknown type `"@ + named_in(*t) + "`"@,
            },
        decreases t,
    {
        match t {
            TypeExpr::Int => Ok(Type::Int),
            TypeExpr::Float => Ok(Type::Float),
            TypeExpr::Bool => Ok(Type::Bool),
            TypeExpr::String => Ok(Type::Str),
            TypeExpr::Void => Ok(Type::Void),
            TypeExpr::Array(i) => {
                let e = Type::from_ast(i, structs)?;
                Ok(Type::Array(Box::new(e)))
            },
            TypeExpr::Named(n) => {
                match find_struct(structs, n.as_str()) {
                    None => {
                        let mut m = owned("unknown type `");
                        push_str(&mut m, n.as_str());
                        push_str(&mut m, "`");
                        Err(m)
                    },
                    Some(i) => {
                        assert(struct_names(structs@)[i as int] == n@);
                        Ok(Type::Struct(n.clone()))
                    },
                }
            },
        }
    }
}

/// How a type is written.
pub open spec fn type_text(t: TypeV) -> Seq<char>
    decreases t,
{
    match t {
        TypeV::Int => "int"@,
        TypeV::Float => "float"@,
        TypeV::Bool => "bool"@,
        TypeV::Str => "string"@,
        TypeV::Void => "void"@,
        TypeV::Array(e) => type_text(*e) + "[]"@,
        TypeV::Struct(n) => n,
    }
}

/// The names of the declared structs.
pub open spec fn struct_names(structs: Seq<StructInfo>) -> Seq<Seq<char>> {
    Seq::new(structs.len(), |i: int| structs[i].name@)
}

/// The struct name that a type names, itself or as the element type of
/// arrays.
pub open spec fn named_in(t: TypeExpr) -> Seq<char>
    decreases t,
{
    match t {
        TypeExpr::Array(i) => named_in(*i),
        TypeExpr::Named(n) => n@,
        _ => Seq::empty(),
    }
}

/// The type that a written type names, given the declared struct names.
pub open spec fn type_of_expr(t: TypeExpr, names: Seq<Seq<char>>) -> Option<TypeV>
    decreases t,
{
    match t {
        TypeExpr::Int => Some(TypeV::Int),
        TypeExpr::Float => Some(TypeV::Float),
        TypeExpr::Bool => Some(TypeV::Bool),
        TypeExpr::String => Some(TypeV::Str),
        TypeExpr::Void => Some(TypeV::Void),
        TypeExpr::Array(i) => match type_of_expr(*i, names) {
            Some(e) => Some(TypeV::Array(Box::new(e))),
            None => None,
        },
        TypeExpr::Named(n) => if names.contains(n@) { Some(TypeV::Struct(n@)) } else { None },
    }
}

/// The index of the struct named `name`.
pub fn find_struct(structs: &Vec<StructInfo>, name: &str) -> (r: Option<usize>)
    ensures
        match r {
            Some(i) => i < structs@.len() && structs@[i as int].name@ == name@
                && forall|k: int| 0 <= k < i ==> (#[trigger] structs@[k]).name@ != name@,
            None => !struct_names(structs@).contains(name@)
                && forall|k: int| 0 <= k < structs@.len() ==> (#[trigger] structs@[k]).name@ != name@,
        },
{
    let mut i: usize = 0;
    while i < structs.len()
        invariant
            i <= structs@.len(),
            forall|k: int| 0 <= k < i ==> (#[trigger] structs@[k]).name@ != name@,
        decreases structs@.len() - i,
    {
        if str_eq(structs[i].name.as_str(), name) {
            return Some(i);
        }
        i = i + 1;
    }
    proof {
        if struct_names(structs@).contains(name@) {
            let k = choose|k: int| 0 <= k < struct_names(structs@).len() && struct_names(structs@)[k] == name@;
            assert(structs@[k].name@ == name@);
        }
    }
    None
}

} // verus!
