//! Runtime values, functions, and the classes that the parser records.

use crate::node::{Ast, Node};
use vstd::prelude::*;

verus! {

/// A parameter of a method: its declared type, its name, and whether it is
/// the `this.name` shorthand that stores the argument in the field `name`.
#[derive(Debug)]
pub struct ParamObj {
    pub typ: String,
    pub name: String,
    pub fieldinit: bool,
}

/// The mathematical value of a [`ParamObj`].
pub struct ParamView {
    pub typ: Seq<char>,
    pub name: Seq<char>,
    pub fieldinit: bool,
}

impl View for ParamObj {
    type V = ParamView;

    open spec fn view(&self) -> ParamView {
        ParamView { typ: self.typ@, name: self.name@, fieldinit: self.fieldinit }
    }
}

impl Clone for ParamObj {
    fn clone(&self) -> (out: ParamObj)
        ensures
            out@ == self@,
    {
        ParamObj { typ: self.typ.clone(), name: self.name.clone(), fieldinit: self.fieldinit }
    }
}

/// The values of a parameter sequence, in order.
pub open spec fn param_views(ps: Seq<ParamObj>) -> Seq<ParamView> {
    Seq::new(ps.len(), |i: int| ps[i]@)
}

/// A method: its name, the file that defines it, its body and parameters.
#[derive(Debug)]
pub struct Function {
    pub name: String,
    pub file: String,
    pub body: Node,
    pub params: Vec<ParamObj>,
}

/// The mathematical value of a [`Function`].
pub struct FunctionView {
    pub name: Seq<char>,
    pub file: Seq<char>,
    pub body: Ast,
    pub params: Seq<ParamView>,
}

impl View for Function {
    type V = FunctionView;

    open spec fn view(&self) -> FunctionView {
        FunctionView {
            name: self.name@,
            file: self.file@,
            body: self.body@,
            params: param_views(self.params@),
        }
    }
}

impl Clone for Function {
    fn clone(&self) -> (out: Function)
        ensures
            out@ == self@,
    {
        let mut params: Vec<ParamObj> = Vec::new();
        let mut i: usize = 0;
        while i < self.params.len()
            invariant
                i <= self.params.len(),
                params.len() == i,
                forall|k: int| 0 <= k < i ==> params[k]@ == self.params[k]@,
            decreases self.params.len() - i,
        {
            params.push(self.params[i].clone());
            i += 1;
        }
        assert(param_views(params@) =~= param_views(self.params@));
        Function {
            name: self.name.clone(),
            file: self.file.clone(),
            body: self.body.clone(),
            params,
        }
    }
}

/// A field of a class: its declared type, its name, and the expression that
/// gives a new instance its first value (`Null` where none was written).
#[derive(Debug)]
pub struct Field {
    pub typ: String,
    pub name: String,
    pub default: Node,
}

/// The mathematical value of a [`Field`].
pub struct FieldView {
    pub typ: Seq<char>,
    pub name: Seq<char>,
    pub default: Ast,
}

impl View for Field {
    type V = FieldView;

    open spec fn view(&self) -> FieldView {
        FieldView { typ: self.typ@, name: self.name@, default: self.default@ }
    }
}

impl Clone for Field {
    fn clone(&self) -> (out: Field)
        ensures
            out@ == self@,
    {
        Field { typ: self.typ.clone(), name: self.name.clone(), default: self.default.clone() }
    }
}

/// A class: its name, its fields in the order of their declaration, and
/// its methods. Where a name was declared twice, the later declaration
/// counts.
#[derive(Debug)]
pub struct Class {
    pub name: String,
    pub fields: Vec<Field>,
    pub methods: Vec<Function>,
}

/// The mathematical value of a [`Class`].
pub struct ClassView {
    pub name: Seq<char>,
    pub fields: Seq<FieldView>,
    pub methods: Seq<FunctionView>,
}

/// Every class of the sequence is well formed.
pub open spec fn all_classes_well_formed(cs: Seq<ClassView>) -> bool {
    forall|i: int| 0 <= i < cs.len() ==> (#[trigger] cs[i]).well_formed()
}

/// The values of a field sequence, in order.
pub open spec fn field_views(fs: Seq<Field>) -> Seq<FieldView> {
    Seq::new(fs.len(), |i: int| fs[i]@)
}

/// The values of a method sequence, in order.
pub open spec fn function_views(ms: Seq<Function>) -> Seq<FunctionView> {
    Seq::new(ms.len(), |i: int| ms[i]@)
}

impl View for Class {
    type V = ClassView;

    open spec fn view(&self) -> ClassView {
        ClassView {
            name: self.name@,
            fields: field_views(self.fields@),
            methods: function_views(self.methods@),
        }
    }
}

impl ClassView {
    /// The class of the given name without members.
    pub open spec fn empty(name: Seq<char>) -> ClassView {
        ClassView { name, fields: Seq::empty(), methods: Seq::empty() }
    }

    /// The class with one more field.
    pub open spec fn with_field(self, typ: Seq<char>, name: Seq<char>, default: Ast) -> ClassView {
        ClassView { fields: self.fields.push(FieldView { typ, name, default }), ..self }
    }

    /// The class with one more method.
    pub open spec fn with_method(self, method: FunctionView) -> ClassView {
        ClassView { methods: self.methods.push(method), ..self }
    }

    /// The first value of every field and the body of every method is a
    /// well-formed tree.
    pub open spec fn well_formed(self) -> bool {
        &&& forall|i: int| 0 <= i < self.fields.len() ==> (#[trigger] self.fields[i]).default.well_formed()
        &&& forall|i: int| 0 <= i < self.methods.len() ==> (#[trigger] self.methods[i]).body.well_formed()
    }

    /// The index of the declaration of the method `name` that counts: the
    /// last one, searched among the first `upto` methods.
    pub open spec fn method_index(self, name: Seq<char>, upto: int) -> Option<int>
        decreases upto,
    {
        if upto <= 0 {
            None
        } else if self.methods[upto - 1].name == name {
            Some(upto - 1)
        } else {
            self.method_index(name, upto - 1)
        }
    }
}

impl Clone for Class {
    fn clone(&self) -> (out: Class)
        ensures
            out@ == self@,
    {
        let mut fields: Vec<Field> = Vec::new();
        let mut i: usize = 0;
        while i < self.fields.len()
            invariant
                i <= self.fields.len(),
                fields.len() == i,
                forall|k: int| 0 <= k < i ==> fields[k]@ == self.fields[k]@,
            decreases self.fields.len() - i,
        {
            fields.push(self.fields[i].clone());
            i += 1;
        }
        let mut methods: Vec<Function> = Vec::new();
        let mut j: usize = 0;
        while j < self.methods.len()
            invariant
                j <= self.methods.len(),
                methods.len() == j,
                forall|k: int| 0 <= k < j ==> methods[k]@ == self.methods[k]@,
            decreases self.methods.len() - j,
        {
            methods.push(self.methods[j].clone());
            j += 1;
        }
        assert(field_views(fields@) =~= field_views(self.fields@));
        assert(function_views(methods@) =~= function_views(self.methods@));
        Class { name: self.name.clone(), fields, methods }
    }
}

impl Class {
    /// A class of the given name without members.
    pub fn new(name: String) -> (out: Class)
        ensures
            out@ == ClassView::empty(name@),
    {
        let out = Class { name, fields: Vec::new(), methods: Vec::new() };
        assert(out@.fields =~= Seq::empty());
        assert(out@.methods =~= Seq::empty());
        out
    }

    /// Declares a field.
    pub fn add_field(&mut self, typ: &String, name: &String, default: Node)
        ensures
            final(self)@ == old(self)@.with_field(typ@, name@, default@),
    {
        self.fields.push(Field { typ: typ.clone(), name: name.clone(), default });
        assert(self@.fields =~= old(self)@.fields.push(
            FieldView { typ: typ@, name: name@, default: default@ },
        ));
    }

    /// Declares a method under the name it carries.
    pub fn add_method(&mut self, method: Function)
        ensures
            final(self)@ == old(self)@.with_method(method@),
    {
        self.methods.push(method);
        assert(self@.methods =~= old(self)@.methods.push(method@));
    }

    /// The method of the given name, if the class has one.
    pub fn get_method(&self, name: &String) -> (out: Option<&Function>)
        ensures
            match self@.method_index(name@, self@.methods.len() as int) {
                Some(i) => out is Some && out->Some_0@ == self@.methods[i],
                None => out is None,
            },
    {
        let mut i = self.methods.len();
        while i > 0
            invariant
                i <= self.methods.len(),
                self@.method_index(name@, self@.methods.len() as int) == self@.method_index(
                    name@,
                    i as int,
                ),
            decreases i,
        {
            i -= 1;
            if self.methods[i].name == *name {
                return Some(&self.methods[i]);
            }
        }
        None
    }
}

} // verus!
