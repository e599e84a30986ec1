//! The registry of classes and of the instances that live at run time.

use crate::object::{Class, ClassView};
use crate::stack::{bound_at, frame_view, Binding, BindingView, Frame};
use crate::value::{Value, ValueView};
use vstd::prelude::*;

verus! {

/// An instance of a class: the name of its class, its id, and its fields.
/// Where a field is bound twice, the later binding counts.
#[derive(Debug)]
pub struct Instance {
    pub class_name: String,
    pub id: String,
    pub fields: Vec<Binding>,
}

/// The mathematical value of an [`Instance`].
pub struct InstanceView {
    pub class_name: Seq<char>,
    pub id: Seq<char>,
    pub fields: Frame,
}

impl View for Instance {
    type V = InstanceView;

    open spec fn view(&self) -> InstanceView {
        InstanceView { class_name: self.class_name@, id: self.id@, fields: frame_view(self.fields@) }
    }
}

/// The classes that have been declared, in the order of their declaration,
/// and the instances that have been created, in the order of their
/// creation. Where a class name was declared twice, the later declaration
/// counts. An instance is found by its id; no instance is ever removed.
#[derive(Debug)]
pub struct ObjSys {
    pub classes: Vec<Class>,
    pub instances: Vec<Instance>,
}

/// The mathematical value of an [`ObjSys`].
pub struct ObjSysView {
    pub classes: Seq<ClassView>,
    pub instances: Seq<InstanceView>,
}

/// The values of an instance sequence, in order.
pub open spec fn instance_views(is: Seq<Instance>) -> Seq<InstanceView> {
    Seq::new(is.len(), |i: int| is[i]@)
}

/// The index of the first instance of the given id, from `from` on.
pub open spec fn instance_at(instances: Seq<InstanceView>, id: Seq<char>, from: int) -> Option<int>
    decreases instances.len() - from,
{
    if from < 0 || from >= instances.len() {
        None
    } else if instances[from].id == id {
        Some(from)
    } else {
        instance_at(instances, id, from + 1)
    }
}

/// The fields after an assignment to the field `name`: the binding that
/// counts gets the new value; where there is none, a new binding is added.
pub open spec fn field_set(fields: Frame, name: Seq<char>, value: ValueView) -> Frame {
    match bound_at(fields, name, fields.len() as int) {
        Some(b) => fields.update(b, BindingView { name, value }),
        None => fields.push(BindingView { name, value }),
    }
}

/// `nuid::next` of the `nuid` crate: an id of 22 characters that the
/// process has not handed out before, as far as chance allows. Nothing is
/// assumed of it here; the registry tests whether the id is in use.
#[verifier::external_body]
pub(crate) fn fresh_id() -> (out: String) {
    nuid::next().to_string()
}

/// The values of a class sequence, in order.
pub open spec fn class_views(cs: Seq<Class>) -> Seq<ClassView> {
    Seq::new(cs.len(), |i: int| cs[i]@)
}

impl View for ObjSys {
    type V = ObjSysView;

    open spec fn view(&self) -> ObjSysView {
        ObjSysView {
            classes: class_views(self.classes@),
            instances: instance_views(self.instances@),
        }
    }
}

impl ObjSysView {
    /// The index of the declaration of the class `name` that counts: the
    /// last one, searched among the first `upto` classes.
    pub open spec fn class_index(self, name: Seq<char>, upto: int) -> Option<int>
        decreases upto,
    {
        if upto <= 0 {
            None
        } else if self.classes[upto - 1].name == name {
            Some(upto - 1)
        } else {
            self.class_index(name, upto - 1)
        }
    }
}

impl ObjSys {
    /// A registry without classes and instances.
    pub fn new() -> (out: ObjSys)
        ensures
            out@.classes == Seq::<ClassView>::empty(),
            out@.instances == Seq::<InstanceView>::empty(),
    {
        let out = ObjSys { classes: Vec::new(), instances: Vec::new() };
        assert(out@.classes =~= Seq::empty());
        assert(out@.instances =~= Seq::empty());
        out
    }

    /// A registry with the same classes and without instances.
    pub fn without_instances(&self) -> (out: ObjSys)
        ensures
            out@.classes == self@.classes,
            out@.instances == Seq::<InstanceView>::empty(),
    {
        let mut classes: Vec<Class> = Vec::new();
        let mut i: usize = 0;
        while i < self.classes.len()
            invariant
                i <= self.classes.len(),
                classes.len() == i,
                forall|k: int| 0 <= k < i ==> classes[k]@ == self.classes[k]@,
            decreases self.classes.len() - i,
        {
            classes.push(self.classes[i].clone());
            i += 1;
        }
        let out = ObjSys { classes, instances: Vec::new() };
        assert(out@.classes =~= self@.classes);
        assert(out@.instances =~= Seq::empty());
        out
    }

    /// A class of the given name without members, not yet registered.
    pub fn new_class(&self, name: String) -> (out: Class)
        ensures
            out@ == ClassView::empty(name@),
    {
        Class::new(name)
    }

    /// Registers a class.
    pub fn register_class(&mut self, class: Class)
        ensures
            final(self)@.classes == old(self)@.classes.push(class@),
            final(self)@.instances == old(self)@.instances,
    {
        self.classes.push(class);
        assert(self@.classes =~= old(self)@.classes.push(class@));
    }

    /// The class of the given name, if one is registered.
    pub fn get_class(&self, name: &String) -> (out: Option<&Class>)
        ensures
            match self@.class_index(name@, self@.classes.len() as int) {
                Some(i) => out is Some && out->Some_0@ == self@.classes[i],
                None => out is None,
            },
    {
        let mut i = self.classes.len();
        while i > 0
            invariant
                i <= self.classes.len(),
                self@.class_index(name@, self@.classes.len() as int) == self@.class_index(
                    name@,
                    i as int,
                ),
            decreases i,
        {
            i -= 1;
            if self.classes[i].name == *name {
                return Some(&self.classes[i]);
            }
        }
        None
    }
    /// The index of the instance of the given id.
    pub fn find_instance(&self, id: &String) -> (out: Option<usize>)
        ensures
            match instance_at(self@.instances, id@, 0) {
                Some(k) => out == Some(k as usize) && 0 <= k < self.instances.len()
                    && self.instances[k]@.id == id@,
                None => out is None,
            },
    {
        let mut i: usize = 0;
        while i < self.instances.len()
            invariant
                i <= self.instances.len(),
                instance_at(self@.instances, id@, 0) == instance_at(self@.instances, id@, i as int),
            decreases self.instances.len() - i,
        {
            if self.instances[i].id == *id {
                return Some(i);
            }
            i += 1;
        }
        None
    }

    /// Creates an instance of the class `class_name` under the given id,
    /// without fields. An id that is in use is refused: nothing changes and
    /// the result is `false`.
    pub fn add_instance(&mut self, class_name: String, id: String) -> (done: bool)
        ensures
            done == (instance_at(old(self)@.instances, id@, 0) is None),
            final(self)@.classes == old(self)@.classes,
            done ==> final(self)@.instances == old(self)@.instances.push(
                InstanceView { class_name: class_name@, id: id@, fields: Seq::empty() },
            ),
            !done ==> final(self)@.instances == old(self)@.instances,
    {
        if self.find_instance(&id).is_some() {
            return false;
        }
        let instance = Instance { class_name, id, fields: Vec::new() };
        proof {
            assert(instance@.fields =~= Seq::<BindingView>::empty());
            assert(instance_views(self.instances@.push(instance)) =~= instance_views(
                self.instances@,
            ).push(instance@));
        }
        self.instances.push(instance);
        true
    }

    /// The name of the class of the instance of the given id.
    pub fn class_of(&self, id: &String) -> (out: Option<String>)
        ensures
            match instance_at(self@.instances, id@, 0) {
                Some(k) => out is Some && out->Some_0@ == self@.instances[k].class_name,
                None => out is None,
            },
    {
        match self.find_instance(id) {
            Some(k) => Some(self.instances[k].class_name.clone()),
            None => None,
        }
    }

    /// The value of the field `name` of the instance of the given id.
    pub fn get_field(&self, id: &String, name: &String) -> (out: Option<Value>)
        ensures
            match instance_at(self@.instances, id@, 0) {
                Some(k) => match bound_at(
                    self@.instances[k].fields,
                    name@,
                    self@.instances[k].fields.len() as int,
                ) {
                    Some(b) => out is Some && out->Some_0@ == self@.instances[k].fields[b].value,
                    None => out is None,
                },
                None => out is None,
            },
    {
        match self.find_instance(id) {
            Some(k) => {
                let fields = &self.instances[k].fields;
                let ghost fv = frame_view(fields@);
                assert(fv == self@.instances[k as int].fields);
                let mut b = fields.len();
                while b > 0
                    invariant
                        b <= fields.len(),
                        fv == frame_view(fields@),
                        fv == self@.instances[k as int].fields,
                        instance_at(self@.instances, id@, 0) == Some(k as int),
                        bound_at(fv, name@, fv.len() as int) == bound_at(fv, name@, b as int),
                    decreases b,
                {
                    b -= 1;
                    if fields[b].name == *name {
                        assert(fv[b as int] == fields[b as int]@);
                        return Some(fields[b].value.clone());
                    }
                }
                None
            },
            None => None,
        }
    }

    /// Assigns `value` to the field `name` of the instance of the given
    /// id. Without such an instance nothing changes and the result is
    /// `false`.
    pub fn set_field(&mut self, id: &String, name: String, value: Value) -> (done: bool)
        ensures
            final(self)@.classes == old(self)@.classes,
            match instance_at(old(self)@.instances, id@, 0) {
                Some(k) => done && final(self)@.instances == old(self)@.instances.update(
                    k,
                    InstanceView {
                        fields: field_set(old(self)@.instances[k].fields, name@, value@),
                        ..old(self)@.instances[k]
                    },
                ),
                None => !done && final(self)@.instances == old(self)@.instances,
            },
    {
        match self.find_instance(id) {
            Some(k) => {
                let ghost before = self.instances@;
                let mut instance = self.instances.remove(k);
                let ghost was = instance@;
                let ghost fv = was.fields;
                let mut found: Option<usize> = None;
                let mut b = instance.fields.len();
                while b > 0 && found.is_none()
                    invariant
                        b <= instance.fields.len(),
                        fv == frame_view(instance.fields@),
                        found is None ==> bound_at(fv, name@, fv.len() as int) == bound_at(
                            fv,
                            name@,
                            b as int,
                        ),
                        found matches Some(p) ==> p < instance.fields.len() && bound_at(
                            fv,
                            name@,
                            fv.len() as int,
                        ) == Some(p as int),
                    decreases b + (if found is None { 1int } else { 0int }),
                {
                    b -= 1;
                    if instance.fields[b].name == name {
                        found = Some(b);
                    }
                }
                let binding = Binding { name, value };
                let ghost bv = binding@;
                match found {
                    Some(p) => {
                        let _ = instance.fields.remove(p);
                        instance.fields.insert(p, binding);
                        assert(frame_view(instance.fields@) =~= fv.update(p as int, bv));
                    },
                    None => {
                        instance.fields.push(binding);
                        assert(frame_view(instance.fields@) =~= fv.push(bv));
                    },
                }
                let ghost now = instance@;
                self.instances.insert(k, instance);
                proof {
                    assert(instance_views(self.instances@) =~= instance_views(before).update(
                        k as int,
                        now,
                    ));
                }
                true
            },
            None => false,
        }
    }
}

} // verus!
