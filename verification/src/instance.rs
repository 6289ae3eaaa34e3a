use vstd::prelude::*;

use crate::bindings::Bindings;
use crate::class::Class;
use crate::token::Token;
use std::rc::Rc;

verus! {

/// An instance of a class: the class and the fields set on the instance.
pub struct Instance<V> {
    pub class: Rc<Class<V>>,
    fields: Bindings<V>,
}

/// What a property name of an instance denotes: a field's value, or, when no
/// field has that name, a method of the class (still to be bound to the
/// instance).
pub enum Property<'a, V> {
    Field(&'a V),
    Method(&'a V),
}

impl<V> Instance<V> {
    pub closed spec fn wf(&self) -> bool {
        self.fields.wf() && self.class_of().wf()
    }

    /// The class the instance belongs to.
    pub closed spec fn class_of(&self) -> Class<V> {
        *self.class
    }

    /// The fields, by name.
    pub closed spec fn fields(&self) -> Map<Seq<char>, V> {
        self.fields@
    }

    /// An instance of `class` with no field set.
    pub fn new(class: Rc<Class<V>>) -> (i: Instance<V>)
        requires
            class.wf(),
        ensures
            i.wf(),
            i.class_of() == *class,
            i.fields() == Map::<Seq<char>, V>::empty(),
    {
        Instance { class, fields: Bindings::new() }
    }

    /// The property `name`: the field of that name, else the class's method
    /// of that name, else nothing.
    pub fn get(&self, name: &Token) -> (p: Option<Property<'_, V>>)
        requires
            self.wf(),
        ensures
            self.fields().contains_key(name.lexeme@) ==> (p matches Some(Property::Field(v)) && *v
                == self.fields()[name.lexeme@]),
            !self.fields().contains_key(name.lexeme@) && self.class_of().methods().contains_key(name.lexeme@)
                ==> (p matches Some(Property::Method(m)) && *m == self.class_of().methods()[name.lexeme@]),
            !self.fields().contains_key(name.lexeme@) && !self.class_of().methods().contains_key(name.lexeme@)
                ==> p is None,
    {
        if let Some(field) = self.fields.get(&name.lexeme) {
            Some(Property::Field(field))
        } else if let Some(method) = self.class.find_method(&name.lexeme) {
            Some(Property::Method(method))
        } else {
            None
        }
    }

    /// Sets the field `name` to `value`.
    pub fn set(&mut self, name: &Token, value: V)
        requires
            old(self).wf(),
        ensures
            final(self).wf(),
            final(self).class_of() == old(self).class_of(),
            final(self).fields() == old(self).fields().insert(name.lexeme@, value),
    {
        self.fields.insert(name.lexeme.clone(), value);
    }
}

/// A field that has just been set is what a later read of that name gives,
/// whatever method of the class has the same name; the other fields and the
/// class are as they were.
pub proof fn law_get_after_set<V>(before: Instance<V>, after: Instance<V>, name: Seq<char>, value: V)
    requires
        after.class_of() == before.class_of(),
        after.fields() == before.fields().insert(name, value),
    ensures
        after.fields().contains_key(name),
        after.fields()[name] == value,
        forall|other: Seq<char>|
            other != name ==> (after.fields().contains_key(other) == before.fields().contains_key(other)
                && (before.fields().contains_key(other) ==> after.fields()[other] == before.fields()[other])),
        after.class_of().methods() == before.class_of().methods(),
{
}

} // verus!
