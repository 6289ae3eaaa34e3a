use vstd::prelude::*;

use crate::bindings::Bindings;

verus! {

/// A class: its name and its methods by name.
pub struct Class<V> {
    pub name: String,
    methods: Bindings<V>,
}

impl<V> Class<V> {
    pub closed spec fn wf(&self) -> bool {
        self.methods.wf()
    }

    /// The class's name.
    pub closed spec fn class_name(&self) -> Seq<char> {
        self.name@
    }

    /// The methods, by name.
    pub closed spec fn methods(&self) -> Map<Seq<char>, V> {
        self.methods@
    }

    /// A class named `name` with the methods `methods`.
    pub fn new(name: &str, methods: Bindings<V>) -> (c: Class<V>)
        requires
            methods.wf(),
        ensures
            c.wf(),
            c.class_name() == name@,
            c.methods() == methods@,
    {
        Class { name: name.to_string(), methods }
    }

    /// The method named `name`, if the class has one.
    pub fn find_method(&self, name: &String) -> (m: Option<&V>)
        requires
            self.wf(),
        ensures
            match m {
                Some(v) => self.methods().contains_key(name@) && *v == self.methods()[name@],
                None => !self.methods().contains_key(name@),
            },
    {
        self.methods.get(name)
    }
}

} // verus!
