//! Runtime values and the environment that binds names to them.

use crate::text::{bool_text, bool_to_str, int_text, int_to_string};
use vstd::hash_map::StringHashMap;
use vstd::prelude::*;

verus! {

/// The mathematical model of a runtime value.
pub enum Value {
    Integer(i64),
    Boolean(bool),
    Null,
    /// A return signal on its way out of nested blocks, around the value returned.
    Return(Box<Value>),
    /// An error signal, with its message.
    Error(Seq<char>),
}

impl Value {
    /// The tagged rendering of a value, as it appears inside error messages.
    pub open spec fn text(self) -> Seq<char>
        decreases self,
    {
        match self {
            Value::Integer(i) => "Integer("@ + int_text(i as int) + ")"@,
            Value::Boolean(b) => "Boolean("@ + bool_text(b) + ")"@,
            Value::Null => "Null"@,
            Value::Return(inner) => "Return("@ + inner.text() + ")"@,
            Value::Error(message) => "Error("@ + message + ")"@,
        }
    }

    /// Whether the value is a signal, which only unwinds an evaluation and
    /// is never kept.
    pub open spec fn is_signal(self) -> bool {
        self is Return || self is Error
    }

    /// The canonical rendering shown to a user: integers in decimal, truth
    /// values as words, null as `null`, an error as its message, and a
    /// return signal as the value it carries.
    pub open spec fn display_text(self) -> Seq<char>
        decreases self,
    {
        match self {
            Value::Integer(i) => int_text(i as int),
            Value::Boolean(b) => bool_text(b),
            Value::Null => "null"@,
            Value::Return(inner) => inner.display_text(),
            Value::Error(message) => message,
        }
    }
}

/// A runtime value.
#[derive(Debug, PartialEq)]
pub enum Object {
    Integer(i64),
    Boolean(bool),
    Null,
    Return(Box<Object>),
    Error(String),
}

/// The model of a runtime value.
pub open spec fn object_value(object: &Object) -> Value
    decreases object,
{
    match object {
        Object::Integer(i) => Value::Integer(*i),
        Object::Boolean(b) => Value::Boolean(*b),
        Object::Null => Value::Null,
        Object::Return(inner) => Value::Return(Box::new(object_value(inner))),
        Object::Error(message) => Value::Error(message@),
    }
}

impl View for Object {
    type V = Value;

    open spec fn view(&self) -> Value {
        object_value(self)
    }
}

/// The model of an optional runtime value.
pub open spec fn option_value(o: Option<Object>) -> Option<Value> {
    match o {
        Some(object) => Some(object@),
        None => None,
    }
}

impl Clone for Object {
    fn clone(&self) -> (copy: Object)
        ensures
            copy@ == self@,
        decreases self,
    {
        match self {
            Object::Integer(i) => Object::Integer(*i),
            Object::Boolean(b) => Object::Boolean(*b),
            Object::Null => Object::Null,
            Object::Return(inner) => Object::Return(Box::new((**inner).clone())),
            Object::Error(message) => Object::Error(message.clone()),
        }
    }
}

impl Object {
    /// Structural equality of two values.
    pub fn same_as(&self, other: &Object) -> (same: bool)
        ensures
            same == (self@ == other@),
        decreases self,
    {
        match (self, other) {
            (Object::Integer(a), Object::Integer(b)) => *a == *b,
            (Object::Boolean(a), Object::Boolean(b)) => *a == *b,
            (Object::Null, Object::Null) => true,
            (Object::Return(a), Object::Return(b)) => (**a).same_as(&**b),
            (Object::Error(a), Object::Error(b)) => *a == *b,
            _ => false,
        }
    }

    /// The tagged rendering, such as `Integer(5)` or `Boolean(true)`.
    pub fn to_string(&self) -> (s: String)
        ensures
            s@ == self@.text(),
        decreases self,
    {
        match self {
            Object::Integer(i) => {
                let mut s = String::from_str("Integer(");
                s.append(int_to_string(*i).as_str());
                s.append(")");
                s
            },
            Object::Boolean(b) => {
                let mut s = String::from_str("Boolean(");
                s.append(bool_to_str(*b));
                s.append(")");
                s
            },
            Object::Null => String::from_str("Null"),
            Object::Return(inner) => {
                let mut s = String::from_str("Return(");
                s.append(inner.to_string().as_str());
                s.append(")");
                s
            },
            Object::Error(message) => {
                let mut s = String::from_str("Error(");
                s.append(message.as_str());
                s.append(")");
                s
            },
        }
    }

    /// The canonical rendering shown to a user.
    pub fn display(&self) -> (s: String)
        ensures
            s@ == self@.display_text(),
        decreases self,
    {
        match self {
            Object::Integer(i) => int_to_string(*i),
            Object::Boolean(b) => String::from_str(bool_to_str(*b)),
            Object::Null => String::from_str("null"),
            Object::Return(inner) => inner.display(),
            Object::Error(message) => message.clone(),
        }
    }
}

/// The bindings of one evaluation session, from names to values.
pub struct Environment {
    store: StringHashMap<Object>,
}

impl View for Environment {
    type V = Map<Seq<char>, Value>;

    closed spec fn view(&self) -> Map<Seq<char>, Value> {
        self.store@.map_values(|o: Object| o@)
    }
}

/// No name is bound to a signal: every value bound is an integer, a truth
/// value or null.
pub open spec fn signal_free(bindings: Map<Seq<char>, Value>) -> bool {
    forall|name: Seq<char>| #[trigger]
        bindings.contains_key(name) ==> !bindings[name].is_signal()
}

impl Environment {
    /// The invariant of an environment: it never holds a signal.
    pub open spec fn wf(&self) -> bool {
        signal_free(self@)
    }

    /// An environment without bindings.
    pub fn new() -> (env: Environment)
        ensures
            env@ == Map::<Seq<char>, Value>::empty(),
            env.wf(),
    {
        let env = Environment { store: StringHashMap::new() };
        assert(env@ =~= Map::<Seq<char>, Value>::empty());
        env
    }

    /// The value bound to `name`, if there is one.
    pub fn get(&self, name: &str) -> (found: Option<&Object>)
        ensures
            match found {
                Some(object) => self@.contains_key(name@) && object@ == self@[name@],
                None => !self@.contains_key(name@),
            },
    {
        self.store.get(name)
    }

    /// Binds `name` to `value`, in place of any earlier binding of that name.
    pub fn insert(&mut self, name: String, value: Object)
        requires
            !value@.is_signal(),
        ensures
            final(self)@ == old(self)@.insert(name@, value@),
            old(self).wf() ==> final(self).wf(),
    {
        self.store.insert(name, value);
        assert(self@ =~= old(self)@.insert(name@, value@));
    }
}

} // verus!
