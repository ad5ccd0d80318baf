//! The runtime variable environment.
//!
//! A [`Context`] is one flat mutable mapping from variable name to
//! [`Value`]. There is no scope stack: a binding made inside a nested
//! construct (such as a loop body) persists in the same namespace after
//! that construct finishes.

use vstd::prelude::*;
use vstd::hash_map::StringHashMap;

use crate::value::{Value, ValueModel, value_model};

verus! {

/// The variable environment threaded through a render call.
///
/// Its view is the mathematical map from names to value models.
pub struct Context {
    data: StringHashMap<Value>,
}

impl View for Context {
    type V = Map<Seq<char>, ValueModel>;

    closed spec fn view(&self) -> Map<Seq<char>, ValueModel> {
        self.data@.map_values(|v: Value| value_model(v))
    }
}

impl Context {
    /// An empty environment.
    pub fn new() -> (r: Context)
        ensures
            r@ == Map::<Seq<char>, ValueModel>::empty(),
    {
        let data = StringHashMap::new();
        proof {
            assert(data@.map_values(|v: Value| value_model(v)) =~= Map::<
                Seq<char>,
                ValueModel,
            >::empty());
        }
        Context { data }
    }

    /// The value bound to `name`, or `None` when `name` is unset.
    pub fn get_val(&self, name: &str) -> (r: Option<&Value>)
        ensures
            match r {
                Some(v) => self@.contains_key(name@) && value_model(*v) == self@[name@],
                None => !self@.contains_key(name@),
            },
    {
        let r = self.data.get(name);
        proof {
            if self.data@.contains_key(name@) {
                assert(self@[name@] == value_model(self.data@[name@]));
            }
        }
        r
    }

    /// Binds `name` to `val`, inserting or overwriting unconditionally.
    pub fn set_val(&mut self, name: &str, val: Value)
        ensures
            final(self)@ == old(self)@.insert(name@, value_model(val)),
    {
        let ghost before = self.data@;
        self.data.insert(name.to_owned(), val);
        proof {
            assert(self.data@.map_values(|v: Value| value_model(v)) =~= before.map_values(
                |v: Value| value_model(v),
            ).insert(name@, value_model(val)));
        }
    }
}

impl Default for Context {
    /// An empty environment.
    fn default() -> (r: Context)
        ensures
            r@ == Map::<Seq<char>, ValueModel>::empty(),
    {
        Context::new()
    }
}

} // verus!
