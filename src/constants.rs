//! The environment of constants known within one function body.
use crate::field::FieldPrime;
use vstd::prelude::*;

verus! {

/// What the environment knows: for each kind, the names bound to a literal.
pub struct Environment {
    pub field_elements: Map<Seq<char>, FieldPrime>,
    pub booleans: Map<Seq<char>, bool>,
}

impl Environment {
    pub open spec fn empty() -> Environment {
        Environment { field_elements: Map::empty(), booleans: Map::empty() }
    }
}

/// The value most recently bound to `name` in `entries`, if any.
pub open spec fn latest<T>(entries: Seq<(String, T)>, name: Seq<char>) -> Option<T>
    decreases entries.len(),
{
    if entries.len() == 0 {
        None
    } else if entries.last().0@ == name {
        Some(entries.last().1)
    } else {
        latest(entries.drop_last(), name)
    }
}

/// The map from each bound name to its most recent value.
pub open spec fn bindings<T>(entries: Seq<(String, T)>) -> Map<Seq<char>, T> {
    Map::new(|k: Seq<char>| latest(entries, k) is Some, |k: Seq<char>| latest(entries, k)->0)
}

proof fn lemma_bindings_push<T>(entries: Seq<(String, T)>, name: String, v: T)
    ensures
        bindings(entries.push((name, v))) == bindings(entries).insert(name@, v),
{
    let pushed = entries.push((name, v));
    assert(pushed.drop_last() =~= entries);
    assert(bindings(pushed) =~= bindings(entries).insert(name@, v));
}

/// Looks `name` up from the most recent binding backwards.
fn lookup<T: Copy>(entries: &Vec<(String, T)>, name: &String) -> (r: Option<T>)
    ensures
        r == latest(entries@, name@),
{
    let mut i: usize = entries.len();
    assert(entries@.take(i as int) =~= entries@);
    while i > 0
        invariant
            i <= entries@.len(),
            latest(entries@, name@) == latest(entries@.take(i as int), name@),
        decreases i,
    {
        let ghost prefix = entries@.take(i as int);
        assert(prefix.drop_last() =~= entries@.take(i - 1));
        if entries[i - 1].0 == *name {
            return Some(entries[i - 1].1);
        }
        i = i - 1;
    }
    None
}

/// The constants proven so far in one function body, for both kinds of
/// variable. A later binding of a name replaces an earlier one.
pub struct Constants {
    field_elements: Vec<(String, FieldPrime)>,
    booleans: Vec<(String, bool)>,
}

impl View for Constants {
    type V = Environment;

    closed spec fn view(&self) -> Environment {
        Environment {
            field_elements: bindings(self.field_elements@),
            booleans: bindings(self.booleans@),
        }
    }
}

impl Constants {
    pub fn new() -> (r: Constants)
        ensures
            r@ == Environment::empty(),
    {
        let r = Constants { field_elements: Vec::new(), booleans: Vec::new() };
        assert(r@.field_elements =~= Map::empty());
        assert(r@.booleans =~= Map::empty());
        r
    }

    pub fn get_field_element(&self, id: &String) -> (r: Option<FieldPrime>)
        ensures
            r == (if self@.field_elements.contains_key(id@) {
                Some(self@.field_elements[id@])
            } else {
                None
            }),
    {
        lookup(&self.field_elements, id)
    }

    pub fn get_boolean(&self, id: &String) -> (r: Option<bool>)
        ensures
            r == (if self@.booleans.contains_key(id@) {
                Some(self@.booleans[id@])
            } else {
                None
            }),
    {
        lookup(&self.booleans, id)
    }

    pub fn insert_field_element(&mut self, id: String, value: FieldPrime)
        ensures
            final(self)@.field_elements == old(self)@.field_elements.insert(id@, value),
            final(self)@.booleans == old(self)@.booleans,
    {
        proof {
            lemma_bindings_push(self.field_elements@, id, value);
        }
        self.field_elements.push((id, value));
    }

    pub fn insert_boolean(&mut self, id: String, value: bool)
        ensures
            final(self)@.booleans == old(self)@.booleans.insert(id@, value),
            final(self)@.field_elements == old(self)@.field_elements,
    {
        proof {
            lemma_bindings_push(self.booleans@, id, value);
        }
        self.booleans.push((id, value));
    }
}

} // verus!
