use vstd::prelude::*;

verus! {

/// The bindings that a list of `(name, value)` entries makes when they are
/// added in order: a later entry for a name replaces an earlier one.
pub open spec fn bindings<O>(entries: Seq<(String, O)>) -> Map<Seq<char>, O>
    decreases entries.len(),
{
    if entries.len() == 0 {
        Map::empty()
    } else {
        bindings(entries.drop_last()).insert(entries.last().0@, entries.last().1)
    }
}

/// Maps identifiers to values; `add` replaces any earlier binding.
pub struct SymbolTable<O> {
    variables: Vec<(String, O)>,
}

impl<O> View for SymbolTable<O> {
    type V = Map<Seq<char>, O>;

    closed spec fn view(&self) -> Map<Seq<char>, O> {
        bindings(self.variables@)
    }
}

impl<O> SymbolTable<O> {
    pub fn new() -> (r: Self)
        ensures
            r@ == Map::<Seq<char>, O>::empty(),
    {
        SymbolTable { variables: Vec::new() }
    }

    /// The value bound to `id`, if any.
    pub fn lookup(&self, id: &str) -> (r: Option<&O>)
        ensures
            match r {
                Some(v) => self@.contains_key(id@) && *v == self@[id@],
                None => !self@.contains_key(id@),
            },
    {
        let key = String::from_str(id);
        let ghost s = self.variables@;
        let mut i = self.variables.len();
        assert(s.subrange(0, i as int) =~= s);
        while i > 0
            invariant
                s == self.variables@,
                i <= s.len(),
                bindings(s).contains_key(id@) == bindings(s.subrange(0, i as int)).contains_key(id@),
                bindings(s).contains_key(id@) ==> bindings(s)[id@] == bindings(
                    s.subrange(0, i as int),
                )[id@],
                key@ == id@,
            decreases i,
        {
            let entry = &self.variables[i - 1];
            assert(s.subrange(0, i as int).drop_last() =~= s.subrange(0, i - 1));
            if entry.0 == key {
                return Some(&entry.1);
            }
            i -= 1;
        }
        None
    }

    /// Binds `id` to `val`, replacing any earlier binding of `id`.
    pub fn add(&mut self, id: &str, val: O)
        ensures
            final(self)@ == old(self)@.insert(id@, val),
    {
        let key = String::from_str(id);
        self.variables.push((key, val));
        assert(self.variables@.drop_last() =~= old(self).variables@);
    }
}

} // verus!
