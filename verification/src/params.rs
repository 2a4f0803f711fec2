//! The path parameters that a lookup captures.
use vstd::prelude::*;
use crate::trie::Capture;

verus! {

/// The value that the captures bind to `name`: that of the last capture
/// under this name, so that a later wildcard of the same name wins.
pub open spec fn spec_param(caps: Seq<Capture>, name: Seq<char>) -> Option<Seq<char>>
    decreases caps.len(),
{
    if caps.len() == 0 {
        None
    } else if caps.last().0 == name {
        Some(caps.last().1)
    } else {
        spec_param(caps.drop_last(), name)
    }
}

/// The path parameters of one request, in the order in which the path
/// bound them.
#[derive(Debug)]
pub struct Params {
    pairs: Vec<(String, String)>,
}

impl View for Params {
    type V = Seq<Capture>;

    closed spec fn view(&self) -> Seq<Capture> {
        Seq::new(self.pairs@.len(), |i: int| (self.pairs@[i].0@, self.pairs@[i].1@))
    }
}

impl Params {
    /// No parameters.
    pub fn new() -> (params: Self)
        ensures
            params@ == Seq::<Capture>::empty(),
    {
        let params = Params { pairs: Vec::new() };
        assert(params@ =~= Seq::<Capture>::empty());
        params
    }

    /// Binds `value` to `name`, after the bindings made so far.
    pub fn insert(&mut self, name: String, value: String)
        ensures
            final(self)@ == old(self)@.push((name@, value@)),
    {
        self.pairs.push((name, value));
        assert(self@ =~= old(self)@.push((name@, value@)));
    }

    /// The number of bindings.
    pub fn len(&self) -> (n: usize)
        ensures
            n == self@.len(),
    {
        self.pairs.len()
    }

    /// The value bound to `name`, if any.
    pub fn get(&self, name: &str) -> (r: Option<&String>)
        ensures
            match r {
                Some(v) => spec_param(self@, name@) == Some(v@),
                None => spec_param(self@, name@) is None,
            },
    {
        let wanted = String::from_str(name);
        let mut i: usize = self.pairs.len();
        assert(self@.take(i as int) =~= self@);
        while i > 0
            invariant
                i <= self.pairs.len(),
                wanted@ == name@,
                spec_param(self@.take(i as int), name@) == spec_param(self@, name@),
            decreases i,
        {
            i -= 1;
            proof {
                assert(self@.take(i + 1).drop_last() =~= self@.take(i as int));
                assert(self@.take(i + 1).last() == (self.pairs@[i as int].0@, self.pairs@[i as int].1@));
            }
            if self.pairs[i].0 == wanted {
                return Some(&self.pairs[i].1);
            }
        }
        None
    }
}

} // verus!
