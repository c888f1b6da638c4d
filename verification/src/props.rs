//! The property map of a matched region: names and values, both strings,
//! as the archive stores them for one feature.

use vstd::prelude::*;

verus! {

/// Whether the list of `pairs` spells out exactly the mapping `m`: every
/// pair is an entry of `m`, every key of `m` occurs, and no key occurs
/// twice.
pub open spec fn represents_props(pairs: Seq<(String, String)>, m: Map<Seq<char>, Seq<char>>) -> bool {
    &&& forall|i: int| 0 <= i < pairs.len()
        ==> m.contains_key((#[trigger] pairs[i]).0@) && m[pairs[i].0@] == pairs[i].1@
    &&& forall|k: Seq<char>| #[trigger] m.contains_key(k)
        ==> exists|i: int| 0 <= i < pairs.len() && (#[trigger] pairs[i]).0@ == k
    &&& forall|i: int, j: int| 0 <= i < j < pairs.len()
        ==> (#[trigger] pairs[i]).0@ != (#[trigger] pairs[j]).0@
}

/// The properties of one matched region: a mapping from property name to
/// string value. Viewed as a `Map` from name to value.
pub struct PropertyMap {
    pairs: Vec<(String, String)>,
    props: Ghost<Map<Seq<char>, Seq<char>>>,
}

impl View for PropertyMap {
    type V = Map<Seq<char>, Seq<char>>;

    closed spec fn view(&self) -> Map<Seq<char>, Seq<char>> {
        self.props@
    }
}

impl PropertyMap {
    /// Whether the stored pairs and the viewed mapping agree.
    pub closed spec fn wf(&self) -> bool {
        represents_props(self.pairs@, self.props@)
    }

    /// Package a list of pairs known to spell out the mapping `m`.
    pub(crate) fn from_pairs(pairs: Vec<(String, String)>, m: Ghost<Map<Seq<char>, Seq<char>>>) -> (r: PropertyMap)
        requires
            represents_props(pairs@, m@),
        ensures
            r.wf(),
            r@ == m@,
    {
        PropertyMap { pairs, props: m }
    }

    /// Look the property `name` up: its value when the region carries it,
    /// `None` when it does not.
    pub fn get(&self, name: &str) -> (r: Option<String>)
        requires
            self.wf(),
        ensures
            r is Some <==> self@.contains_key(name@),
            r is Some ==> r->0@ == self@[name@],
    {
        let key: String = name.to_owned();
        let mut i: usize = 0;
        while i < self.pairs.len()
            invariant
                0 <= i <= self.pairs.len(),
                self.wf(),
                key@ == name@,
                self@ == self.props@,
                represents_props(self.pairs@, self.props@),
                forall|j: int| 0 <= j < i ==> (#[trigger] self.pairs@[j]).0@ != name@,
            decreases self.pairs.len() - i,
        {
            if self.pairs[i].0 == key {
                return Some(self.pairs[i].1.clone());
            }
            i = i + 1;
        }
        proof {
            // were the key present, some pair would spell it out, against
            // the loop's finding
            assert(!self@.contains_key(name@));
        }
        None
    }
}

} // verus!
