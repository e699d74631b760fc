//! The identities whose consent is proven in the current invocation.

use vstd::prelude::*;

verus! {

/// The identity context of one invocation: the identities for which the
/// authorization provider holds proof of consent.
#[derive(Debug)]
pub struct AuthContext {
    granted: Vec<String>,
}

impl View for AuthContext {
    type V = Set<Seq<char>>;

    /// The set of identities that consented.
    closed spec fn view(&self) -> Set<Seq<char>> {
        Set::new(|who: Seq<char>| exists|i: int| 0 <= i < self.granted@.len() && self.granted@[i]@ == who)
    }
}

impl AuthContext {
    /// A context in which nobody has consented.
    pub fn new() -> (res: Self)
        ensures
            res@ == Set::<Seq<char>>::empty(),
    {
        let res = AuthContext { granted: Vec::new() };
        assert(res@ =~= Set::<Seq<char>>::empty());
        res
    }

    /// Records that `who` consented.
    pub fn grant(&mut self, who: String)
        ensures
            final(self)@ == old(self)@.insert(who@),
    {
        let ghost before = self.granted@;
        self.granted.push(who);
        assert forall|w: Seq<char>| #[trigger] self@.contains(w) == old(self)@.insert(who@).contains(w) by {
            if self@.contains(w) {
                let i = choose|i: int| 0 <= i < self.granted@.len() && self.granted@[i]@ == w;
                if i < before.len() {
                    assert(before[i]@ == w);
                }
            }
            if old(self)@.contains(w) {
                let i = choose|i: int| 0 <= i < before.len() && before[i]@ == w;
                assert(self.granted@[i]@ == w);
            }
            if w == who@ {
                assert(self.granted@[before.len() as int]@ == w);
            }
        }
        assert(self@ =~= old(self)@.insert(who@));
    }

    /// Whether `who` consented.
    pub fn permits(&self, who: &String) -> (yes: bool)
        ensures
            yes == self@.contains(who@),
    {
        let mut i: usize = 0;
        while i < self.granted.len()
            invariant
                i <= self.granted@.len(),
                forall|j: int| 0 <= j < i ==> self.granted@[j]@ != who@,
            decreases self.granted@.len() - i,
        {
            if self.granted[i] == *who {
                return true;
            }
            i = i + 1;
        }
        false
    }
}

} // verus!
