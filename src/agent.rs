use crate::random::{choose_char, gen_alnum, gen_index, is_alnum};
use crate::text::{chars_of, string_of};
use rand::rngs::StdRng;
use vstd::prelude::*;

verus! {

/// One member of the population: a guess of fixed length.
#[derive(Clone)]
pub struct Agent {
    pub guess: String,
}

/// Every character of `s` is alphanumeric.
pub open spec fn all_alnum(s: Seq<char>) -> bool {
    forall|i: int| 0 <= i < s.len() ==> is_alnum(#[trigger] s[i])
}

/// At each position, `child` holds the character of `a` or that of `b`.
pub open spec fn drawn_from(child: Seq<char>, a: Seq<char>, b: Seq<char>) -> bool {
    &&& child.len() == a.len()
    &&& forall|i: int| 0 <= i < child.len() ==> #[trigger] child[i] == a[i] || child[i] == b[i]
}

/// `after` is `before` with the character at one position replaced by an
/// alphanumeric one.
pub open spec fn one_point_mutation(before: Seq<char>, after: Seq<char>) -> bool {
    exists|i: int, c: char|
        0 <= i < before.len() && is_alnum(c) && after == #[trigger] before.update(i, c)
}

impl Agent {
    /// A guess of `target_len` characters, each drawn from the alphanumeric
    /// alphabet.
    pub fn new(target_len: usize, rng: &mut StdRng) -> (r: Agent)
        ensures
            r.guess@.len() == target_len,
            all_alnum(r.guess@),
    {
        let mut chars: Vec<char> = Vec::new();
        let mut i: usize = 0;
        while i < target_len
            invariant
                i <= target_len,
                chars@.len() == i,
                all_alnum(chars@),
            decreases target_len - i,
        {
            let c = gen_alnum(rng);
            chars.push(c);
            i = i + 1;
        }
        Agent { guess: string_of(&chars) }
    }

    /// The current guess.
    pub fn act(&self) -> (r: String)
        ensures
            r@ == self.guess@,
    {
        self.guess.clone()
    }

    /// Uniform crossover: at each position the child takes the character of
    /// `self` or of `other`, by an independent coin flip.
    pub fn crossover(&self, other: &Agent, rng: &mut StdRng) -> (r: Agent)
        requires
            self.guess@.len() == other.guess@.len(),
        ensures
            drawn_from(r.guess@, self.guess@, other.guess@),
    {
        let mine = chars_of(&self.guess);
        let theirs = chars_of(&other.guess);
        let mut child: Vec<char> = Vec::new();
        let mut i: usize = 0;
        while i < mine.len()
            invariant
                i <= mine@.len(),
                mine@ == self.guess@,
                theirs@ == other.guess@,
                mine@.len() == theirs@.len(),
                child@.len() == i,
                forall|j: int| 0 <= j < i ==> #[trigger] child@[j] == mine@[j] || child@[j] == theirs@[j],
            decreases mine@.len() - i,
        {
            let pair = vec![mine[i], theirs[i]];
            let picked = choose_char(rng, &pair);
            let c = match picked {
                Some(c) => c,
                None => mine[i],
            };
            proof {
                if picked is Some {
                    assert(pair@.contains(c));
                    let k = choose|k: int| 0 <= k < pair@.len() && pair@[k] == c;
                    assert(k == 0 || k == 1);
                }
            }
            child.push(c);
            i = i + 1;
        }
        Agent { guess: string_of(&child) }
    }

    /// Replaces the character at one uniformly chosen position with a freshly
    /// drawn alphanumeric one (which may equal the old one). The length is
    /// unchanged.
    pub fn mutate(&mut self, rng: &mut StdRng)
        requires
            old(self).guess@.len() > 0,
        ensures
            final(self).guess@.len() == old(self).guess@.len(),
            one_point_mutation(old(self).guess@, final(self).guess@),
    {
        let mut chars = chars_of(&self.guess);
        let index = gen_index(rng, chars.len());
        let c = gen_alnum(rng);
        chars.set(index, c);
        self.guess = string_of(&chars);
        assert(self.guess@ == old(self).guess@.update(index as int, c));
    }
}

} // verus!
