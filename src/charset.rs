use vstd::prelude::*;

verus! {

/// A set of characters, held in bevy's `HashSet`.
#[verifier::external_body]
pub struct CharSet {
    inner: bevy::utils::HashSet<char>,
}

/// The characters that a `CharSet` holds.
pub uninterp spec fn chars_in(s: CharSet) -> Set<char>;

impl CharSet {
    /// Relies on bevy's `HashSet::default`: a new set is empty.
    #[verifier::external_body]
    pub fn new() -> (r: CharSet)
        ensures
            chars_in(r) == Set::<char>::empty(),
    {
        CharSet { inner: bevy::utils::HashSet::default() }
    }

    /// Relies on bevy's `HashSet::insert`: afterwards the set holds `c` besides what it held.
    #[verifier::external_body]
    pub fn insert(&mut self, c: char)
        ensures
            chars_in(*final(self)) == chars_in(*old(self)).insert(c),
    {
        self.inner.insert(c);
    }

    /// Relies on bevy's `HashSet::contains`: whether `c` is in the set.
    #[verifier::external_body]
    pub fn contains(&self, c: char) -> (r: bool)
        ensures
            r == chars_in(*self).contains(c),
    {
        self.inner.contains(&c)
    }
}

} // verus!
