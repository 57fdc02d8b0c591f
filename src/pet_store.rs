//! A store of animals of any kind, each of which can speak.

use vstd::prelude::*;

verus! {

/// Something that speaks.
pub trait Animal {
    /// What the animal says.
    spec fn speech(&self) -> Seq<char>;

    /// Says it.
    fn speak(&self) -> (r: String)
        ensures
            r@ == self.speech(),
    ;
}

/// A dog, which barks.
pub struct Dog {
    pub name: String,
}

/// A cat, which meows.
pub struct Cat {
    pub name: String,
}

impl Animal for Dog {
    open spec fn speech(&self) -> Seq<char> {
        self.name@ + " says Woof!"@
    }

    fn speak(&self) -> (r: String) {
        self.name.clone().concat(" says Woof!")
    }
}

impl Animal for Cat {
    open spec fn speech(&self) -> Seq<char> {
        self.name@ + " says Meow!"@
    }

    fn speak(&self) -> (r: String) {
        self.name.clone().concat(" says Meow!")
    }
}

/// A collection of animals, in the order in which they were added.
pub struct PetStore {
    pub animals: Vec<Box<dyn Animal>>,
}

impl PetStore {
    /// A store holding `animals`.
    pub fn new(animals: Vec<Box<dyn Animal>>) -> (r: PetStore)
        ensures
            r.animals@ == animals@,
    {
        PetStore { animals }
    }

    /// Lets every animal speak, in order.
    pub fn chatter(&self) {
        let mut i: usize = 0;
        while i < self.animals.len()
            invariant
                i <= self.animals.len(),
            decreases self.animals.len() - i,
        {
            let _said = self.animals[i].speak();
            i = i + 1;
        }
    }

    /// Adds `value` after the animals already held.
    pub fn add(&mut self, value: Box<dyn Animal>)
        ensures
            final(self).animals@ == old(self).animals@.push(value),
    {
        self.animals.push(value);
    }
}

} // verus!
