//! Animals that speak.

use vstd::prelude::*;

verus! {

/// Something that can speak.
pub trait Animal {
    /// What the animal says.
    spec fn sound(&self) -> Seq<char>;

    /// Says something, as a line of text.
    fn speak(&self) -> (said: String)
        ensures
            said@ == self.sound(),
    ;
}

/// A cat.
pub struct Cat;

/// A dog.
pub struct Dog;

impl Animal for Cat {
    open spec fn sound(&self) -> Seq<char> {
        "meow"@
    }

    fn speak(&self) -> (said: String) {
        String::from_str("meow")
    }
}

impl Animal for Dog {
    open spec fn sound(&self) -> Seq<char> {
        "woof"@
    }

    fn speak(&self) -> (said: String) {
        String::from_str("woof")
    }
}

/// Lets the animal speak twice; returns both lines, in order.
pub fn speak_twice<A: Animal>(animal: &A) -> (said: Vec<String>)
    ensures
        said@.map_values(|s: String| s@) == seq![animal.sound(), animal.sound()],
{
    let mut said: Vec<String> = Vec::new();
    said.push(animal.speak());
    said.push(animal.speak());
    assert(said@.map_values(|s: String| s@) =~= seq![animal.sound(), animal.sound()]);
    said
}

} // verus!
