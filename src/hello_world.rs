use vstd::prelude::*;

verus! {

/// A contract that answers greetings.
pub struct HelloWorld;

impl HelloWorld {
    /// The version of the greeting contract.
    pub fn version() -> (r: u32)
        ensures
            r == 1,
    {
        1
    }

    /// A greeting addressed to `to`: the word `Hello` followed by `to`.
    pub fn hello(to: String) -> (r: Vec<String>)
        ensures
            r@.len() == 2,
            r@[0]@ == "Hello"@,
            r@[1]@ == to@,
    {
        let mut words: Vec<String> = Vec::new();
        words.push(String::from_str("Hello"));
        words.push(to);
        words
    }

    /// A greeting that does not depend on the name given.
    pub fn greet(_name: String) -> (r: String)
        ensures
            r@ == "Hello"@,
    {
        String::from_str("Hello")
    }
}

} // verus!
