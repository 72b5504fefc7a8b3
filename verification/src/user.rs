//! Users and amounts.

use vstd::prelude::*;

verus! {

/// A participant is identified by name alone.
pub type UserName = String;

/// A monetary quantity, counted in hundredths of the unit in which amounts
/// are written. Nothing smaller is kept: a division rounds down to a whole
/// hundredth.
pub type Amount = i64;

/// A named participant of a ledger.
#[derive(Clone, Debug, PartialEq, Eq, Hash)]
pub struct User {
    pub name: UserName,
}

impl User {
    /// Creates the participant called `name`.
    pub fn new(name: &str) -> (user: User)
        ensures
            user.name@ == name@,
    {
        User { name: name.to_owned() }
    }

    /// The user as text: the name.
    pub fn to_string(&self) -> (text: String)
        ensures
            text@ == self.name@,
    {
        self.name.clone()
    }
}

} // verus!
