use vstd::prelude::*;

verus! {

/// A registered player: who sits at tables and carries a bankroll across hands.
#[derive(Debug, Clone)]
pub struct Guest {
    pub id: usize,
    pub name: String,
    /// Net chips won (positive) or lost (negative) over all finished hands.
    pub bankroll: isize,
}

impl Guest {
    /// A new guest with an empty bankroll.
    pub fn new(id: usize, name: &str) -> (r: Guest)
        ensures
            r.id == id,
            r.name@ == name@,
            r.bankroll == 0,
    {
        Guest { id, name: name.to_owned(), bankroll: 0 }
    }

    /// A field-by-field copy of the guest.
    pub fn duplicate(&self) -> (r: Guest)
        ensures
            r == *self,
    {
        Guest { id: self.id, name: self.name.clone(), bankroll: self.bankroll }
    }
}

impl PartialEq for Guest {
    fn eq(&self, other: &Guest) -> (r: bool) {
        self.id == other.id && self.name == other.name && self.bankroll == other.bankroll
    }
}

impl vstd::std_specs::cmp::PartialEqSpecImpl for Guest {
    open spec fn obeys_eq_spec() -> bool {
        true
    }

    open spec fn eq_spec(&self, other: &Guest) -> bool {
        self.id == other.id && self.name@ == other.name@ && self.bankroll == other.bankroll
    }
}

impl Eq for Guest {

}

} // verus!
