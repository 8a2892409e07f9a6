use vstd::prelude::*;

verus! {

/// A fresh variable: a spelling kept for readable output, and the identifier
/// that alone decides whether two variables are the same.
#[derive(Debug)]
pub struct FreeVar {
    pub pretty_name: String,
    pub unique_id: u64,
}

/// The mathematical value of a [`FreeVar`].
pub struct FreeVarView {
    pub name: Seq<char>,
    pub id: nat,
}

impl View for FreeVar {
    type V = FreeVarView;

    open spec fn view(&self) -> FreeVarView {
        FreeVarView { name: self.pretty_name@, id: self.unique_id as nat }
    }
}

impl Clone for FreeVar {
    fn clone(&self) -> (res: Self)
        ensures
            res@ == self@,
    {
        FreeVar { pretty_name: self.pretty_name.clone(), unique_id: self.unique_id }
    }
}

impl PartialEq for FreeVar {
    /// Two variables are equal when their identifiers are, whatever their
    /// spellings.
    fn eq(&self, other: &Self) -> (res: bool) {
        self.unique_id == other.unique_id
    }
}

impl vstd::std_specs::cmp::PartialEqSpecImpl for FreeVar {
    open spec fn obeys_eq_spec() -> bool {
        true
    }

    open spec fn eq_spec(&self, other: &Self) -> bool {
        self.unique_id == other.unique_id
    }
}

impl FreeVar {
    /// Whether `self` and `other` are the same variable: their identifiers
    /// agree, whatever their spellings.
    pub fn same_var(&self, other: &FreeVar) -> (b: bool)
        ensures
            b == (self@.id == other@.id),
    {
        self.unique_id == other.unique_id
    }
}

/// The views of a vector of variables, in order.
pub open spec fn vars_view(vars: Seq<FreeVar>) -> Seq<FreeVarView> {
    Seq::new(vars.len(), |i: int| vars[i]@)
}

/// Whether a variable with the identifier `id` stands in `vars`.
pub open spec fn has_id(vars: Seq<FreeVarView>, id: nat) -> bool {
    exists|i: int| 0 <= i < vars.len() && vars[i].id == id
}

/// Whether `vars` holds a variable with the identifier of `v`.
pub fn contains_var(vars: &Vec<FreeVar>, v: &FreeVar) -> (b: bool)
    ensures
        b == has_id(vars_view(vars@), v@.id),
{
    let mut i: usize = 0;
    while i < vars.len()
        invariant
            i <= vars.len(),
            forall|j: int| 0 <= j < i ==> vars@[j]@.id != v@.id,
        decreases vars.len() - i,
    {
        if vars[i].same_var(v) {
            assert(vars_view(vars@)[i as int].id == v@.id);
            return true;
        }
        i += 1;
    }
    false
}

} // verus!
