use vstd::prelude::*;
use crate::compose::ComposedDeclaration;
use crate::member::Behavior;
use crate::registry::copy_all;

verus! {

/// An abstract interface: one signature per behaviour unit, no bodies.
#[derive(Debug)]
pub struct Contract {
    pub name: String,
    pub signatures: Vec<String>,
}

/// The composed behaviour units, implementing a contract for a declaration.
#[derive(Debug)]
pub struct Binding {
    pub contract: String,
    pub target: String,
    pub units: Vec<Behavior>,
}

/// The name of the contract synthesized for a declaration called `child`.
pub open spec fn contract_name(child: Seq<char>) -> Seq<char> {
    "CustomTraitFromForChild"@ + child
}

/// The signatures of `units`, in order.
pub open spec fn signatures_of(units: Seq<Behavior>) -> Seq<Seq<char>> {
    units.map_values(|b: Behavior| b.signature@)
}

/// `contract` and `binding` are what synthesis makes of `composed`.
pub open spec fn is_synthesis(composed: ComposedDeclaration, contract: Contract, binding: Binding) -> bool {
    &&& contract.name@ == contract_name(composed.name@)
    &&& contract.signatures@.map_values(|s: String| s@) == signatures_of(composed.behaviors@)
    &&& binding.contract == contract.name
    &&& binding.target == composed.name
    &&& binding.units@ == composed.behaviors@
}

/// Synthesizes the contract of a composed declaration, with one signature
/// per composed behaviour unit in the same order, and the binding of all the
/// composed units, inherited ones included, to it.
pub fn synthesize(composed: &ComposedDeclaration) -> (r: (Contract, Binding))
    ensures
        is_synthesis(*composed, r.0, r.1),
{
    let mut name = String::from_str("CustomTraitFromForChild");
    name.append(composed.name.as_str());
    let units = &composed.behaviors;
    let mut signatures: Vec<String> = Vec::new();
    let mut i: usize = 0;
    while i < units.len()
        invariant
            i <= units@.len(),
            signatures@.len() == i,
            forall|j: int| 0 <= j < i ==> #[trigger] signatures@[j]@ == units@[j].signature@,
        decreases units@.len() - i,
    {
        signatures.push(units[i].signature.clone());
        i += 1;
    }
    assert(signatures@.map_values(|s: String| s@) =~= signatures_of(units@));
    let contract = Contract { name: name.clone(), signatures };
    let binding = Binding { contract: name, target: composed.name.clone(), units: copy_all(units) };
    (contract, binding)
}

} // verus!
