//! The closed set of material kinds the colony can store and spend.

use vstd::prelude::*;

verus! {

/// A material kind. Each kind occupies a fixed amount of area per unit
/// (its piece size, see the storage ledger).
#[derive(PartialEq, Eq, Structural, Clone, Copy, Debug, Hash)]
pub enum Resource {
    /// Food concentrate.
    Concentrat,
    /// Scrap of common metals.
    ScrapT1,
    /// Scrap of non-ferrous metals.
    ScrapT2,
    /// Scrap of rare metals.
    ScrapT3,
    /// Mechanical component.
    ComponentT1,
    /// Electronic component.
    ComponentT2,
    /// Artifact component.
    ComponentT3,
    /// Reagent of destruction.
    ReagentT1,
    /// Reagent of binding.
    ReagentT2,
    /// Reagent of change.
    ReagentT3,
    /// Concrete rubble.
    Concrete,
    /// Slime.
    Slime,
    /// Universal polymer.
    Polymer,
    /// Biological raw matter.
    BioRaw,
}

/// The canonical listing of every resource kind, in a fixed order.
pub open spec fn spec_all_resources() -> Seq<Resource> {
    seq![
        Resource::Concentrat,
        Resource::ScrapT1,
        Resource::ScrapT2,
        Resource::ScrapT3,
        Resource::ComponentT1,
        Resource::ComponentT2,
        Resource::ComponentT3,
        Resource::ReagentT1,
        Resource::ReagentT2,
        Resource::ReagentT3,
        Resource::Concrete,
        Resource::Slime,
        Resource::Polymer,
        Resource::BioRaw,
    ]
}

/// Every resource kind, in the canonical order.
pub fn all_resources() -> (r: Vec<Resource>)
    ensures
        r@ == spec_all_resources(),
{
    let r = vec![
        Resource::Concentrat,
        Resource::ScrapT1,
        Resource::ScrapT2,
        Resource::ScrapT3,
        Resource::ComponentT1,
        Resource::ComponentT2,
        Resource::ComponentT3,
        Resource::ReagentT1,
        Resource::ReagentT2,
        Resource::ReagentT3,
        Resource::Concrete,
        Resource::Slime,
        Resource::Polymer,
        Resource::BioRaw,
    ];
    proof {
        assert(r@ =~= spec_all_resources());
    }
    r
}

} // verus!
