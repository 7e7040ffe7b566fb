//! The closed set of game variants ("flavors") and the directory names they
//! live under inside a World of Warcraft installation.

use vstd::prelude::*;
use crate::strings::str_eq;

verus! {

/// One variant of the game, each with its own directory tree and add-on set.
#[derive(Clone, Copy, Debug, PartialEq, Eq, Structural, Hash)]
pub enum Flavor {
    Retail,
    RetailPtr,
    RetailBeta,
    ClassicEra,
    Classic,
    ClassicPtr,
    ClassicBeta,
}

/// The directory name that a flavor occupies under the game's root folder.
pub open spec fn spec_folder_name(flavor: Flavor) -> Seq<char> {
    match flavor {
        Flavor::Retail => "_retail_"@,
        Flavor::RetailPtr => "_ptr_"@,
        Flavor::RetailBeta => "_beta_"@,
        Flavor::ClassicEra => "_classic_era_"@,
        Flavor::Classic => "_classic_"@,
        Flavor::ClassicPtr => "_classic_ptr_"@,
        Flavor::ClassicBeta => "_classic_beta_"@,
    }
}

/// `name` is the directory name of some flavor.
pub open spec fn known_folder_name(name: Seq<char>) -> bool {
    exists|f: Flavor| spec_folder_name(f) == name
}

impl Flavor {
    /// Every flavor, in a fixed order.
    pub fn all() -> (r: Vec<Flavor>)
        ensures
            r@ =~= seq![
                Flavor::Retail,
                Flavor::RetailPtr,
                Flavor::RetailBeta,
                Flavor::ClassicEra,
                Flavor::Classic,
                Flavor::ClassicPtr,
                Flavor::ClassicBeta,
            ],
    {
        let mut v: Vec<Flavor> = Vec::new();
        v.push(Flavor::Retail);
        v.push(Flavor::RetailPtr);
        v.push(Flavor::RetailBeta);
        v.push(Flavor::ClassicEra);
        v.push(Flavor::Classic);
        v.push(Flavor::ClassicPtr);
        v.push(Flavor::ClassicBeta);
        v
    }

    /// The directory name of this flavor under the game's root folder.
    pub fn folder_name(&self) -> (r: &'static str)
        ensures
            r@ == spec_folder_name(*self),
    {
        match self {
            Flavor::Retail => "_retail_",
            Flavor::RetailPtr => "_ptr_",
            Flavor::RetailBeta => "_beta_",
            Flavor::ClassicEra => "_classic_era_",
            Flavor::Classic => "_classic_",
            Flavor::ClassicPtr => "_classic_ptr_",
            Flavor::ClassicBeta => "_classic_beta_",
        }
    }
}

/// Decides whether `name` is the directory name of any flavor.
pub fn is_known_folder_name(name: &str) -> (r: bool)
    ensures
        r == known_folder_name(name@),
{
    if str_eq(name, "_retail_") {
        proof {
            assert(spec_folder_name(Flavor::Retail) == name@);
        }
        true
    } else if str_eq(name, "_ptr_") {
        proof {
            assert(spec_folder_name(Flavor::RetailPtr) == name@);
        }
        true
    } else if str_eq(name, "_beta_") {
        proof {
            assert(spec_folder_name(Flavor::RetailBeta) == name@);
        }
        true
    } else if str_eq(name, "_classic_era_") {
        proof {
            assert(spec_folder_name(Flavor::ClassicEra) == name@);
        }
        true
    } else if str_eq(name, "_classic_") {
        proof {
            assert(spec_folder_name(Flavor::Classic) == name@);
        }
        true
    } else if str_eq(name, "_classic_ptr_") {
        proof {
            assert(spec_folder_name(Flavor::ClassicPtr) == name@);
        }
        true
    } else if str_eq(name, "_classic_beta_") {
        proof {
            assert(spec_folder_name(Flavor::ClassicBeta) == name@);
        }
        true
    } else {
        proof {
            assert forall|f: Flavor| spec_folder_name(f) != name@ by {
                match f {
                    Flavor::Retail => assert(spec_folder_name(f) == "_retail_"@),
                    Flavor::RetailPtr => assert(spec_folder_name(f) == "_ptr_"@),
                    Flavor::RetailBeta => assert(spec_folder_name(f) == "_beta_"@),
                    Flavor::ClassicEra => assert(spec_folder_name(f) == "_classic_era_"@),
                    Flavor::Classic => assert(spec_folder_name(f) == "_classic_"@),
                    Flavor::ClassicPtr => assert(spec_folder_name(f) == "_classic_ptr_"@),
                    Flavor::ClassicBeta => assert(spec_folder_name(f) == "_classic_beta_"@),
                }
            }
        }
        false
    }
}

} // verus!
