//! What the browser binding decides: the PHY a profile name builds.

use vstd::prelude::*;

use crate::fsk::{baseline_variants, DspVariants, DEFAULT_SYMBOL_RATE};
use crate::phy::{FskPhy, Profile};
use crate::text::str_eq;

verus! {

/// The text of the error for a profile name that is neither "audible" nor
/// "ultrasonic".
pub open spec fn unknown_profile_text(name: Seq<char>) -> Seq<char> {
    "unknown profile: "@ + name
}

/// The PHY a profile name selects, at the default rate with every variant
/// off: "audible" or "ultrasonic"; any other name is refused.
pub fn make_phy(profile: &str) -> (r: Result<FskPhy, String>)
    ensures
        profile@ == "audible"@ ==> (r matches Ok(p) && p.is_profile_at(
            Profile::Audible,
            DEFAULT_SYMBOL_RATE,
            baseline_variants(),
        )),
        profile@ == "ultrasonic"@ ==> (r matches Ok(p) && p.is_profile_at(
            Profile::Ultrasonic,
            DEFAULT_SYMBOL_RATE,
            baseline_variants(),
        )),
        profile@ != "audible"@ && profile@ != "ultrasonic"@ ==> (r matches Err(msg) && msg@
            == unknown_profile_text(profile@)),
{
    let v = DspVariants::baseline();
    proof {
        reveal_strlit("audible");
        reveal_strlit("ultrasonic");
        assert("audible"@.len() == 7);
        assert("ultrasonic"@.len() == 10);
        assert("audible"@ != "ultrasonic"@);
    }
    if str_eq(profile, "audible") {
        Ok(FskPhy::audible_with(v))
    } else if str_eq(profile, "ultrasonic") {
        Ok(FskPhy::ultrasonic_with(v))
    } else {
        let mut msg = String::from_str("unknown profile: ");
        msg.append(profile);
        Err(msg)
    }
}

} // verus!
