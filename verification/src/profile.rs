use vstd::prelude::*;

verus! {

/// Sex of a user, as far as the sensitivity derivation cares about it.
#[derive(Clone, Copy, PartialEq, Eq, Structural, Debug)]
pub enum Sex {
    Male,
    Female,
    Other,
}

/// Habitual activity level of a user.
#[derive(Clone, Copy, PartialEq, Eq, Structural, Debug)]
pub enum ActivityLevel {
    Sedentary,
    Moderate,
    Athletic,
}

/// Physical attributes a sensitivity profile is derived from. Weight and
/// height are held in thousandths (milli-kilograms and milli-centimetres),
/// so fractional measurements keep three decimal places.
#[derive(Clone, Copy, PartialEq, Eq, Structural, Debug)]
pub struct UserProfile {
    pub age: u8,
    pub weight_milli_kg: u64,
    pub height_milli_cm: u64,
    pub sex: Sex,
    pub activity_level: ActivityLevel,
    pub smoker: bool,
}

} // verus!
