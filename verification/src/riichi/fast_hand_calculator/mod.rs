/// Lookup tables of the fast calculator
pub mod resources;
/// Chiitoitsu shanten, kept up to date
pub mod chiitoi_classifier;
/// Kokushi shanten, kept up to date
pub mod kokushi_classifier;
/// Arrangement values to shanten
pub mod arrangement_classifier;
/// Arrangement values of the suits
pub mod suit_classifier;
/// Arrangement values of the honors
pub mod progressive_honor_classifier;
/// The fast shanten and uke-ire calculator
pub mod hand_calculator;
