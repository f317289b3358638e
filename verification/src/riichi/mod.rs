/// Defines the error struct
pub mod riichi_error;
/// Rules module
pub mod rules;
/// Characters and decimal notation
pub mod text;
/// Tile handling module
pub mod tile;
/// Shape representations module
pub mod shapes;
/// Sequences of hand slots
pub mod tiles_seq;
/// Hand representation module
pub mod hand;
/// Counting tiles and slots
pub mod tile_counts;
/// Shanten calculator
pub mod shanten;
/// Marking the tiles of calls
pub mod marking;
/// Hand notation
pub mod hand_text;
/// Reading hand notation
pub mod hand_parse;
/// Tiles that improve a hand
pub mod improving;
/// Scores
pub mod scores;
/// Random numbers
pub mod random;
/// Random hands
pub mod random_hands;
/// South 4 simulator
pub mod south_4_simulator;
/// Splitting hands into shapes
pub mod shape_finder;
/// Game state
pub mod table;
/// Yaku
pub mod yaku;
/// Closed kans
pub mod ankan;
/// Fast shanten calculator
pub mod fast_hand_calculator;
/// Properties that relate the library's functions
pub mod laws;
/// Reading back the hand notation
pub mod text_laws;
/// Properties of shanten, yaku, fu and tiles that improve a hand
pub mod hand_laws;
