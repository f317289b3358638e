//! Tools for riichi mahjong: tiles, hands, shanten, shapes, yaku and scores.
pub mod riichi;
