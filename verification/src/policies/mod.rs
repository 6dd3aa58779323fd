//! The reference policies: deterministic decisions from a seat's view of the
//! game to the move it proposes.
//!
//! [`view`] models what a seat sees and the moves it can make, [`select`]
//! finds and counts the cards a policy looks for, and [`moves`] holds the
//! decisions the policies share. Each policy module states its whole decision
//! as a specification over the view, and its `propose_move` is proved to
//! return exactly that move.

pub mod view;
pub mod select;
pub mod moves;
pub mod boros_char_control;
pub mod boros_convoke_burn;
pub mod boros_radiance_assault;
pub mod boros_tempo;
pub mod boros_token_rally;
pub mod dimir_transmute_attrition;
pub mod dimir_transmute_convoke;
pub mod golgari_dredge_grind;
pub mod golgari_wurm_press;
pub mod seats;
