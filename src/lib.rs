//! Equipment build search: given wished skills and pools of armor pieces,
//! find every combination of pieces (with jewels set in their slots) that
//! grants all the wished skills.

pub mod armor_and_skills;
pub mod dominance;
pub mod pruning;
pub mod builds;
pub mod jewels;
pub mod build_search;
pub mod product;
