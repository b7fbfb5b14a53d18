//! Element matrices and element vectors on simplices.

pub mod derivative_weight_law;
pub mod derivatives;
pub mod elements;
pub mod local_slots;
pub mod mass_laws;
pub mod quadrature_elements;
pub mod reference;
pub mod rule_law;
pub mod source;
pub mod source_law;
pub mod weight_law;
pub mod weights;
