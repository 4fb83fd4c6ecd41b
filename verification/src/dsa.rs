//! The rules: resolving checks, initiative order and dice expressions.

pub mod check;
pub mod commands;
pub mod expression;
pub mod facilitation;
pub mod initiative;
pub mod ordering;

pub use self::check::roll_check;
pub use self::commands::{
    attack_check, attribute_check, chant_check, dodge_check, parry_check, spell_check,
    talent_check,
};
pub use self::expression::roll;
pub use self::facilitation::get_facilitation;
pub use self::initiative::roll_ini;
