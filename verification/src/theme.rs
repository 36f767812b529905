//! Colours that depend on what is drawn: pin colours by data type and code
//! colours by token class, as (red, green, blue).
use vstd::prelude::*;

use crate::highlight::TokenClass;
use crate::plugin::plugin_registry;
use crate::types::PinDataType;

verus! {

/// The colour of a pin of each data type. Semantic types take the colour
/// registered for them; the registry holds only the built-in type, grey.
pub open spec fn spec_pin_rgb(t: PinDataType) -> (u8, u8, u8) {
    match t {
        PinDataType::Number => (100u8, 170u8, 240u8),
        PinDataType::Bool => (190u8, 130u8, 240u8),
        PinDataType::Any => (175u8, 175u8, 182u8),
        PinDataType::Exec => (235u8, 235u8, 240u8),
        PinDataType::Semantic(_) => (180u8, 180u8, 180u8),
    }
}

/// The colour of a pin.
pub fn pin_rgb(t: PinDataType) -> (c: (u8, u8, u8))
    ensures
        c == spec_pin_rgb(t),
{
    match t {
        PinDataType::Number => (100, 170, 240),
        PinDataType::Bool => (190, 130, 240),
        PinDataType::Any => (175, 175, 182),
        PinDataType::Exec => (235, 235, 240),
        PinDataType::Semantic(id) => {
            let registry = plugin_registry();
            match registry.semantic_type(id) {
                Some(s) => s.color,
                None => (180, 180, 180),
            }
        },
    }
}

/// The colour of code of each class.
pub open spec fn spec_token_rgb(c: TokenClass) -> (u8, u8, u8) {
    match c {
        TokenClass::Comment => (110u8, 110u8, 120u8),
        TokenClass::Str => (150u8, 210u8, 140u8),
        TokenClass::Number => (220u8, 180u8, 110u8),
        TokenClass::Keyword => (200u8, 140u8, 230u8),
        TokenClass::Plain => (215u8, 215u8, 222u8),
    }
}

/// The colour of a span of code.
pub fn token_rgb(c: TokenClass) -> (r: (u8, u8, u8))
    ensures
        r == spec_token_rgb(c),
{
    match c {
        TokenClass::Comment => (110, 110, 120),
        TokenClass::Str => (150, 210, 140),
        TokenClass::Number => (220, 180, 110),
        TokenClass::Keyword => (200, 140, 230),
        TokenClass::Plain => (215, 215, 222),
    }
}

} // verus!
