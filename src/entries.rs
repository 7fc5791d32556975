use vstd::prelude::*;
use crate::flags::CFGFlags;
use crate::text::byte_len;

verus! {

/// A numeric bound of an integer entry: a literal, or an engine constant that is resolved later.
#[derive(Clone, Copy, Debug, PartialEq, Eq, PartialOrd, Ord, Hash, Structural)]
pub enum IntBound {
    Literal(i64),
    MaxClients,
    ServerInfoLevelMin,
    ServerInfoLevelMax,
}

/// The type of the entry.
#[derive(Clone, Debug, PartialEq, Eq, PartialOrd, Ord, Hash)]
pub enum EntryType {
    Str {
        /// The max length of this string value config.
        max_length: usize,
        /// The default string.
        default: String,
        /// The value if used/filled by the config file.
        value: Option<String>,
    },
    Int {
        /// The max value of this int config.
        max: IntBound,
        /// The min value of this int config.
        min: IntBound,
        /// The default value of this int config.
        default: IntBound,
        /// The value if used/filled by the config file.
        value: Option<i64>,
    },
    Color {
        /// The default value of this color config.
        default: i64,
        /// The value if used/filled by the config file.
        value: Option<i64>,
    },
}

/// A configuration entry parsed from the header source file.
#[derive(Clone, Debug, PartialEq, Eq, PartialOrd, Ord, Hash)]
pub struct ConfigEntry {
    /// The description of this config entry.
    pub description: String,
    /// The type of the entry.
    pub entry_type: EntryType,
    /// The flags of the entry.
    pub flags: CFGFlags,
    /// The name of the entry, used in the config file.
    pub name: String,
    /// The symbol of the entry as used in the source code.
    pub symbol: String,
}

/// The bounds of an integer entry are ordered wherever all three are literals.
pub open spec fn int_bounds_ok(min: IntBound, default: IntBound, max: IntBound) -> bool {
    match (min, default, max) {
        (IntBound::Literal(lo), IntBound::Literal(d), IntBound::Literal(hi)) => lo <= d <= hi,
        _ => true,
    }
}

/// What every entry that the header grammar builds satisfies.
pub open spec fn entry_ok(e: ConfigEntry) -> bool {
    &&& e.flags.wf()
    &&& match e.entry_type {
        EntryType::Str { max_length, default, value } => byte_len(default@) <= max_length
            && value is None,
        EntryType::Int { max, min, default, value } => int_bounds_ok(min, default, max)
            && value is None,
        EntryType::Color { value, .. } => value is None,
    }
}

} // verus!
