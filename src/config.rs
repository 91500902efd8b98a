//! The configuration of a hoard, as far as the log engine reads it.

use vstd::prelude::*;
use crate::assoc::AssocList;
use crate::checksum::ChecksumType;
use crate::paths::HoardFile;

verus! {

/// The options of one pile.
#[derive(Debug)]
pub struct PileConfig {
    /// The algorithm used for the pile's checksums.
    pub checksum_type: ChecksumType,
    /// Glob patterns of paths to leave out.
    pub ignore: Vec<String>,
}

/// One pile of a configured hoard: its options and, if it applies on this
/// system, its path there.
#[derive(Debug)]
pub struct ConfigPile {
    pub config: PileConfig,
    pub path: Option<String>,
}

/// What a [`ConfigPile`] is: its checksum type, its path and its ignore patterns.
pub type ConfigPileView = (ChecksumType, Option<Seq<char>>, Seq<Seq<char>>);

impl View for ConfigPile {
    type V = ConfigPileView;

    open spec fn view(&self) -> ConfigPileView {
        (
            self.config.checksum_type,
            match self.path {
                Some(p) => Some(p@),
                None => None,
            },
            crate::filters::strings_view(self.config.ignore@),
        )
    }
}

/// A configured hoard: one pile, or piles by name.
#[derive(Debug)]
pub enum HoardConfig {
    Anonymous(ConfigPile),
    Named(AssocList<String, ConfigPile>),
}

/// The pile of a configured hoard that a file belongs to exists.
pub open spec fn has_pile_of(hoard: &HoardConfig, file: &HoardFile) -> bool {
    match (hoard, file.pile_name) {
        (HoardConfig::Anonymous(_), None) => true,
        (HoardConfig::Named(piles), Some(n)) => piles@.contains_key(n@),
        _ => false,
    }
}

/// The checksum type of the pile that a file belongs to.
pub open spec fn checksum_type_of(hoard: &HoardConfig, file: &HoardFile) -> ChecksumType {
    match (hoard, file.pile_name) {
        (HoardConfig::Anonymous(p), None) => p.config.checksum_type,
        (HoardConfig::Named(piles), Some(n)) => piles@[n@].0,
        _ => ChecksumType::MD5,
    }
}

/// The checksum type configured for the pile that a file belongs to.
pub fn checksum_type(hoard: &HoardConfig, hoard_file: &HoardFile) -> (r: ChecksumType)
    requires
        has_pile_of(hoard, hoard_file),
    ensures
        r == checksum_type_of(hoard, hoard_file),
{
    match hoard {
        HoardConfig::Anonymous(pile) => pile.config.checksum_type,
        HoardConfig::Named(piles) => match &hoard_file.pile_name {
            Some(name) => match piles.get(name) {
                Some(pile) => pile.config.checksum_type,
                None => ChecksumType::MD5,
            },
            None => ChecksumType::MD5,
        },
    }
}

} // verus!
