//! Marker files and the category each one falls under.

use vstd::prelude::*;
use core::convert::Infallible;
use crate::order::text_eq;
use core::str::FromStr;

verus! {

/// The category of a marker file. It selects the rule by which the project
/// root is sought from the marker's directory.
#[derive(Debug, Clone, PartialEq, Eq)]
pub enum MarkerType {
    PackageJson,
    CargoToml,
    DenoJson,
    /// A build file, by its name.
    BuildFile(String),
    /// Any other marker, by its name.
    OtherConfig(String),
}

/// A `MarkerType` with its name as a character sequence.
pub enum MarkerModel {
    PackageJson,
    CargoToml,
    DenoJson,
    BuildFile(Seq<char>),
    OtherConfig(Seq<char>),
}

impl View for MarkerType {
    type V = MarkerModel;

    open spec fn view(&self) -> MarkerModel {
        match self {
            MarkerType::PackageJson => MarkerModel::PackageJson,
            MarkerType::CargoToml => MarkerModel::CargoToml,
            MarkerType::DenoJson => MarkerModel::DenoJson,
            MarkerType::BuildFile(name) => MarkerModel::BuildFile(name@),
            MarkerType::OtherConfig(name) => MarkerModel::OtherConfig(name@),
        }
    }
}

impl MarkerModel {
    /// The file name that goes with this category: the name it holds, or the
    /// manifest's usual name.
    pub open spec fn name(self) -> Seq<char> {
        match self {
            MarkerModel::PackageJson => "package.json"@,
            MarkerModel::CargoToml => "Cargo.toml"@,
            MarkerModel::DenoJson => "deno.json"@,
            MarkerModel::BuildFile(name) => name,
            MarkerModel::OtherConfig(name) => name,
        }
    }
}

/// The category of the marker file called `name`.
pub open spec fn classify(name: Seq<char>) -> MarkerModel {
    if name == "package.json"@ {
        MarkerModel::PackageJson
    } else if name == "Cargo.toml"@ {
        MarkerModel::CargoToml
    } else if name == "deno.json"@ || name == "deno.jsonc"@ {
        MarkerModel::DenoJson
    } else if name == "Makefile"@ || name == "CMakeLists.txt"@ || name == "justfile"@ || name
        == "Justfile"@ {
        MarkerModel::BuildFile(name)
    } else {
        MarkerModel::OtherConfig(name)
    }
}

impl MarkerType {
    /// The category of the marker file called `name`. Every name has one;
    /// names that are not known fall under `OtherConfig`.
    pub fn classify(name: &str) -> (marker: MarkerType)
        ensures
            marker@ == classify(name@),
    {
        if text_eq(name, "package.json") {
            MarkerType::PackageJson
        } else if text_eq(name, "Cargo.toml") {
            MarkerType::CargoToml
        } else if text_eq(name, "deno.json") || text_eq(name, "deno.jsonc") {
            MarkerType::DenoJson
        } else if text_eq(name, "Makefile") || text_eq(name, "CMakeLists.txt") || text_eq(
            name,
            "justfile",
        ) || text_eq(name, "Justfile") {
            MarkerType::BuildFile(name.to_owned())
        } else {
            MarkerType::OtherConfig(name.to_owned())
        }
    }
}

impl MarkerType {
    /// The file name that goes with this category.
    pub fn name(&self) -> (name: &str)
        ensures
            name@ == self@.name(),
    {
        match self {
            MarkerType::PackageJson => "package.json",
            MarkerType::CargoToml => "Cargo.toml",
            MarkerType::DenoJson => "deno.json",
            MarkerType::BuildFile(name) => name.as_str(),
            MarkerType::OtherConfig(name) => name.as_str(),
        }
    }

    /// A copy of this category.
    pub fn duplicate(&self) -> (copy: MarkerType)
        ensures
            copy@ == self@,
    {
        match self {
            MarkerType::PackageJson => MarkerType::PackageJson,
            MarkerType::CargoToml => MarkerType::CargoToml,
            MarkerType::DenoJson => MarkerType::DenoJson,
            MarkerType::BuildFile(name) => MarkerType::BuildFile(name.clone()),
            MarkerType::OtherConfig(name) => MarkerType::OtherConfig(name.clone()),
        }
    }

    /// Whether both are the same category, with the same name where one is held.
    pub fn same_as(&self, other: &MarkerType) -> (same: bool)
        ensures
            same == (self@ == other@),
    {
        match (self, other) {
            (MarkerType::PackageJson, MarkerType::PackageJson) => true,
            (MarkerType::CargoToml, MarkerType::CargoToml) => true,
            (MarkerType::DenoJson, MarkerType::DenoJson) => true,
            (MarkerType::BuildFile(a), MarkerType::BuildFile(b)) => text_eq(a.as_str(), b.as_str()),
            (MarkerType::OtherConfig(a), MarkerType::OtherConfig(b)) => text_eq(
                a.as_str(),
                b.as_str(),
            ),
            _ => false,
        }
    }
}

impl FromStr for MarkerType {
    type Err = Infallible;

    fn from_str(s: &str) -> (r: Result<Self, Self::Err>)
        ensures
            r matches Ok(marker) && marker@ == classify(s@),
    {
        Ok(MarkerType::classify(s))
    }
}

} // verus!
