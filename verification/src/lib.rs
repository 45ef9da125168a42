//! Dependency names and license metadata of Python project manifests.
//!
//! A manifest may declare its name, its license and its dependencies in a
//! `project` table or in a `tool.poetry` table; a requirements file lists
//! dependencies one to a line. This crate reduces each of them to a set of
//! canonical package names, and collects the declared licenses.

pub mod chars;
pub mod license;
pub mod manifest;
pub mod names;
pub mod normalize;
pub mod order;
pub mod requirements;

pub use license::{LicenseWeights, OBSERVED};
pub use manifest::{Poetry, Project, Pyproject};
pub use names::NameSet;
pub use normalize::get_python_dependency;
pub use requirements::parse_requirements_txt;
