//! A package-management core: a canonical package model, a version
//! algebra, a multi-source catalog, a dependency resolver and a
//! transaction planner.
pub mod version;
pub mod model;

pub use model::{
    ConstraintOp, Dependency, PackageFormat, PackageInfo, PkgConfig, PkgError, Repository,
    RepositorySource, VersionConstraint,
};
pub mod resolver;
pub mod database;

pub use database::PackageDatabase;
pub mod planner;

pub use planner::Transaction;
pub use planner::RpmNext;
pub use resolver::Resolver;
pub use apt::AptRepository;
pub use dnf::DnfRepository;
pub use pacman::PacmanRepository;
pub use winget::WingetRepository;
pub use playstore::PlayStoreRepository;
pub use manager::UnifiedRepositoryManager;
pub mod text;
pub mod apt;
pub mod dnf;
pub mod pacman;
pub mod deb;
pub mod pkg;
pub mod rpm;
pub mod winget;
pub mod playstore;
pub mod repository;
pub mod manager;
