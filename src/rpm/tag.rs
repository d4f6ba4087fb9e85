//! RPM header tag numbers.
use vstd::prelude::*;

verus! {

pub const NAME: u32 = 1000;

pub const VERSION: u32 = 1001;

pub const RELEASE: u32 = 1002;

pub const SUMMARY: u32 = 1004;

pub const DESCRIPTION: u32 = 1005;

pub const SIZE: u32 = 1009;

pub const LICENSE: u32 = 1014;

pub const GROUP: u32 = 1016;

pub const URL: u32 = 1020;

pub const ARCH: u32 = 1022;

pub const FILENAMES: u32 = 1027;

pub const REQUIRES_NAME: u32 = 1049;

pub const REQUIRES_VERSION: u32 = 1050;

pub const REQUIRES_FLAGS: u32 = 1048;

pub const CONFLICTS_NAME: u32 = 1054;

pub const PROVIDES_NAME: u32 = 1047;

pub const OBSOLETES_NAME: u32 = 1090;

} // verus!
