//! Well-known F-Droid repositories.
use vstd::prelude::*;

verus! {

pub const MAIN: &'static str = "https://f-droid.org/repo";

pub const ARCHIVE: &'static str = "https://f-droid.org/archive";

pub const IZZY: &'static str = "https://apt.izzysoft.de/fdroid/repo";

pub const GUARDIAN: &'static str = "https://guardianproject.info/fdroid/repo";

pub const BITWARDEN: &'static str = "https://mobileapp.bitwarden.com/fdroid/repo";

} // verus!
