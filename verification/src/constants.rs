//! Default values of the configuration.
use vstd::prelude::*;

verus! {

pub const DEFAULT_BRANCH: &'static str = "main";

pub const DEFAULT_FEAT: &'static str = "feat";

pub const DEFAULT_FIX: &'static str = "fix";

pub const DEFAULT_FEAT_MESSAGE: &'static str = "A new feature";

pub const DEFAULT_FIX_MESSAGE: &'static str = "A bug fix";

pub const DEFAULT_BREAKING: [&'static str; 1] = ["BREAKING CHANGE"];

pub const DEFAULT_SCOPES: &'static str = "any";

pub const COMMON_SCOPES: [&'static str; 7] = ["api", "ui", "db", "core", "cli", "config", "deps"];

pub const COMMIT_FIX_FILE_NAME: &'static str = ".cw-fix.json";

} // verus!
