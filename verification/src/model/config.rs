//! The tool's settings.

use crate::text::str_equal;
use vstd::prelude::*;

verus! {

/// The settings of the tool.
#[derive(Debug, Clone)]
pub struct Config {
    /// Apply patch updates without asking.
    pub auto_update_patch: bool,
    /// Apply minor updates without asking.
    pub auto_update_minor: bool,
    /// The names of the packages that the checks pass over.
    pub ignore_crates: Vec<String>,
    /// Show detailed output.
    pub verbose: bool,
    /// Keep a backup when the manifest is rewritten.
    pub create_backups: bool,
    /// Look for security advisories in the health check.
    pub check_security: bool,
}

/// A sample settings file, with every key at its default.
pub const SAMPLE: &'static str = r#"# cargo-sane configuration file
# Place this file at:
#   - .cargo-sane.toml (project-specific)
#   - ~/.config/cargo-sane/config.toml (global)
#   - ~/.cargo-sane.toml (global, alternative)

# Automatically update patch versions (0.0.X) without prompting
auto_update_patch = false

# Automatically update minor versions (0.X.0) without prompting
auto_update_minor = false

# Crates to ignore during dependency checks
ignore_crates = [
    # "some-internal-crate",
]

# Show verbose output by default
verbose = false

# Create backups before modifying Cargo.toml
create_backups = true

# Check for security vulnerabilities during health checks
check_security = true
"#;

/// The value of a switch that is on unless the settings turn it off.
pub fn default_true() -> (r: bool)
    ensures
        r,
{
    true
}

impl Default for Config {
    fn default() -> (r: Self)
        ensures
            !r.auto_update_patch,
            !r.auto_update_minor,
            r.ignore_crates@.len() == 0,
            !r.verbose,
            r.create_backups,
            r.check_security,
    {
        Config {
            auto_update_patch: false,
            auto_update_minor: false,
            ignore_crates: Vec::new(),
            verbose: false,
            create_backups: default_true(),
            check_security: default_true(),
        }
    }
}

impl Config {
    /// Whether the checks pass over the package `crate_name`.
    pub fn should_ignore(&self, crate_name: &str) -> (r: bool)
        ensures
            r == self.ignore_crates.deep_view().contains(crate_name@),
    {
        let ghost names = self.ignore_crates.deep_view();
        let mut i: usize = 0;
        while i < self.ignore_crates.len()
            invariant
                i <= self.ignore_crates.len(),
                names == self.ignore_crates.deep_view(),
                forall|j: int| 0 <= j < i ==> names[j] != crate_name@,
            decreases self.ignore_crates.len() - i,
        {
            if str_equal(self.ignore_crates[i].as_str(), crate_name) {
                assert(names[i as int] == crate_name@);
                return true;
            }
            i += 1;
        }
        false
    }

    /// The text of a sample settings file.
    pub fn sample() -> (r: String)
        ensures
            r@ == SAMPLE@,
    {
        SAMPLE.to_string()
    }
}

} // verus!
