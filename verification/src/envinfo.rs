//! The environment record the tool works against: its scratch directories,
//! its home directory, and the loaded configuration. The home directory is
//! handed in by the caller so the record stays a plain value.

use vstd::prelude::*;
use crate::config::Config;

verus! {

/// The tool's working paths and configuration.
pub struct EnvInfo {
    pub tmp_path: String,
    pub var_tmp_path: String,
    pub home_path: String,
    pub config: Config,
}

impl EnvInfo {
    /// A fresh environment record: fixed scratch paths, and the tool's home
    /// under the given home directory.
    pub fn new(home_dir: &str, config: Config) -> (r: Self)
        ensures
            r.tmp_path@ == "/tmp/epher"@,
            r.var_tmp_path@ == "/var/tmp/epher"@,
            r.home_path@ == home_dir@ + "/.epher"@,
            r.config == config,
    {
        let mut home_path = home_dir.to_owned();
        home_path.append("/.epher");
        Self {
            tmp_path: "/tmp/epher".to_owned(),
            var_tmp_path: "/var/tmp/epher".to_owned(),
            home_path,
            config,
        }
    }

    /// Re-derives the tool's home from a fresh home directory; everything
    /// else stays.
    pub fn update(&mut self, home_dir: &str)
        ensures
            final(self).home_path@ == home_dir@ + "/.epher"@,
            final(self).tmp_path == old(self).tmp_path,
            final(self).var_tmp_path == old(self).var_tmp_path,
            final(self).config == old(self).config,
    {
        let mut home_path = home_dir.to_owned();
        home_path.append("/.epher");
        self.home_path = home_path;
    }
}

} // verus!
