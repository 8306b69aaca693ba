//! The command surface as plain data: the argument record, the subcommands,
//! and the decisions they stand for. Reading the process arguments and
//! dispatching their effects is the caller's business; here each command is
//! turned into the scan it asks for.

use vstd::prelude::*;
use crate::aggregate::ScanContext;
use crate::datasize::Datasize;

verus! {

/// How an added package is retained.
#[derive(Copy, Clone, Debug, PartialEq, Eq, Structural)]
pub enum InstallMode {
    Ephemeral,
    Local,
    Permanent,
}

/// The save-mode flag group: three exclusive switches over a configured
/// default.
#[derive(Clone, Debug)]
pub struct InstallModeArg {
    pub save_mode: InstallMode,
    pub ephemeral: bool,
    pub local: bool,
    pub permanent: bool,
}

impl InstallModeArg {
    /// The mode the switches select: the first switch set wins, in the order
    /// ephemeral, local, permanent; with none set, the configured default.
    pub fn to_value(self) -> (r: InstallMode)
        ensures
            r == (if self.ephemeral {
                InstallMode::Ephemeral
            } else if self.local {
                InstallMode::Local
            } else if self.permanent {
                InstallMode::Permanent
            } else {
                self.save_mode
            }),
    {
        if self.ephemeral {
            return InstallMode::Ephemeral;
        } else if self.local {
            return InstallMode::Local;
        } else if self.permanent {
            return InstallMode::Permanent;
        }
        return self.save_mode;
    }
}

/// The utility subcommands.
pub enum UtilsCommand {
    /// Scan a directory and report its children's aggregated sizes.
    Size { path: String, include_symlink: bool, quota_size: Option<Datasize> },
    Subsub2,
}

/// The top-level subcommands.
pub enum Commands {
    Add { save_mode: InstallModeArg, install: bool },
    Install { package_name: Option<String> },
    Env {},
    Utils { command: UtilsCommand },
}

/// One parsed invocation.
pub struct Argument {
    pub command: Commands,
    pub verbose: bool,
    pub debug: bool,
}

/// Parses a quota argument: a size string of the grammar that fits 64 bits,
/// or the rejection message.
pub fn is_datasize(val: &str) -> (r: Result<Datasize, String>)
    ensures
        match r {
            Ok(d) => crate::datasize::parse_spec(val@) == Some(d.value as nat),
            Err(m) => (crate::datasize::parse_spec(val@).is_none() || crate::datasize::parse_spec(
                val@,
            ).unwrap() > u64::MAX) && m@ == "不正なデータサイズの形式です"@,
        },
{
    match Datasize::try_from(val) {
        Ok(d) => Ok(d),
        Err(_) => Err("不正なデータサイズの形式です".to_owned()),
    }
}

/// The scan a utility subcommand asks for: the size subcommand asks for a
/// scan with its own parameters, the rest ask for none.
pub fn utils_cmd(cmd: &UtilsCommand) -> (r: Option<ScanContext>)
    ensures
        match *cmd {
            UtilsCommand::Size { ref path, include_symlink, quota_size } => match r {
                Some(ctx) => ctx.root@ == path@ && ctx.include_symlink == include_symlink
                    && ctx.quota_size == quota_size,
                None => false,
            },
            UtilsCommand::Subsub2 => r.is_none(),
        },
{
    match cmd {
        UtilsCommand::Size { path, include_symlink, quota_size } => Some(
            ScanContext {
                root: path.clone(),
                include_symlink: *include_symlink,
                quota_size: *quota_size,
            },
        ),
        UtilsCommand::Subsub2 => None,
    }
}

} // verus!
