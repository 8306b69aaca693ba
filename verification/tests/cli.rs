use epher::cli::{utils_cmd, InstallMode, InstallModeArg, UtilsCommand};
use epher::datasize::Datasize;

fn arg(save_mode: InstallMode, ephemeral: bool, local: bool, permanent: bool) -> InstallModeArg {
    InstallModeArg { save_mode, ephemeral, local, permanent }
}

#[test]
fn to_value_prefers_switches_in_order() {
    assert_eq!(arg(InstallMode::Permanent, true, false, false).to_value(), InstallMode::Ephemeral);
    assert_eq!(arg(InstallMode::Permanent, false, true, false).to_value(), InstallMode::Local);
    assert_eq!(arg(InstallMode::Ephemeral, false, false, true).to_value(), InstallMode::Permanent);
    assert_eq!(arg(InstallMode::Local, false, false, false).to_value(), InstallMode::Local);
    assert_eq!(arg(InstallMode::Permanent, true, true, true).to_value(), InstallMode::Ephemeral);
}

#[test]
fn size_command_asks_for_a_scan() {
    let cmd = UtilsCommand::Size {
        path: "/some/dir".to_string(),
        include_symlink: true,
        quota_size: Some(Datasize::new(1000)),
    };
    let ctx = utils_cmd(&cmd).unwrap();
    assert_eq!(ctx.root, "/some/dir");
    assert!(ctx.include_symlink);
    assert_eq!(ctx.quota_size.unwrap().value, 1000);
}

#[test]
fn other_commands_ask_for_none() {
    assert!(utils_cmd(&UtilsCommand::Subsub2).is_none());
}

#[test]
fn is_datasize_maps_the_error() {
    assert_eq!(epher::cli::is_datasize("2GiB").unwrap().value, 2147483648);
    assert_eq!(epher::cli::is_datasize("5X").unwrap_err(), "不正なデータサイズの形式です");
}
