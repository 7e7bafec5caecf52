use cbar::ipc::{
    check_command_line, peer_allowed, route_launcher_command, socket_removal,
    validate_runtime_dir, CommandLineError, Ipc, LauncherCall, LauncherCommand, RuntimeDirError,
    RuntimeDirFacts, SocketRemoval,
};
use cbar::preparation::LauncherRequest;

fn private(uid: u32) -> RuntimeDirFacts {
    RuntimeDirFacts { is_dir: true, uid, mode: 0o40700 }
}

#[test]
fn accepts_private_runtime_directory_owned_by_effective_user() {
    validate_runtime_dir(private(1000), 1000).expect("private owned runtime directory to be valid");
    let ipc = Ipc::new("/run/user/1000", private(1000), 1000).expect("a private directory");
    assert_eq!(ipc.path(), "/run/user/1000/ironbar-ipc.sock");
    assert!(!ipc.path_may_be_too_long());
    let long = "/".repeat(100);
    assert!(Ipc::new(&long, private(1000), 1000).unwrap().path_may_be_too_long());
}

#[test]
fn rejects_runtime_directory_with_group_or_other_access() {
    let mut shared = private(1000);
    shared.mode = 0o40750;
    let error = validate_runtime_dir(shared, 1000).expect_err("shared runtime directory rejected");
    assert_eq!(
        error.message("/run/user/1000"),
        "XDG_RUNTIME_DIR /run/user/1000 has mode 750; group and other permissions must be zero"
    );
    assert_eq!(
        RuntimeDirError::SharedMode { mode: 0o7 }.message("/r"),
        "XDG_RUNTIME_DIR /r has mode 007; group and other permissions must be zero"
    );
}

#[test]
fn rejects_runtime_directory_owned_by_another_uid() {
    let error = validate_runtime_dir(private(1000), 1001)
        .expect_err("foreign runtime directory rejected");
    assert_eq!(
        error.message("/r"),
        "XDG_RUNTIME_DIR /r is owned by uid 1000, expected effective uid 1001"
    );
}

#[test]
fn rejects_runtime_directory_symlink() {
    let mut link = private(1000);
    link.is_dir = false;
    let error = validate_runtime_dir(link, 1000).expect_err("runtime symlink rejected");
    assert!(error.message("/r").contains("not a real directory"));
    assert_eq!(
        Ipc::new("", private(1000), 1000).map(|_| ()),
        Err(RuntimeDirError::Missing)
    );
}

#[test]
fn cleanup_refuses_non_socket_paths() {
    assert_eq!(socket_removal(false), SocketRemoval::NotASocket);
    assert_eq!(socket_removal(true), SocketRemoval::Remove);
}

#[test]
fn only_the_owner_may_command() {
    assert!(peer_allowed(1000, 1000));
    assert!(!peer_allowed(1001, 1000));
    assert_eq!(check_command_line(&Vec::new()), Err(CommandLineError::Closed));
    assert_eq!(check_command_line(&b"{}\n".to_vec()), Ok(()));
    assert_eq!(
        check_command_line(&vec![b'x'; 65_537]),
        Err(CommandLineError::TooLong)
    );
    assert_eq!(
        route_launcher_command(LauncherCommand::Show, false),
        LauncherCall::NotInitialized
    );
    assert_eq!(
        route_launcher_command(LauncherCommand::Toggle, true),
        LauncherCall::Request(LauncherRequest::Toggle)
    );
    assert_eq!(
        route_launcher_command(LauncherCommand::Status, true),
        LauncherCall::Status
    );
}
