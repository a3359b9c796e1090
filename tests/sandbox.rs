use paircoded::sandbox::{
    build_bwrap_args, build_sandbox_args, build_sandbox_exec_args, is_sandbox_available, HostDirs,
    Platform, SandboxError,
};

#[test]
fn test_sandbox_available() {
    // May or may not be available on Linux and macOS, depending on the host.
    let _ = is_sandbox_available(Platform::Linux, true);
    assert!(!is_sandbox_available(Platform::Other, true));
}

#[test]
fn test_build_sandbox_args() {
    let working_dir = "/home/user/project";
    let dirs = HostDirs { has_lib: true, has_lib64: true, has_lib32: false };

    if is_sandbox_available(Platform::Linux, true) {
        let result = build_sandbox_args(Platform::Linux, "/bin/bash", &[], working_dir, dirs, true);
        assert!(result.is_ok());
        let (cmd, _args) = result.unwrap();
        assert_eq!(cmd, "bwrap");
    }
    if is_sandbox_available(Platform::MacOs, true) {
        let result = build_sandbox_args(Platform::MacOs, "/bin/bash", &[], working_dir, dirs, true);
        assert!(result.is_ok());
        let (cmd, _args) = result.unwrap();
        assert_eq!(cmd, "sandbox-exec");
    }
}

#[test]
fn bwrap_arguments_in_order() {
    let dirs = HostDirs { has_lib: true, has_lib64: false, has_lib32: true };
    let (cmd, args) = build_bwrap_args("/bin/zsh", &["-l"], "/w", dirs, true).unwrap();
    assert_eq!(cmd, "bwrap");
    let expected = [
        "--ro-bind", "/usr", "/usr", "--ro-bind", "/bin", "/bin", "--ro-bind", "/sbin", "/sbin",
        "--ro-bind", "/etc", "/etc", "--ro-bind", "/lib", "/lib", "--ro-bind", "/lib32", "/lib32",
        "--proc", "/proc", "--dev", "/dev", "--tmpfs", "/tmp", "--bind", "/w", "/w", "--chdir", "/w",
        "--unshare-user", "--unshare-pid", "--unshare-ipc", "--unshare-uts", "--unshare-cgroup",
        "--die-with-parent", "/bin/zsh", "-l",
    ];
    assert_eq!(args, expected.iter().map(|s| s.to_string()).collect::<Vec<_>>());
}

#[test]
fn missing_bwrap_and_unsupported_platform() {
    let dirs = HostDirs { has_lib: false, has_lib64: false, has_lib32: false };
    assert_eq!(build_bwrap_args("/bin/sh", &[], "/w", dirs, false).unwrap_err(), SandboxError::BwrapMissing);
    assert_eq!(
        build_sandbox_args(Platform::Linux, "/bin/sh", &[], "/w", dirs, false).unwrap_err(),
        SandboxError::BwrapMissing
    );
    assert_eq!(
        build_sandbox_args(Platform::Other, "/bin/sh", &[], "/w", dirs, true).unwrap_err(),
        SandboxError::Unsupported
    );
    assert!(SandboxError::Unsupported.message().contains("not supported"));
}

#[test]
fn seatbelt_profile_allows_working_dir() {
    let (cmd, args) = build_sandbox_exec_args("/bin/bash", &["-c", "ls"], "/Users/me/proj");
    assert_eq!(cmd, "sandbox-exec");
    assert_eq!(args.len(), 5);
    assert_eq!(args[0], "-p");
    assert!(args[1].starts_with("(version 1)\n(allow default)\n"));
    assert!(args[1].contains("(subpath \"/Users\")"));
    assert!(args[1].contains("(allow file-read* file-write*\n    (subpath \"/Users/me/proj\")\n)\n"));
    assert_eq!(&args[2..], &["/bin/bash", "-c", "ls"]);
}
