//! Sandboxed shell command lines.
//!
//! On Linux the shell runs under bubblewrap with the working directory as the
//! only writable mount; on macOS under sandbox-exec with a Seatbelt profile
//! that hides `/Users` except the working directory. Probing the host (is the
//! helper installed, which library directories exist) is done by the caller,
//! which hands the answers in as plain values.
use vstd::prelude::*;
use vstd::string::StringExecFns;

verus! {

/// The operating system family the agent runs on.
#[derive(Clone, Copy, Debug, PartialEq, Eq, Structural)]
pub enum Platform {
    Linux,
    MacOs,
    Other,
}

/// Which optional library directories exist on the host.
#[derive(Clone, Copy, Debug, PartialEq, Eq, Structural)]
pub struct HostDirs {
    pub has_lib: bool,
    pub has_lib64: bool,
    pub has_lib32: bool,
}

/// What to tell the user when bubblewrap is missing.
pub const BWRAP_MISSING: &'static str =
    "bubblewrap (bwrap) is not installed. Install it with:\n - Debian/Ubuntu: sudo apt install bubblewrap\n - Fedora: sudo dnf install bubblewrap\n - Arch: sudo pacman -S bubblewrap";

/// Why a sandboxed command line could not be built.
#[derive(Clone, Copy, Debug, PartialEq, Eq, Structural)]
pub enum SandboxError {
    /// The platform has no supported sandbox helper.
    Unsupported,
    /// bubblewrap is not installed.
    BwrapMissing,
}

impl SandboxError {
    /// A message for the user.
    pub fn message(&self) -> (r: &'static str)
        ensures
            *self == SandboxError::Unsupported ==> r@ == "Sandboxing is not supported on this platform"@,
            *self == SandboxError::BwrapMissing ==> r@ == BWRAP_MISSING@,
    {
        match self {
            SandboxError::Unsupported => "Sandboxing is not supported on this platform",
            SandboxError::BwrapMissing => BWRAP_MISSING,
        }
    }
}

/// Start of the Seatbelt profile, up to the working directory.
pub const PROFILE_HEAD: &'static str =
    "(version 1)\n(allow default)\n\n;; Deny access to all user home directories\n(deny file-read* file-write*\n    (subpath \"/Users\")\n)\n\n;; Re-allow access to the specific working directory\n(allow file-read* file-write*\n    (subpath \"";

/// End of the Seatbelt profile, after the working directory.
pub const PROFILE_TAIL: &'static str = "\")\n)\n";

/// The views of a sequence of strings.
pub open spec fn views_of(v: Seq<String>) -> Seq<Seq<char>> {
    v.map_values(|s: String| s@)
}

/// The views of a sequence of string slices.
pub open spec fn str_views_of(v: Seq<&str>) -> Seq<Seq<char>> {
    v.map_values(|s: &str| s@)
}

/// Whether a sandbox can be used, given the platform and the outcome of the
/// host probe (`bwrap --version` on Linux, `/usr/bin/sandbox-exec` on macOS).
pub fn is_sandbox_available(platform: Platform, probe_ok: bool) -> (r: bool)
    ensures
        r == (platform != Platform::Other && probe_ok),
{
    match platform {
        Platform::Linux => probe_ok,
        Platform::MacOs => probe_ok,
        Platform::Other => false,
    }
}

/// `--ro-bind dir dir`.
pub open spec fn ro_bind(dir: Seq<char>) -> Seq<Seq<char>> {
    seq!["--ro-bind"@, dir, dir]
}

/// The bubblewrap arguments that run `shell shell_args` with `wd` as the only
/// writable directory.
pub open spec fn bwrap_args(shell: Seq<char>, shell_args: Seq<Seq<char>>, wd: Seq<char>, dirs: HostDirs) -> Seq<Seq<char>> {
    ro_bind("/usr"@) + ro_bind("/bin"@) + ro_bind("/sbin"@) + ro_bind("/etc"@)
        + (if dirs.has_lib { ro_bind("/lib"@) } else { seq![] })
        + (if dirs.has_lib64 { ro_bind("/lib64"@) } else { seq![] })
        + (if dirs.has_lib32 { ro_bind("/lib32"@) } else { seq![] })
        + seq!["--proc"@, "/proc"@, "--dev"@, "/dev"@, "--tmpfs"@, "/tmp"@]
        + seq!["--bind"@, wd, wd, "--chdir"@, wd]
        + seq!["--unshare-user"@, "--unshare-pid"@, "--unshare-ipc"@, "--unshare-uts"@, "--unshare-cgroup"@]
        + seq!["--die-with-parent"@, shell]
        + shell_args
}

/// The Seatbelt profile that confines the shell to `wd` under `/Users`.
pub open spec fn seatbelt_profile(wd: Seq<char>) -> Seq<char> {
    PROFILE_HEAD@ + wd + PROFILE_TAIL@
}

/// The sandbox-exec arguments that run `shell shell_args` under the profile for `wd`.
pub open spec fn sandbox_exec_args(shell: Seq<char>, shell_args: Seq<Seq<char>>, wd: Seq<char>) -> Seq<Seq<char>> {
    seq!["-p"@, seatbelt_profile(wd), shell] + shell_args
}

fn push_str(v: &mut Vec<String>, s: &str)
    ensures
        views_of(final(v)@) == views_of(old(v)@).push(s@),
{
    v.push(s.to_owned());
    assert(views_of(v@) =~= views_of(old(v)@).push(s@));
}

fn push_all(v: &mut Vec<String>, items: &[&str])
    ensures
        views_of(final(v)@) == views_of(old(v)@) + str_views_of(items@),
{
    let mut i: usize = 0;
    while i < items.len()
        invariant
            i <= items@.len(),
            views_of(v@) == views_of(old(v)@) + str_views_of(items@.subrange(0, i as int)),
        decreases items@.len() - i,
    {
        push_str(v, items[i]);
        assert(str_views_of(items@.subrange(0, i + 1)) =~= str_views_of(
            items@.subrange(0, i as int),
        ).push(items@[i as int]@));
        i = i + 1;
    }
    assert(items@.subrange(0, items@.len() as int) =~= items@);
}

fn push_string(v: &mut Vec<String>, s: String)
    ensures
        views_of(final(v)@) == views_of(old(v)@).push(s@),
{
    let ghost sv = s@;
    v.push(s);
    assert(views_of(v@) =~= views_of(old(v)@).push(sv));
}

fn push_ro_bind(v: &mut Vec<String>, dir: &str)
    ensures
        views_of(final(v)@) == views_of(old(v)@) + ro_bind(dir@),
{
    push_str(v, "--ro-bind");
    push_str(v, dir);
    push_str(v, dir);
    assert(views_of(v@) =~= views_of(old(v)@) + ro_bind(dir@));
}

fn push_ro_bind_if(v: &mut Vec<String>, present: bool, dir: &str)
    ensures
        views_of(final(v)@) == views_of(old(v)@) + (if present { ro_bind(dir@) } else { seq![] }),
{
    if present {
        push_ro_bind(v, dir);
    } else {
        assert(views_of(v@) =~= views_of(v@) + seq![]);
    }
}

fn push_system_mounts(v: &mut Vec<String>, dirs: HostDirs)
    ensures
        views_of(final(v)@) == views_of(old(v)@) + ro_bind("/usr"@) + ro_bind("/bin"@) + ro_bind(
            "/sbin"@,
        ) + ro_bind("/etc"@) + (if dirs.has_lib { ro_bind("/lib"@) } else { seq![] }) + (
        if dirs.has_lib64 { ro_bind("/lib64"@) } else { seq![] }) + (if dirs.has_lib32 { ro_bind("/lib32"@) } else { seq![] }),
{
    push_ro_bind(v, "/usr");
    push_ro_bind(v, "/bin");
    push_ro_bind(v, "/sbin");
    push_ro_bind(v, "/etc");
    push_ro_bind_if(v, dirs.has_lib, "/lib");
    push_ro_bind_if(v, dirs.has_lib64, "/lib64");
    push_ro_bind_if(v, dirs.has_lib32, "/lib32");
}

fn push_special_mounts(v: &mut Vec<String>, working_dir: &str)
    ensures
        views_of(final(v)@) == views_of(old(v)@) + seq!["--proc"@, "/proc"@, "--dev"@, "/dev"@, "--tmpfs"@, "/tmp"@]
            + seq!["--bind"@, working_dir@, working_dir@, "--chdir"@, working_dir@],
{
    push_str(v, "--proc");
    push_str(v, "/proc");
    push_str(v, "--dev");
    push_str(v, "/dev");
    push_str(v, "--tmpfs");
    push_str(v, "/tmp");
    push_str(v, "--bind");
    push_str(v, working_dir);
    push_str(v, working_dir);
    push_str(v, "--chdir");
    push_str(v, working_dir);
    assert(views_of(v@) =~= views_of(old(v)@) + seq!["--proc"@, "/proc"@, "--dev"@, "/dev"@, "--tmpfs"@, "/tmp"@]
        + seq!["--bind"@, working_dir@, working_dir@, "--chdir"@, working_dir@]);
}

fn push_isolation(v: &mut Vec<String>, shell: &str)
    ensures
        views_of(final(v)@) == views_of(old(v)@) + seq!["--unshare-user"@, "--unshare-pid"@, "--unshare-ipc"@, "--unshare-uts"@, "--unshare-cgroup"@]
            + seq!["--die-with-parent"@, shell@],
{
    push_str(v, "--unshare-user");
    push_str(v, "--unshare-pid");
    push_str(v, "--unshare-ipc");
    push_str(v, "--unshare-uts");
    push_str(v, "--unshare-cgroup");
    push_str(v, "--die-with-parent");
    push_str(v, shell);
    assert(views_of(v@) =~= views_of(old(v)@) + seq!["--unshare-user"@, "--unshare-pid"@, "--unshare-ipc"@, "--unshare-uts"@, "--unshare-cgroup"@]
        + seq!["--die-with-parent"@, shell@]);
}

/// The bubblewrap command line for the shell, or `BwrapMissing` when
/// bubblewrap is not installed.
pub fn build_bwrap_args(
    shell: &str,
    shell_args: &[&str],
    working_dir: &str,
    dirs: HostDirs,
    bwrap_available: bool,
) -> (r: Result<(String, Vec<String>), SandboxError>)
    ensures
        !bwrap_available ==> r == Err::<(String, Vec<String>), SandboxError>(
            SandboxError::BwrapMissing,
        ),
        bwrap_available ==> r is Ok && r->Ok_0.0@ == "bwrap"@ && views_of(r->Ok_0.1@)
            == bwrap_args(shell@, str_views_of(shell_args@), working_dir@, dirs),
{
    if !bwrap_available {
        return Err(SandboxError::BwrapMissing);
    }
    let mut args: Vec<String> = Vec::new();
    push_system_mounts(&mut args, dirs);
    push_special_mounts(&mut args, working_dir);
    push_isolation(&mut args, shell);
    push_all(&mut args, shell_args);
    assert(views_of(args@) =~= bwrap_args(shell@, str_views_of(shell_args@), working_dir@, dirs));
    Ok(("bwrap".to_owned(), args))
}

/// The sandbox-exec command line for the shell, with a profile that denies
/// `/Users` and re-allows the working directory.
pub fn build_sandbox_exec_args(shell: &str, shell_args: &[&str], working_dir: &str) -> (r: (
    String,
    Vec<String>,
))
    ensures
        r.0@ == "sandbox-exec"@,
        views_of(r.1@) == sandbox_exec_args(shell@, str_views_of(shell_args@), working_dir@),
{
    let mut profile = PROFILE_HEAD.to_owned();
    profile.append(working_dir);
    profile.append(PROFILE_TAIL);
    let mut args: Vec<String> = Vec::new();
    push_str(&mut args, "-p");
    push_string(&mut args, profile);
    push_str(&mut args, shell);
    assert(views_of(args@) =~= seq!["-p"@, seatbelt_profile(working_dir@), shell@]);
    push_all(&mut args, shell_args);
    ("sandbox-exec".to_owned(), args)
}

/// The sandboxed command line for the platform: bubblewrap on Linux,
/// sandbox-exec on macOS, `Unsupported` elsewhere.
pub fn build_sandbox_args(
    platform: Platform,
    shell: &str,
    shell_args: &[&str],
    working_dir: &str,
    dirs: HostDirs,
    helper_available: bool,
) -> (r: Result<(String, Vec<String>), SandboxError>)
    ensures
        platform == Platform::Other ==> r == Err::<(String, Vec<String>), SandboxError>(
            SandboxError::Unsupported,
        ),
        platform == Platform::Linux && !helper_available ==> r == Err::<
            (String, Vec<String>),
            SandboxError,
        >(SandboxError::BwrapMissing),
        platform == Platform::Linux && helper_available ==> r is Ok && r->Ok_0.0@ == "bwrap"@
            && views_of(r->Ok_0.1@) == bwrap_args(
            shell@,
            str_views_of(shell_args@),
            working_dir@,
            dirs,
        ),
        platform == Platform::MacOs ==> r is Ok && r->Ok_0.0@ == "sandbox-exec"@ && views_of(
            r->Ok_0.1@,
        ) == sandbox_exec_args(shell@, str_views_of(shell_args@), working_dir@),
{
    match platform {
        Platform::Linux => build_bwrap_args(shell, shell_args, working_dir, dirs, helper_available),
        Platform::MacOs => Ok(build_sandbox_exec_args(shell, shell_args, working_dir)),
        Platform::Other => Err(SandboxError::Unsupported),
    }
}

} // verus!
