//! The sandbox that packages build in.
use vstd::prelude::*;

use crate::bwrap::{Builder, SpawnError};
use crate::config::BUILD_PATH;
use crate::path::{join_path, joined};

pub mod bridge;

verus! {

/// The name of the installer's directory among the user's data.
pub const SANDBOX_NAME: &'static str = "aur-pkg-manager";

/// Why the sandbox could not be prepared.
#[derive(Debug)]
pub enum SandboxError {
    /// A file of the sandbox could not be written.
    Io(std::io::Error),
    /// The user has no data directory.
    MissingDataDir,
    /// bubblewrap could not be started.
    Spawn(SpawnError),
}

/// Why a built package could not be registered.
#[derive(Debug)]
pub enum BuildError {
    /// A file of the package database could not be written.
    Io(std::io::Error),
    /// libalpm could not load the package; its message.
    Alpm(String),
}

/// Calls `dirs::data_dir` and gives the directory as text, with characters
/// that are not UTF-8 replaced as `Path::to_string_lossy` replaces them.
/// Nothing is stated of the result: it depends on the environment.
#[verifier::external_body]
fn user_data_dir() -> Option<String> {
    dirs::data_dir().map(|path| path.to_string_lossy().into_owned())
}

/// Where the sandbox's files live, given the user's data directory: in the
/// installer's directory there, or nowhere when there is no such directory.
pub fn sandbox_path_in(data_dir: Option<String>) -> (r: Result<String, SandboxError>)
    ensures
        match data_dir {
            Some(dir) => r matches Ok(path) && path@ == joined(dir@, SANDBOX_NAME@),
            None => r matches Err(SandboxError::MissingDataDir),
        },
{
    match data_dir {
        Some(dir) => Ok(join_path(dir.as_str(), SANDBOX_NAME)),
        None => Err(SandboxError::MissingDataDir),
    }
}

/// Where the sandbox's files live, in the user's data directory.
pub fn sandbox_path() -> (r: Result<String, SandboxError>)
    ensures
        r is Err ==> r matches Err(SandboxError::MissingDataDir),
        r matches Ok(path) ==> exists|dir: Seq<char>| path@ == #[trigger] joined(dir, SANDBOX_NAME@),
{
    let data_dir = user_data_dir();
    let ghost found = data_dir;
    let r = sandbox_path_in(data_dir);
    proof {
        match found {
            Some(dir) => {
                assert(r matches Ok(path) && path@ == joined(dir@, SANDBOX_NAME@));
            },
            None => {},
        }
    }
    r
}

/// The configuration files that the sandbox sees in place of the host's.
pub struct SandboxFiles {
    path: String,
}

impl SandboxFiles {
    /// The directory that holds the files.
    pub closed spec fn dir(&self) -> Seq<char> {
        self.path@
    }

    /// The files kept in the directory `path`.
    pub fn at(path: String) -> (s: Self)
        ensures
            s.dir() == path@,
    {
        SandboxFiles { path }
    }

    /// The directory that holds the files.
    pub fn path(&self) -> (p: &str)
        ensures
            p@ == self.dir(),
    {
        self.path.as_str()
    }

    /// Where the file called `name` lives.
    pub fn file(&self, name: &str) -> (p: String)
        ensures
            p@ == joined(self.dir(), name@),
    {
        join_path(self.path.as_str(), name)
    }
}

/// The account the sandbox builds as, as a line of `/etc/passwd`.
pub const PASSWD_ENTRY: &'static str = "builder:x:1000:1000:builder:/build:/bin/bash\n";

/// The group of that account, as a line of `/etc/group`.
pub const GROUP_ENTRY: &'static str = "builder:x:1000:\n";

/// A file that preparing the sandbox puts in its directory unless one of
/// that name is there already.
#[derive(Debug, Clone, Copy)]
pub enum SetupFile {
    /// A copy of the host's file `from`, named `name`.
    Copy { from: &'static str, name: &'static str },
    /// The file `name`, holding `content`.
    Write { name: &'static str, content: &'static str },
}

/// The view of a setup file: the host path copied, or the content written,
/// and its name in the sandbox.
pub open spec fn setup_view(f: SetupFile) -> (bool, Seq<char>, Seq<char>) {
    match f {
        SetupFile::Copy { from, name } => (true, from@, name@),
        SetupFile::Write { name, content } => (false, content@, name@),
    }
}

/// The files of the sandbox, in the order they are prepared: pacman's and
/// makepkg's configuration and the mirror list copied from the host, then
/// the builder's account and group.
pub open spec fn setup_files() -> Seq<(bool, Seq<char>, Seq<char>)> {
    seq![
        (true, "/etc/pacman.conf"@, "pacman.conf"@),
        (true, "/etc/pacman.d/mirrorlist"@, "mirrorlist"@),
        (true, "/etc/makepkg.conf"@, "makepkg.conf"@),
        (false, PASSWD_ENTRY@, "passwd"@),
        (false, GROUP_ENTRY@, "group"@),
    ]
}

/// The files that preparing the sandbox puts in its directory.
pub fn sandbox_setup() -> (files: Vec<SetupFile>)
    ensures
        files@.map_values(|f: SetupFile| setup_view(f)) == setup_files(),
{
    let files = vec![
        SetupFile::Copy { from: "/etc/pacman.conf", name: "pacman.conf" },
        SetupFile::Copy { from: "/etc/pacman.d/mirrorlist", name: "mirrorlist" },
        SetupFile::Copy { from: "/etc/makepkg.conf", name: "makepkg.conf" },
        SetupFile::Write { name: "passwd", content: PASSWD_ENTRY },
        SetupFile::Write { name: "group", content: GROUP_ENTRY },
    ];
    assert(files@.map_values(|f: SetupFile| setup_view(f)) =~= setup_files());
    files
}

/// The arguments that isolate the sandbox: fresh namespaces, its own
/// process, device and temporary file systems, and an empty environment but
/// for `HOME`, `PATH` and `MAKEFLAGS`.
pub open spec fn isolation_args() -> Seq<Seq<char>> {
    seq![
        "--unshare-all"@,
        "--die-with-parent"@,
        "--proc"@, "/proc"@,
        "--dev"@, "/dev"@,
        "--tmpfs"@, "/tmp"@,
        "--clearenv"@,
        "--setenv"@, "HOME"@, "/build"@,
        "--setenv"@, "PATH"@, "/usr/local/sbin:/usr/local/bin:/usr/sbin:/usr/bin:/sbin:/bin"@,
        "--setenv"@, "MAKEFLAGS"@, "-j4"@,
    ]
}

/// The arguments that show the host's files: the build directory writable
/// at `/build/pkg`, the system and pacman's database read-only, and
/// pacman's package cache writable.
pub open spec fn host_args() -> Seq<Seq<char>> {
    seq![
        "--bind"@, BUILD_PATH@, "/build/pkg"@,
        "--ro-bind"@, "/usr"@, "/usr"@,
        "--ro-bind"@, "/bin"@, "/bin"@,
        "--ro-bind"@, "/lib"@, "/lib"@,
        "--ro-bind"@, "/lib64"@, "/lib64"@,
        "--ro-bind"@, "/var/lib/pacman"@, "/var/lib/pacman"@,
        "--bind"@, "/var/cache/pacman/pkg"@, "/var/cache/pacman/pkg"@,
    ]
}

/// The arguments that show the sandbox's own configuration files, kept in
/// `dir`, in place of the host's.
pub open spec fn config_args(dir: Seq<char>) -> Seq<Seq<char>> {
    seq![
        "--ro-bind"@, joined(dir, "pacman.conf"@), "/etc/pacman.conf"@,
        "--ro-bind"@, joined(dir, "mirrorlist"@), "/etc/pacman.d/mirrorlist"@,
        "--ro-bind"@, joined(dir, "makepkg.conf"@), "/etc/makepkg.conf"@,
        "--ro-bind"@, joined(dir, "passwd"@), "/etc/passwd"@,
        "--ro-bind"@, joined(dir, "group"@), "/etc/group"@,
    ]
}

/// The arguments of bubblewrap that run makepkg in `/build/pkg` of the
/// sandbox whose configuration files are kept in `dir`.
pub open spec fn sandbox_args(dir: Seq<char>) -> Seq<Seq<char>> {
    isolation_args() + host_args() + config_args(dir) + seq!["--chdir"@, "/build/pkg"@, "makepkg"@]
}

/// Whether `args` hold the option `flag` with the two values `a` and `b`,
/// in that order.
pub open spec fn has_option(args: Seq<Seq<char>>, flag: Seq<char>, a: Seq<char>, b: Seq<char>) -> bool {
    exists|i: int|
        0 <= i && i + 2 < args.len() && #[trigger] args[i] == flag && args[i + 1] == a && args[i + 2]
            == b
}

/// The sandbox's command mounts each of its own configuration files
/// read-only exactly where the host's file it replaces lives, mounts the
/// build directory writable at `/build/pkg`, the system and pacman's
/// database read-only and its package cache writable, gives the build
/// fresh namespaces and a cleared environment, and runs makepkg in
/// `/build/pkg`.
pub proof fn sandbox_mounts_law(dir: Seq<char>)
    ensures
        has_option(sandbox_args(dir), "--ro-bind"@, joined(dir, "pacman.conf"@), "/etc/pacman.conf"@),
        has_option(
            sandbox_args(dir),
            "--ro-bind"@,
            joined(dir, "mirrorlist"@),
            "/etc/pacman.d/mirrorlist"@,
        ),
        has_option(sandbox_args(dir), "--ro-bind"@, joined(dir, "makepkg.conf"@), "/etc/makepkg.conf"@),
        has_option(sandbox_args(dir), "--ro-bind"@, joined(dir, "passwd"@), "/etc/passwd"@),
        has_option(sandbox_args(dir), "--ro-bind"@, joined(dir, "group"@), "/etc/group"@),
        has_option(sandbox_args(dir), "--bind"@, BUILD_PATH@, "/build/pkg"@),
        has_option(sandbox_args(dir), "--ro-bind"@, "/usr"@, "/usr"@),
        has_option(sandbox_args(dir), "--ro-bind"@, "/var/lib/pacman"@, "/var/lib/pacman"@),
        has_option(sandbox_args(dir), "--bind"@, "/var/cache/pacman/pkg"@, "/var/cache/pacman/pkg"@),
        sandbox_args(dir)[0] == "--unshare-all"@,
        sandbox_args(dir).contains("--clearenv"@),
        sandbox_args(dir).contains("--die-with-parent"@),
        sandbox_args(dir).len() >= 3,
        sandbox_args(dir)[sandbox_args(dir).len() - 3] == "--chdir"@,
        sandbox_args(dir)[sandbox_args(dir).len() - 2] == "/build/pkg"@,
        sandbox_args(dir).last() == "makepkg"@,
{
    let args = sandbox_args(dir);
    assert(args.len() == 57);
    assert(args[0] == "--unshare-all"@);
    assert(args[1] == "--die-with-parent"@);
    assert(args[8] == "--clearenv"@);
    assert(args[18] == "--bind"@ && args[19] == BUILD_PATH@ && args[20] == "/build/pkg"@);
    assert(args[21] == "--ro-bind"@ && args[22] == "/usr"@ && args[23] == "/usr"@);
    assert(args[33] == "--ro-bind"@ && args[34] == "/var/lib/pacman"@ && args[35] == "/var/lib/pacman"@);
    assert(args[36] == "--bind"@ && args[37] == "/var/cache/pacman/pkg"@ && args[38]
        == "/var/cache/pacman/pkg"@);
    assert(args[39] == "--ro-bind"@ && args[40] == joined(dir, "pacman.conf"@) && args[41]
        == "/etc/pacman.conf"@);
    assert(args[42] == "--ro-bind"@ && args[43] == joined(dir, "mirrorlist"@) && args[44]
        == "/etc/pacman.d/mirrorlist"@);
    assert(args[45] == "--ro-bind"@ && args[46] == joined(dir, "makepkg.conf"@) && args[47]
        == "/etc/makepkg.conf"@);
    assert(args[48] == "--ro-bind"@ && args[49] == joined(dir, "passwd"@) && args[50] == "/etc/passwd"@);
    assert(args[51] == "--ro-bind"@ && args[52] == joined(dir, "group"@) && args[53] == "/etc/group"@);
    assert(args[54] == "--chdir"@ && args[55] == "/build/pkg"@ && args[56] == "makepkg"@);
}

fn isolate(b: &mut Builder)
    ensures
        final(b).args() == old(b).args() + isolation_args(),
{
    let ghost start = b.args();
    b.unshare_all();
    b.die_with_parent();
    b.proc("/proc");
    b.dev("/dev");
    b.tmpfs("/tmp");
    b.clearenv();
    b.setenv("HOME", "/build");
    b.setenv("PATH", "/usr/local/sbin:/usr/local/bin:/usr/sbin:/usr/bin:/sbin:/bin");
    b.setenv("MAKEFLAGS", "-j4");
    assert(b.args() =~= start + isolation_args());
}

fn show_host(b: &mut Builder)
    ensures
        final(b).args() == old(b).args() + host_args(),
{
    let ghost start = b.args();
    b.bind(BUILD_PATH, "/build/pkg");
    b.ro_bind("/usr", "/usr");
    b.ro_bind("/bin", "/bin");
    b.ro_bind("/lib", "/lib");
    b.ro_bind("/lib64", "/lib64");
    b.ro_bind("/var/lib/pacman", "/var/lib/pacman");
    b.bind("/var/cache/pacman/pkg", "/var/cache/pacman/pkg");
    assert(b.args() =~= start + host_args());
}

fn show_config(b: &mut Builder, sandbox: &SandboxFiles)
    ensures
        final(b).args() == old(b).args() + config_args(sandbox.dir()),
{
    let ghost start = b.args();
    let pacman_conf = sandbox.file("pacman.conf");
    b.ro_bind(pacman_conf.as_str(), "/etc/pacman.conf");
    let mirrorlist = sandbox.file("mirrorlist");
    b.ro_bind(mirrorlist.as_str(), "/etc/pacman.d/mirrorlist");
    let makepkg_conf = sandbox.file("makepkg.conf");
    b.ro_bind(makepkg_conf.as_str(), "/etc/makepkg.conf");
    let passwd = sandbox.file("passwd");
    b.ro_bind(passwd.as_str(), "/etc/passwd");
    let group = sandbox.file("group");
    b.ro_bind(group.as_str(), "/etc/group");
    assert(b.args() =~= start + config_args(sandbox.dir()));
}

/// The bubblewrap command that builds a package in the sandbox.
pub fn sandbox_command(sandbox: &SandboxFiles) -> (b: Builder)
    ensures
        b.args() == sandbox_args(sandbox.dir()),
{
    let mut b = Builder::new();
    isolate(&mut b);
    show_host(&mut b);
    show_config(&mut b, sandbox);
    let ghost before = b.args();
    b.chdir("/build/pkg");
    b.makepkg();
    assert(b.args() =~= before + seq!["--chdir"@, "/build/pkg"@, "makepkg"@]);
    assert(Seq::<Seq<char>>::empty() + isolation_args() =~= isolation_args());
    b
}

} // verus!
