//! The command line of bubblewrap, the sandbox that builds run in.
use vstd::prelude::*;

verus! {

/// Why bubblewrap could not be started or waited for.
#[derive(Debug)]
pub enum SpawnError {
    Io(std::io::Error),
}

/// The arguments of a bubblewrap command, in the order given.
#[derive(Debug)]
pub struct Builder(Vec<String>);

impl Builder {
    /// The arguments given so far.
    pub closed spec fn args(&self) -> Seq<Seq<char>> {
        self.0@.map_values(|a: String| a@)
    }

    /// A command with no arguments yet.
    pub fn new() -> (b: Self)
        ensures
            b.args() == Seq::<Seq<char>>::empty(),
    {
        let b = Builder(Vec::new());
        assert(b.args() =~= Seq::<Seq<char>>::empty());
        b
    }

    fn arg(&mut self, arg: &str)
        ensures
            final(self).args() == old(self).args().push(arg@),
    {
        let ghost before = self.0@;
        self.0.push(arg.to_owned());
        assert(self.0@.map_values(|a: String| a@) =~= before.map_values(|a: String| a@).push(arg@));
    }

    /// Gives the sandbox new namespaces of every kind.
    pub fn unshare_all(&mut self)
        ensures
            final(self).args() == old(self).args().push("--unshare-all"@),
    {
        self.arg("--unshare-all")
    }

    /// Keeps the network of the host.
    pub fn share_net(&mut self)
        ensures
            final(self).args() == old(self).args().push("--share-net"@),
    {
        self.arg("--share-net")
    }

    /// Gives the sandbox a network of its own.
    pub fn unshare_net(&mut self)
        ensures
            final(self).args() == old(self).args().push("--unshare-net"@),
    {
        self.arg("--unshare-net")
    }

    /// Ends the sandbox when the installer ends.
    pub fn die_with_parent(&mut self)
        ensures
            final(self).args() == old(self).args().push("--die-with-parent"@),
    {
        self.arg("--die-with-parent")
    }

    /// Shows `src` of the host at `dst`, read-only.
    pub fn ro_bind(&mut self, src: &str, dst: &str)
        ensures
            final(self).args() == old(self).args().push("--ro-bind"@).push(src@).push(dst@),
    {
        self.arg("--ro-bind");
        self.arg(src);
        self.arg(dst)
    }

    /// Shows `src` of the host at `dst`, writable.
    pub fn bind(&mut self, src: &str, dst: &str)
        ensures
            final(self).args() == old(self).args().push("--bind"@).push(src@).push(dst@),
    {
        self.arg("--bind");
        self.arg(src);
        self.arg(dst)
    }

    /// Creates the directory `path` in the sandbox.
    pub fn dir(&mut self, path: &str)
        ensures
            final(self).args() == old(self).args().push("--dir"@).push(path@),
    {
        self.arg("--dir");
        self.arg(path)
    }

    /// Mounts a temporary file system at `path`.
    pub fn tmpfs(&mut self, path: &str)
        ensures
            final(self).args() == old(self).args().push("--tmpfs"@).push(path@),
    {
        self.arg("--tmpfs");
        self.arg(path)
    }

    /// Mounts the process file system at `path`.
    pub fn proc(&mut self, path: &str)
        ensures
            final(self).args() == old(self).args().push("--proc"@).push(path@),
    {
        self.arg("--proc");
        self.arg(path)
    }

    /// Mounts the devices at `path`.
    pub fn dev(&mut self, path: &str)
        ensures
            final(self).args() == old(self).args().push("--dev"@).push(path@),
    {
        self.arg("--dev");
        self.arg(path)
    }

    /// Sets the environment variable `key` to `value`.
    pub fn setenv(&mut self, key: &str, value: &str)
        ensures
            final(self).args() == old(self).args().push("--setenv"@).push(key@).push(value@),
    {
        self.arg("--setenv");
        self.arg(key);
        self.arg(value)
    }

    /// Names the sandbox's host.
    pub fn hostname(&mut self, name: &str)
        ensures
            final(self).args() == old(self).args().push("--hostname"@).push(name@),
    {
        self.arg("--hostname");
        self.arg(name)
    }

    /// Starts the command in `path`.
    pub fn chdir(&mut self, path: &str)
        ensures
            final(self).args() == old(self).args().push("--chdir"@).push(path@),
    {
        self.arg("--chdir");
        self.arg(path)
    }

    /// Starts the command with an empty environment.
    pub fn clearenv(&mut self)
        ensures
            final(self).args() == old(self).args().push("--clearenv"@),
    {
        self.arg("--clearenv")
    }

    /// Runs makepkg in the sandbox.
    pub fn makepkg(&mut self)
        ensures
            final(self).args() == old(self).args().push("makepkg"@),
    {
        self.arg("makepkg")
    }

    /// The arguments, for starting bubblewrap with them.
    pub fn into_args(self) -> (a: Vec<String>)
        ensures
            a@.map_values(|s: String| s@) == self.args(),
    {
        self.0
    }
}

} // verus!
