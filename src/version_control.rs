//! The repository plumbing around a synchronisation run: where the two
//! catalogs live in their checkouts, and which `git` and `repo` commands sync,
//! read an earlier catalog, and commit and upload the result. The commands
//! are returned as values; the caller runs them.

use vstd::prelude::*;

use crate::text::{append_chars, join_path, path_join, string_of};

verus! {

/// The Chromium OS overlay, relative to a Chromium OS checkout.
pub const CHROMIUMOS_OVERLAY_REL_PATH: &'static str = "src/third_party/chromiumos-overlay";

/// The LLVM toolchain directory, relative to an Android checkout.
pub const ANDROID_LLVM_REL_PATH: &'static str = "toolchain/llvm_android";

/// Which program a [`VcsCommand`] runs.
#[derive(Clone, Copy, Debug, PartialEq, Eq, Structural)]
pub enum Tool {
    Git,
    Repo,
}

/// A `git` or `repo` invocation: the program, the directory it runs in and
/// its arguments.
#[derive(Debug)]
pub struct VcsCommand {
    pub tool: Tool,
    pub dir: String,
    pub args: Vec<String>,
}

pub struct CommandSpec {
    pub tool: Tool,
    pub dir: Seq<char>,
    pub args: Seq<Seq<char>>,
}

impl View for VcsCommand {
    type V = CommandSpec;

    open spec fn view(&self) -> CommandSpec {
        CommandSpec {
            tool: self.tool,
            dir: self.dir@,
            args: self.args@.map_values(|s: String| s@),
        }
    }
}

pub open spec fn commands_of(v: Seq<VcsCommand>) -> Seq<CommandSpec> {
    v.map_values(|c: VcsCommand| c@)
}

/// How to commit and upload the changes of one checkout: the directory that
/// must exist, the directory whose LLVM ebuild gets a revision bump first
/// (if any), then the commands, in order.
#[derive(Debug)]
pub struct UploadPlan {
    pub required_dir: String,
    pub rev_bump_dir: Option<String>,
    pub commands: Vec<VcsCommand>,
}

/// The Chromium OS and Android checkouts, and whether to sync them first.
#[derive(Debug)]
pub struct RepoSetupContext {
    pub cros_checkout: String,
    pub android_checkout: String,
    /// Run `repo sync` before doing any comparisons.
    pub sync_before: bool,
}

pub open spec fn cmd(tool: Tool, dir: Seq<char>, args: Seq<Seq<char>>) -> CommandSpec {
    CommandSpec { tool, dir, args }
}

/// The commit message of a synchronisation from `from` to `to`.
pub open spec fn commit_msg(from: Seq<char>, to: Seq<char>, footer: Seq<char>) -> Seq<char> {
    "[patch_sync] Synchronize patches from "@ + from + "\n\nCopies new PATCHES.json changes from "@
        + from + " to "@ + to + "\n\n"@ + footer
}

/// The commands that create a branch in the git directory `git_wd` of the
/// checkout `path`, commit every change there with `msg`, and upload it.
pub open spec fn upload_commands(path: Seq<char>, git_wd: Seq<char>, msg: Seq<char>) -> Seq<
    CommandSpec,
> {
    let git_path = path_join(path, git_wd);
    seq![
        cmd(Tool::Repo, path, seq!["start"@, "patch_sync_branch"@, git_wd]),
        cmd(Tool::Git, git_path, seq!["add"@, "."@]),
        cmd(Tool::Git, git_path, seq!["commit"@, "-m"@, msg]),
        cmd(Tool::Repo, path, seq!["upload"@, "-y"@, "--verify"@, git_wd]),
    ]
}

fn strings(a: &str, b: &str) -> (r: Vec<String>)
    ensures
        r@.map_values(|s: String| s@) == seq![a@, b@],
{
    let mut v: Vec<String> = Vec::new();
    v.push(a.to_owned());
    v.push(b.to_owned());
    assert(v@.map_values(|s: String| s@) =~= seq![a@, b@]);
    v
}

fn strings3(a: &str, b: &str, c: &str) -> (r: Vec<String>)
    ensures
        r@.map_values(|s: String| s@) == seq![a@, b@, c@],
{
    let mut v: Vec<String> = Vec::new();
    v.push(a.to_owned());
    v.push(b.to_owned());
    v.push(c.to_owned());
    assert(v@.map_values(|s: String| s@) =~= seq![a@, b@, c@]);
    v
}

fn strings4(a: &str, b: &str, c: &str, d: &str) -> (r: Vec<String>)
    ensures
        r@.map_values(|s: String| s@) == seq![a@, b@, c@, d@],
{
    let mut v: Vec<String> = Vec::new();
    v.push(a.to_owned());
    v.push(b.to_owned());
    v.push(c.to_owned());
    v.push(d.to_owned());
    assert(v@.map_values(|s: String| s@) =~= seq![a@, b@, c@, d@]);
    v
}

impl RepoSetupContext {
    /// The commands to run before any comparison: a `repo sync` of the
    /// Chromium OS overlay and of the Android LLVM directory when
    /// `sync_before` is set, nothing otherwise.
    pub fn setup(&self) -> (r: Vec<VcsCommand>)
        ensures
            commands_of(r@) == if self.sync_before {
                seq![
                    cmd(Tool::Repo, self.cros_checkout@, seq!["sync"@, CHROMIUMOS_OVERLAY_REL_PATH@]),
                    cmd(Tool::Repo, self.android_checkout@, seq!["sync"@, ANDROID_LLVM_REL_PATH@]),
                ]
            } else {
                seq![]
            },
    {
        let mut r: Vec<VcsCommand> = Vec::new();
        if self.sync_before {
            r.push(
                VcsCommand {
                    tool: Tool::Repo,
                    dir: self.cros_checkout.clone(),
                    args: strings("sync", CHROMIUMOS_OVERLAY_REL_PATH),
                },
            );
            r.push(
                VcsCommand {
                    tool: Tool::Repo,
                    dir: self.android_checkout.clone(),
                    args: strings("sync", ANDROID_LLVM_REL_PATH),
                },
            );
        }
        assert(commands_of(r@) =~= if self.sync_before {
            seq![
                cmd(Tool::Repo, self.cros_checkout@, seq!["sync"@, CHROMIUMOS_OVERLAY_REL_PATH@]),
                cmd(Tool::Repo, self.android_checkout@, seq!["sync"@, ANDROID_LLVM_REL_PATH@]),
            ]
        } else {
            seq![]
        });
        r
    }

    /// The upload of the Chromium OS overlay: its LLVM ebuild directory must
    /// exist and gets a revision bump, then the changes are committed as a
    /// synchronisation from android to chromiumos and uploaded.
    pub fn cros_repo_upload(&self) -> (r: UploadPlan)
        ensures
            r.required_dir@ == path_join(
                path_join(self.cros_checkout@, CHROMIUMOS_OVERLAY_REL_PATH@),
                "sys-devel/llvm"@,
            ),
            r.rev_bump_dir matches Some(d) && d@ == r.required_dir@,
            commands_of(r.commands@) == upload_commands(
                self.cros_checkout@,
                CHROMIUMOS_OVERLAY_REL_PATH@,
                commit_msg("android"@, "chromiumos"@, "BUG=None\nTEST=CQ"@),
            ),
    {
        let overlay = join_path(self.cros_checkout.as_str(), CHROMIUMOS_OVERLAY_REL_PATH);
        let llvm_dir = join_path(overlay.as_str(), "sys-devel/llvm");
        let msg = Self::build_commit_msg("android", "chromiumos", "BUG=None\nTEST=CQ");
        let commands = Self::repo_upload(
            self.cros_checkout.as_str(),
            CHROMIUMOS_OVERLAY_REL_PATH,
            msg.as_str(),
        );
        UploadPlan { required_dir: llvm_dir.clone(), rev_bump_dir: Some(llvm_dir), commands }
    }

    /// The upload of the Android LLVM directory: the changes are committed as
    /// a synchronisation from chromiumos to android and uploaded.
    pub fn android_repo_upload(&self) -> (r: UploadPlan)
        ensures
            r.required_dir@ == path_join(self.android_checkout@, ANDROID_LLVM_REL_PATH@),
            r.rev_bump_dir is None,
            commands_of(r.commands@) == upload_commands(
                self.android_checkout@,
                ANDROID_LLVM_REL_PATH@,
                commit_msg("chromiumos"@, "android"@, "Test: N/A"@),
            ),
    {
        let msg = Self::build_commit_msg("chromiumos", "android", "Test: N/A");
        let commands = Self::repo_upload(
            self.android_checkout.as_str(),
            ANDROID_LLVM_REL_PATH,
            msg.as_str(),
        );
        UploadPlan {
            required_dir: join_path(self.android_checkout.as_str(), ANDROID_LLVM_REL_PATH),
            rev_bump_dir: None,
            commands,
        }
    }

    fn repo_upload(path: &str, git_wd: &str, commit_msg: &str) -> (r: Vec<VcsCommand>)
        ensures
            commands_of(r@) == upload_commands(path@, git_wd@, commit_msg@),
    {
        let git_path = join_path(path, git_wd);
        let mut r: Vec<VcsCommand> = Vec::new();
        r.push(
            VcsCommand {
                tool: Tool::Repo,
                dir: path.to_owned(),
                args: strings3("start", "patch_sync_branch", git_wd),
            },
        );
        r.push(VcsCommand { tool: Tool::Git, dir: git_path.clone(), args: strings("add", ".") });
        r.push(
            VcsCommand { tool: Tool::Git, dir: git_path, args: strings3("commit", "-m", commit_msg) },
        );
        r.push(
            VcsCommand {
                tool: Tool::Repo,
                dir: path.to_owned(),
                args: strings4("upload", "-y", "--verify", git_wd),
            },
        );
        assert(commands_of(r@) =~= upload_commands(path@, git_wd@, commit_msg@));
        r
    }

    /// The Android catalog file.
    pub fn android_patches_path(&self) -> (r: String)
        ensures
            r@ == path_join(
                path_join(self.android_checkout@, ANDROID_LLVM_REL_PATH@),
                "patches/PATCHES.json"@,
            ),
    {
        let dir = join_path(self.android_checkout.as_str(), ANDROID_LLVM_REL_PATH);
        join_path(dir.as_str(), "patches/PATCHES.json")
    }

    /// The Chromium OS catalog file.
    pub fn cros_patches_path(&self) -> (r: String)
        ensures
            r@ == path_join(
                path_join(self.cros_checkout@, CHROMIUMOS_OVERLAY_REL_PATH@),
                "sys-devel/llvm/files/PATCHES.json"@,
            ),
    {
        let dir = join_path(self.cros_checkout.as_str(), CHROMIUMOS_OVERLAY_REL_PATH);
        join_path(dir.as_str(), "sys-devel/llvm/files/PATCHES.json")
    }

    /// The `git show` whose output is the Chromium OS catalog as of revision `hash`.
    pub fn old_cros_patch_contents(&self, hash: &str) -> (r: VcsCommand)
        ensures
            r@ == cmd(
                Tool::Git,
                path_join(self.cros_checkout@, CHROMIUMOS_OVERLAY_REL_PATH@),
                seq!["show"@, hash@ + ":"@ + "sys-devel/llvm/files/PATCHES.json"@],
            ),
    {
        let dir = join_path(self.cros_checkout.as_str(), CHROMIUMOS_OVERLAY_REL_PATH);
        Self::old_file_contents(hash, dir.as_str(), "sys-devel/llvm/files/PATCHES.json")
    }

    /// The `git show` whose output is the Android catalog as of revision `hash`.
    pub fn old_android_patch_contents(&self, hash: &str) -> (r: VcsCommand)
        ensures
            r@ == cmd(
                Tool::Git,
                path_join(self.android_checkout@, ANDROID_LLVM_REL_PATH@),
                seq!["show"@, hash@ + ":"@ + "patches/PATCHES.json"@],
            ),
    {
        let dir = join_path(self.android_checkout.as_str(), ANDROID_LLVM_REL_PATH);
        Self::old_file_contents(hash, dir.as_str(), "patches/PATCHES.json")
    }

    /// The `git show` in `pwd` whose output is `file` as of revision `hash`.
    fn old_file_contents(hash: &str, pwd: &str, file: &str) -> (r: VcsCommand)
        ensures
            r@ == cmd(Tool::Git, pwd@, seq!["show"@, hash@ + ":"@ + file@]),
    {
        let mut git_ref: Vec<char> = Vec::new();
        append_chars(&mut git_ref, hash);
        append_chars(&mut git_ref, ":");
        append_chars(&mut git_ref, file);
        let git_ref = string_of(git_ref.as_slice());
        let mut args: Vec<String> = Vec::new();
        args.push("show".to_owned());
        args.push(git_ref);
        assert(args@.map_values(|s: String| s@) =~= seq!["show"@, hash@ + ":"@ + file@]);
        VcsCommand { tool: Tool::Git, dir: pwd.to_owned(), args }
    }

    /// The commit message of a synchronisation from `from` to `to`.
    pub fn build_commit_msg(from: &str, to: &str, footer: &str) -> (r: String)
        ensures
            r@ == commit_msg(from@, to@, footer@),
    {
        let mut out: Vec<char> = Vec::new();
        append_chars(&mut out, "[patch_sync] Synchronize patches from ");
        append_chars(&mut out, from);
        append_chars(&mut out, "\n\nCopies new PATCHES.json changes from ");
        append_chars(&mut out, from);
        append_chars(&mut out, " to ");
        append_chars(&mut out, to);
        append_chars(&mut out, "\n\n");
        append_chars(&mut out, footer);
        string_of(out.as_slice())
    }
}

} // verus!
