use patch_sync::{RepoSetupContext, Tool};

fn ctx(sync: bool) -> RepoSetupContext {
    RepoSetupContext {
        cros_checkout: "/cros".to_string(),
        android_checkout: "/aosp/".to_string(),
        sync_before: sync,
    }
}

#[test]
fn catalog_locations() {
    let c = ctx(false);
    assert_eq!(
        c.cros_patches_path(),
        "/cros/src/third_party/chromiumos-overlay/sys-devel/llvm/files/PATCHES.json"
    );
    assert_eq!(
        c.android_patches_path(),
        "/aosp/toolchain/llvm_android/patches/PATCHES.json"
    );
}

#[test]
fn setup_syncs_only_when_asked() {
    assert!(ctx(false).setup().is_empty());
    let cmds = ctx(true).setup();
    assert_eq!(cmds.len(), 2);
    assert_eq!(cmds[0].tool, Tool::Repo);
    assert_eq!(cmds[0].dir, "/cros");
    assert_eq!(cmds[0].args, vec!["sync", "src/third_party/chromiumos-overlay"]);
    assert_eq!(cmds[1].dir, "/aosp/");
    assert_eq!(cmds[1].args, vec!["sync", "toolchain/llvm_android"]);
}

#[test]
fn old_catalog_is_read_with_git_show() {
    let c = ctx(false);
    let cmd = c.old_cros_patch_contents("abc123");
    assert_eq!(cmd.tool, Tool::Git);
    assert_eq!(cmd.dir, "/cros/src/third_party/chromiumos-overlay");
    assert_eq!(cmd.args, vec!["show", "abc123:sys-devel/llvm/files/PATCHES.json"]);
    let cmd = c.old_android_patch_contents("HEAD~1");
    assert_eq!(cmd.dir, "/aosp/toolchain/llvm_android");
    assert_eq!(cmd.args, vec!["show", "HEAD~1:patches/PATCHES.json"]);
}

#[test]
fn commit_message_names_both_sides() {
    assert_eq!(
        RepoSetupContext::build_commit_msg("android", "chromiumos", "BUG=None\nTEST=CQ"),
        "[patch_sync] Synchronize patches from android\n\n\
         Copies new PATCHES.json changes from android to chromiumos\n\nBUG=None\nTEST=CQ"
    );
}

#[test]
fn upload_plans() {
    let c = ctx(false);
    let cros = c.cros_repo_upload();
    assert_eq!(cros.required_dir, "/cros/src/third_party/chromiumos-overlay/sys-devel/llvm");
    assert_eq!(cros.rev_bump_dir.as_deref(), Some(cros.required_dir.as_str()));
    assert_eq!(cros.commands.len(), 4);
    assert_eq!(cros.commands[0].tool, Tool::Repo);
    assert_eq!(cros.commands[0].dir, "/cros");
    assert_eq!(
        cros.commands[0].args,
        vec!["start", "patch_sync_branch", "src/third_party/chromiumos-overlay"]
    );
    assert_eq!(cros.commands[1].tool, Tool::Git);
    assert_eq!(cros.commands[1].dir, "/cros/src/third_party/chromiumos-overlay");
    assert_eq!(cros.commands[1].args, vec!["add", "."]);
    assert_eq!(cros.commands[2].args[0], "commit");
    assert!(cros.commands[2].args[2].ends_with("BUG=None\nTEST=CQ"));
    assert_eq!(
        cros.commands[3].args,
        vec!["upload", "-y", "--verify", "src/third_party/chromiumos-overlay"]
    );
    let android = c.android_repo_upload();
    assert_eq!(android.required_dir, "/aosp/toolchain/llvm_android");
    assert!(android.rev_bump_dir.is_none());
    assert_eq!(android.commands[2].args[2], RepoSetupContext::build_commit_msg("chromiumos", "android", "Test: N/A"));
    assert_eq!(android.commands[1].dir, "/aosp/toolchain/llvm_android");
}
