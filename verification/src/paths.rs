//! Where the build tooling finds and puts its artefacts, relative to the
//! workspace root (Unix paths).

use vstd::prelude::*;
use vstd::string::{StrSliceExecFns, StringExecFns};
use crate::plan::Artifact;

verus! {

/// Joining a path to a base as `Path::join` does on Unix: an absolute path
/// replaces the base; otherwise a `/` separates them unless the base is
/// empty or already ends in `/`.
pub open spec fn path_join(base: Seq<char>, rel: Seq<char>) -> Seq<char> {
    if rel.len() > 0 && rel[0] == '/' {
        rel
    } else if base.len() == 0 || base.last() == '/' {
        base + rel
    } else {
        base + seq!['/'] + rel
    }
}

/// Joins a path to a base directory.
pub fn join_path(base: &str, rel: &str) -> (r: String)
    ensures
        r@ == path_join(base@, rel@),
{
    let rel_len = rel.unicode_len();
    if rel_len > 0 && rel.get_char(0) == '/' {
        return String::from_str(rel);
    }
    let base_len = base.unicode_len();
    let mut r = String::from_str(base);
    if base_len > 0 && base.get_char(base_len - 1) != '/' {
        let sep = "/";
        proof {
            reveal_strlit("/");
        }
        r.append(sep);
        assert(sep@ =~= seq!['/']);
    }
    r.append(rel);
    r
}

/// The parent directory of a path as `Path::parent` gives it (the path
/// without its last component), or `None` for a path that ends in a root
/// or is empty.
pub uninterp spec fn path_parent_result(p: Seq<char>) -> Option<Seq<char>>;

/// Trusted: `std::path::Path::parent`, on a path given and returned as
/// UTF-8 text. Claims that the result is the named parent of the path.
#[verifier::external_body]
fn path_parent(p: &str) -> (r: Option<String>)
    ensures
        match r {
            Some(s) => path_parent_result(p@) == Some(s@),
            None => path_parent_result(p@) is None,
        },
{
    match std::path::Path::new(p).parent() {
        Some(q) => Some(q.to_string_lossy().into_owned()),
        None => None,
    }
}

/// The workspace root: the parent of the build tool's manifest directory.
pub fn workspace_root(manifest_dir: &str) -> (r: String)
    requires
        path_parent_result(manifest_dir@) is Some,
    ensures
        path_parent_result(manifest_dir@) == Some(r@),
{
    match path_parent(manifest_dir) {
        Some(p) => p,
        None => String::new(),
    }
}

/// The workspace root, or `None` when the manifest directory has no parent.
pub fn find_workspace_root(manifest_dir: &str) -> (r: Option<String>)
    ensures
        match r {
            Some(s) => path_parent_result(manifest_dir@) == Some(s@),
            None => path_parent_result(manifest_dir@) is None,
        },
{
    match path_parent(manifest_dir) {
        Some(_) => Some(workspace_root(manifest_dir)),
        None => None,
    }
}

/// `<root>/build`
pub fn build_dir(root: &str) -> (r: String)
    ensures
        r@ == path_join(root@, "build"@),
{
    join_path(root, "build")
}

/// The file name of a build artefact inside the build directory.
pub open spec fn artifact_file(a: Artifact) -> Seq<char> {
    match a {
        Artifact::BootloaderElf => "bootloader.elf"@,
        Artifact::ApplicationElf => "application.elf"@,
        Artifact::ApplicationDebugElf => "application-debug.elf"@,
        Artifact::BootloaderUf2 => "bootloader.uf2"@,
        Artifact::ApplicationUf2 => "application.uf2"@,
        Artifact::CombinedUf2 => "combined.uf2"@,
    }
}

fn artifact_file_name(a: Artifact) -> (r: &'static str)
    ensures
        r@ == artifact_file(a),
{
    match a {
        Artifact::BootloaderElf => "bootloader.elf",
        Artifact::ApplicationElf => "application.elf",
        Artifact::ApplicationDebugElf => "application-debug.elf",
        Artifact::BootloaderUf2 => "bootloader.uf2",
        Artifact::ApplicationUf2 => "application.uf2",
        Artifact::CombinedUf2 => "combined.uf2",
    }
}

/// The path of a build artefact: its file name in the build directory.
pub fn artifact_path(root: &str, a: Artifact) -> (r: String)
    ensures
        r@ == path_join(path_join(root@, "build"@), artifact_file(a)),
{
    let build = build_dir(root);
    join_path(build.as_str(), artifact_file_name(a))
}

/// Joining `build/<file>` to a root is joining `<file>` to the root's build
/// directory.
proof fn lemma_join_in_build_dir(root: Seq<char>, file: Seq<char>, whole: Seq<char>)
    requires
        file.len() > 0,
        file[0] != '/',
        whole == "build"@ + seq!['/'] + file,
    ensures
        path_join(root, whole) == path_join(path_join(root, "build"@), file),
{
    reveal_strlit("build");
    let b = "build"@;
    assert(whole[0] == 'b');
    let inner = path_join(root, b);
    assert(inner.len() > 0 && inner.last() == 'd');
    if root.len() == 0 || root.last() == '/' {
        assert(path_join(root, whole) =~= inner + seq!['/'] + file);
    } else {
        assert(path_join(root, whole) =~= inner + seq!['/'] + file);
    }
}

/// The artefacts have distinct, non-empty file names without a separator,
/// so each lies directly in the build directory under a name of its own.
pub proof fn lemma_artifact_files_distinct(a: Artifact, b: Artifact)
    ensures
        artifact_file(a).len() > 0,
        forall|i: int| 0 <= i < artifact_file(a).len() ==> #[trigger] artifact_file(a)[i] != '/',
        a != b ==> artifact_file(a) != artifact_file(b),
{
    reveal_strlit("bootloader.elf");
    reveal_strlit("application.elf");
    reveal_strlit("application-debug.elf");
    reveal_strlit("bootloader.uf2");
    reveal_strlit("application.uf2");
    reveal_strlit("combined.uf2");
    if a != b && artifact_file(a) == artifact_file(b) {
        assert(artifact_file(a)[11] == artifact_file(b)[11]);
        assert(artifact_file(a)[12] == artifact_file(b)[12]);
        assert(false);
    }
}

/// `<root>/build/bootloader.elf`
pub fn bootloader_elf(root: &str) -> (r: String)
    ensures
        r@ == path_join(root@, "build/bootloader.elf"@),
        r@ == path_join(path_join(root@, "build"@), artifact_file(Artifact::BootloaderElf)),
{
    let r = artifact_path(root, Artifact::BootloaderElf);
    proof {
        reveal_strlit("build/bootloader.elf");
        reveal_strlit("bootloader.elf");
        reveal_strlit("build");
        assert("build/bootloader.elf"@ =~= "build"@ + seq!['/'] + "bootloader.elf"@);
        lemma_join_in_build_dir(root@, "bootloader.elf"@, "build/bootloader.elf"@);
    }
    r
}

/// `<root>/build/application.elf`
pub fn application_elf(root: &str) -> (r: String)
    ensures
        r@ == path_join(root@, "build/application.elf"@),
        r@ == path_join(path_join(root@, "build"@), artifact_file(Artifact::ApplicationElf)),
{
    let r = artifact_path(root, Artifact::ApplicationElf);
    proof {
        reveal_strlit("build/application.elf");
        reveal_strlit("application.elf");
        reveal_strlit("build");
        assert("build/application.elf"@ =~= "build"@ + seq!['/'] + "application.elf"@);
        lemma_join_in_build_dir(root@, "application.elf"@, "build/application.elf"@);
    }
    r
}

/// `<root>/build/application-debug.elf`
pub fn application_debug_elf(root: &str) -> (r: String)
    ensures
        r@ == path_join(root@, "build/application-debug.elf"@),
        r@ == path_join(path_join(root@, "build"@), artifact_file(Artifact::ApplicationDebugElf)),
{
    let r = artifact_path(root, Artifact::ApplicationDebugElf);
    proof {
        reveal_strlit("build/application-debug.elf");
        reveal_strlit("application-debug.elf");
        reveal_strlit("build");
        assert("build/application-debug.elf"@ =~= "build"@ + seq!['/'] + "application-debug.elf"@);
        lemma_join_in_build_dir(root@, "application-debug.elf"@, "build/application-debug.elf"@);
    }
    r
}

/// `<root>/build/bootloader.uf2`
pub fn bootloader_uf2(root: &str) -> (r: String)
    ensures
        r@ == path_join(root@, "build/bootloader.uf2"@),
        r@ == path_join(path_join(root@, "build"@), artifact_file(Artifact::BootloaderUf2)),
{
    let r = artifact_path(root, Artifact::BootloaderUf2);
    proof {
        reveal_strlit("build/bootloader.uf2");
        reveal_strlit("bootloader.uf2");
        reveal_strlit("build");
        assert("build/bootloader.uf2"@ =~= "build"@ + seq!['/'] + "bootloader.uf2"@);
        lemma_join_in_build_dir(root@, "bootloader.uf2"@, "build/bootloader.uf2"@);
    }
    r
}

/// `<root>/build/application.uf2`
pub fn application_uf2(root: &str) -> (r: String)
    ensures
        r@ == path_join(root@, "build/application.uf2"@),
        r@ == path_join(path_join(root@, "build"@), artifact_file(Artifact::ApplicationUf2)),
{
    let r = artifact_path(root, Artifact::ApplicationUf2);
    proof {
        reveal_strlit("build/application.uf2");
        reveal_strlit("application.uf2");
        reveal_strlit("build");
        assert("build/application.uf2"@ =~= "build"@ + seq!['/'] + "application.uf2"@);
        lemma_join_in_build_dir(root@, "application.uf2"@, "build/application.uf2"@);
    }
    r
}

/// `<root>/build/combined.uf2`
pub fn combined_uf2(root: &str) -> (r: String)
    ensures
        r@ == path_join(root@, "build/combined.uf2"@),
        r@ == path_join(path_join(root@, "build"@), artifact_file(Artifact::CombinedUf2)),
{
    let r = artifact_path(root, Artifact::CombinedUf2);
    proof {
        reveal_strlit("build/combined.uf2");
        reveal_strlit("combined.uf2");
        reveal_strlit("build");
        assert("build/combined.uf2"@ =~= "build"@ + seq!['/'] + "combined.uf2"@);
        lemma_join_in_build_dir(root@, "combined.uf2"@, "build/combined.uf2"@);
    }
    r
}

} // verus!
