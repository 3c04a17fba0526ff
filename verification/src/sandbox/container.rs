//! Approach C: a rootless podman (preferred) or rootless docker container.
//! Rootful docker is refused unless explicitly allowed, since it gives
//! the container superuser inside the host's user namespace.
use crate::codec::{sha3_256, sha3_256_of};
use crate::plugin::SandboxBackend;
use crate::sandbox::append_bytes;
use crate::text::push_str;
use crate::trace_check::checker::{contains_sub, contains_subsequence};
use vstd::prelude::*;

verus! {

/// `std::path::PathBuf`, carried through unchanged.
#[verifier::external_type_specification]
#[verifier::external_body]
pub struct ExPathBuf(std::path::PathBuf);

#[derive(Debug)]
pub enum Runtime {
    Podman(std::path::PathBuf),
    RootlessDocker(std::path::PathBuf),
    RootfulDocker(std::path::PathBuf),
}

#[derive(Debug)]
pub enum DetectError {
    NoRuntime,
    OnlyRootfulDocker,
    Io(std::io::Error),
}

/// The argv for `podman run` / `docker run`, strictest flags first; the
/// model directory is the one read-only mount.
pub open spec fn container_args(model_dir: Seq<char>) -> Seq<Seq<char>> {
    seq![
        "run"@,
        "--rm"@,
        "--network=none"@,
        "--read-only"@,
        "--cap-drop=ALL"@,
        "--security-opt=no-new-privileges"@,
        "--tmpfs=/tmp:noexec,nosuid,size=64m"@,
        "--memory=2g"@,
        "--pids-limit=64"@,
        "--no-healthcheck"@,
        "--hostname=seck-sandbox"@,
        "--ipc=none"@,
        "--cpus=1.0"@,
        "--volume="@ + model_dir + ":/models:ro"@,
        "--userns=auto"@,
        "-i"@,
        "localhost/seck-reader:0.1.0"@,
    ]
}

/// Whether `s` ends with `p`.
pub open spec fn ends_with(s: Seq<char>, p: Seq<char>) -> bool {
    p.len() <= s.len() && s.subrange(s.len() - p.len(), s.len() as int) == p
}

/// Whatever the model directory: the container has no network, a read-only
/// root, no capabilities, no privilege gain and no shared IPC, and exactly one
/// mount, which is read-only.
pub proof fn lemma_container_args_hardened(model_dir: Seq<char>)
    ensures
        container_args(model_dir).contains("--network=none"@),
        container_args(model_dir).contains("--read-only"@),
        container_args(model_dir).contains("--cap-drop=ALL"@),
        container_args(model_dir).contains("--security-opt=no-new-privileges"@),
        container_args(model_dir).contains("--ipc=none"@),
        forall|i: int|
            0 <= i < container_args(model_dir).len() && crate::text::starts_with(
                #[trigger] container_args(model_dir)[i],
                "--volume="@,
            ) ==> i == 13,
        ends_with(container_args(model_dir)[13], ":ro"@),
{
    let a = container_args(model_dir);
    assert(a[2] == "--network=none"@);
    assert(a[3] == "--read-only"@);
    assert(a[4] == "--cap-drop=ALL"@);
    assert(a[5] == "--security-opt=no-new-privileges"@);
    assert(a[11] == "--ipc=none"@);
    reveal_strlit("--volume=");
    reveal_strlit("run");
    reveal_strlit("--rm");
    reveal_strlit("--network=none");
    reveal_strlit("--read-only");
    reveal_strlit("--cap-drop=ALL");
    reveal_strlit("--security-opt=no-new-privileges");
    reveal_strlit("--tmpfs=/tmp:noexec,nosuid,size=64m");
    reveal_strlit("--memory=2g");
    reveal_strlit("--pids-limit=64");
    reveal_strlit("--no-healthcheck");
    reveal_strlit("--hostname=seck-sandbox");
    reveal_strlit("--ipc=none");
    reveal_strlit("--cpus=1.0");
    reveal_strlit("--userns=auto");
    reveal_strlit("-i");
    reveal_strlit("localhost/seck-reader:0.1.0");
    reveal_strlit(":/models:ro");
    reveal_strlit(":ro");
    let v = "--volume="@;
    assert forall|i: int|
        0 <= i < a.len() && crate::text::starts_with(#[trigger] a[i], v) implies i == 13 by {
        if i != 13 {
            let x = a[i];
            if v.len() <= x.len() {
                assert(x.subrange(0, v.len() as int)[2] != v[2]);
            }
        }
    }
    let t = ":/models:ro"@;
    assert(a[13].subrange(a[13].len() - 3, a[13].len() as int) =~= t.subrange(8, 11));
    assert(t.subrange(8, 11) =~= ":ro"@);
}

/// Builds the container argv; the runtime does not change the flag set.
pub fn build_args(rt: &Runtime, model_dir: &str) -> (args: Vec<String>)
    ensures
        args.deep_view() == container_args(model_dir@),
{
    let _ = rt;
    let mut volume = String::from_str("--volume=");
    push_str(&mut volume, model_dir);
    push_str(&mut volume, ":/models:ro");
    let args = vec![
        String::from_str("run"),
        String::from_str("--rm"),
        String::from_str("--network=none"),
        String::from_str("--read-only"),
        String::from_str("--cap-drop=ALL"),
        String::from_str("--security-opt=no-new-privileges"),
        String::from_str("--tmpfs=/tmp:noexec,nosuid,size=64m"),
        String::from_str("--memory=2g"),
        String::from_str("--pids-limit=64"),
        String::from_str("--no-healthcheck"),
        String::from_str("--hostname=seck-sandbox"),
        String::from_str("--ipc=none"),
        String::from_str("--cpus=1.0"),
        volume,
        String::from_str("--userns=auto"),
        String::from_str("-i"),
        String::from_str("localhost/seck-reader:0.1.0"),
    ];
    assert(args.deep_view() =~= container_args(model_dir@));
    args
}

/// Whether `s` begins with `p`.
pub open spec fn starts_with_bytes(s: Seq<u8>, p: Seq<u8>) -> bool {
    p.len() <= s.len() && s.subrange(0, p.len() as int) == p
}

/// `b"true"`.
pub open spec fn true_bytes() -> Seq<u8> {
    seq![0x74u8, 0x72, 0x75, 0x65]
}

/// `b"rootless"`.
pub open spec fn rootless_bytes() -> Seq<u8> {
    seq![0x72u8, 0x6f, 0x6f, 0x74, 0x6c, 0x65, 0x73, 0x73]
}

/// Whether `podman info --format {{.Host.Security.Rootless}}` reported a
/// rootless podman: it succeeded and its output starts with `true`.
pub fn podman_is_rootless(success: bool, stdout: &[u8]) -> (b: bool)
    ensures
        b == (success && starts_with_bytes(stdout@, true_bytes())),
{
    if !success || stdout.len() < 4 {
        return false;
    }
    let r = stdout[0] == 0x74 && stdout[1] == 0x72 && stdout[2] == 0x75 && stdout[3] == 0x65;
    proof {
        if r {
            assert(stdout@.subrange(0, 4) =~= true_bytes());
        } else {
            let sub = stdout@.subrange(0, 4);
            let t = true_bytes();
            if sub == t {
                assert(sub[0] == t[0] && sub[1] == t[1] && sub[2] == t[2] && sub[3] == t[3]);
            }
        }
    }
    r
}

/// The runtime to use when docker is the only one found, given what
/// `docker info --format {{.SecurityOptions}}` printed.
pub fn docker_runtime(path: std::path::PathBuf, stdout: &[u8], allow_insecure_rootful_docker: bool) -> (r: Result<Runtime, DetectError>)
    ensures
        contains_sub(stdout@, rootless_bytes()) ==> (r matches Ok(Runtime::RootlessDocker(p))
            && p == path),
        !contains_sub(stdout@, rootless_bytes()) && allow_insecure_rootful_docker ==> (r matches Ok(
            Runtime::RootfulDocker(p),
        ) && p == path),
        !contains_sub(stdout@, rootless_bytes()) && !allow_insecure_rootful_docker ==> (r matches Err(
            DetectError::OnlyRootfulDocker,
        )),
{
    let pat: [u8; 8] = [0x72, 0x6f, 0x6f, 0x74, 0x6c, 0x65, 0x73, 0x73];
    assert(pat@ =~= rootless_bytes());
    if contains_subsequence(stdout, &pat) {
        return Ok(Runtime::RootlessDocker(path));
    }
    if allow_insecure_rootful_docker {
        return Ok(Runtime::RootfulDocker(path));
    }
    Err(DetectError::OnlyRootfulDocker)
}

pub struct ContainerSandbox {
    pub profile_hash: [u8; 32],
}

impl ContainerSandbox {
    /// The backend for the given container recipe: SHA3-256 of the
    /// Dockerfile followed by the build script.
    pub fn new(dockerfile: &[u8], build_script: &[u8]) -> (s: Self)
        ensures
            s.profile_hash@ == sha3_256(dockerfile@ + build_script@),
    {
        let mut all: Vec<u8> = Vec::new();
        append_bytes(&mut all, dockerfile);
        append_bytes(&mut all, build_script);
        assert(all@ =~= dockerfile@ + build_script@);
        Self { profile_hash: sha3_256_of(all.as_slice()) }
    }
}

impl SandboxBackend for ContainerSandbox {
    fn name(&self) -> (n: &'static str)
        ensures
            n@ == "container-podman"@,
    {
        "container-podman"
    }

    fn profile_sha3_256(&self) -> (h: [u8; 32])
        ensures
            h == self.profile_hash,
    {
        self.profile_hash
    }
}

} // verus!
