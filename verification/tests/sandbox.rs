use seck::plugin::SandboxBackend;
use seck::sandbox::container::{build_args, docker_runtime, podman_is_rootless, ContainerSandbox, DetectError, Runtime};
use seck::sandbox::stub;
use seck::sandbox::windows::WindowsSandbox;
use seck::sandbox::{bundled_profile_hash, default_backend, LinuxSandbox};
use seck::sandbox::macos::MacosSandbox;
use sha3::{Digest, Sha3_256};
use std::path::PathBuf;

#[test]
fn build_args_has_no_network_read_only_cap_drop_all() {
    let args = build_args(
        &Runtime::Podman(PathBuf::from("/usr/bin/podman")),
        std::path::Path::new("/tmp/model-dir").display().to_string().as_str(),
    );
    assert!(args.iter().any(|a| a == "--network=none"));
    assert!(args.iter().any(|a| a == "--read-only"));
    assert!(args.iter().any(|a| a == "--cap-drop=ALL"));
    assert!(args.iter().any(|a| a == "--security-opt=no-new-privileges"));
    assert!(args.iter().any(|a| a == "--ipc=none"));
}

#[test]
fn exactly_one_read_only_mount() {
    let args = build_args(
        &Runtime::Podman(PathBuf::from("/usr/bin/podman")),
        std::path::Path::new("/tmp/model-dir").display().to_string().as_str(),
    );
    let mounts: Vec<_> = args.iter().filter(|a| a.starts_with("--volume=")).collect();
    assert_eq!(mounts.len(), 1);
    assert!(mounts[0].ends_with(":ro"));
}

#[test]
fn profile_hash_is_stable() {
    let a = WindowsSandbox::new().profile_sha3_256();
    let b = WindowsSandbox::new().profile_sha3_256();
    assert_eq!(a, b);
}

#[test]
fn name_is_appcontainer() {
    assert_eq!(WindowsSandbox::new().name(), "windows-appcontainer");
}

// ---- further cases ----

#[test]
fn mount_names_the_model_dir() {
    let args = build_args(&Runtime::RootlessDocker(PathBuf::from("/d")), "/m");
    assert_eq!(args.len(), 17);
    assert_eq!(args[0], "run");
    assert_eq!(args[13], "--volume=/m:/models:ro");
    assert_eq!(args[16], "localhost/seck-reader:0.1.0");
}

#[test]
fn windows_profile_hash_is_sha3_of_its_parts() {
    let mut h = Sha3_256::new();
    h.update(b"windows-appcontainer-v1");
    h.update(b"Seck.Analyzer");
    h.update(b"acg|cig|dep|aslr|eaf|strict-handle|syscall-disable");
    let expected: [u8; 32] = h.finalize().into();
    assert_eq!(WindowsSandbox::new().profile_sha3_256(), expected);
}

#[test]
fn linux_profile_hash_covers_both_profiles() {
    let mut h = Sha3_256::new();
    h.update(b"seccomp");
    h.update(b"landlock");
    let expected: [u8; 32] = h.finalize().into();
    assert_eq!(bundled_profile_hash(b"seccomp", b"landlock"), expected);
    let l = LinuxSandbox::new(b"seccomp", b"landlock");
    assert_eq!(l.profile_sha3_256(), expected);
    assert_eq!(l.name(), "linux-landlock-prctl");
    let on_linux = default_backend(true, b"seccomp", b"landlock");
    assert_eq!(on_linux.profile_sha3_256(), expected);
    assert_eq!(on_linux.name(), "linux-landlock-prctl");
    let elsewhere = default_backend(false, b"seccomp", b"landlock");
    assert_eq!(elsewhere.profile_sha3_256(), expected);
    assert_eq!(elsewhere.name(), "stub-non-linux");
    let m = MacosSandbox::new(b"(version 1)");
    let mut h = Sha3_256::new();
    h.update(b"(version 1)");
    let seatbelt: [u8; 32] = h.finalize().into();
    assert_eq!(m.profile_sha3_256(), seatbelt);
    assert_eq!(m.name(), "macos-seatbelt");
    assert_ne!(bundled_profile_hash(b"seccomp", b"x"), expected);
}

#[test]
fn stub_refuses_lockdown() {
    let e = stub::LinuxSandbox::apply_self_lockdown().unwrap_err();
    assert!(e.message.contains("not available"));
    assert_eq!(stub::LinuxSandbox::new(b"", b"").name(), "stub-non-linux");
}

#[test]
fn container_profile_and_name() {
    let c = ContainerSandbox::new(b"FROM scratch\n", b"#!/bin/sh\n");
    assert_eq!(c.name(), "container-podman");
    let mut h = Sha3_256::new();
    h.update(b"FROM scratch\n");
    h.update(b"#!/bin/sh\n");
    let expected: [u8; 32] = h.finalize().into();
    assert_eq!(c.profile_sha3_256(), expected);
}

#[test]
fn runtime_choice() {
    assert!(podman_is_rootless(true, b"true\n"));
    assert!(!podman_is_rootless(false, b"true\n"));
    assert!(!podman_is_rootless(true, b"false\n"));
    assert!(matches!(
        docker_runtime(PathBuf::from("/d"), b"[name=rootless name=seccomp]", false),
        Ok(Runtime::RootlessDocker(_))
    ));
    assert!(matches!(
        docker_runtime(PathBuf::from("/d"), b"[name=seccomp]", true),
        Ok(Runtime::RootfulDocker(_))
    ));
    assert!(matches!(
        docker_runtime(PathBuf::from("/d"), b"[name=seccomp]", false),
        Err(DetectError::OnlyRootfulDocker)
    ));
}
