use cropduster::ota::{ota_auth_header, ota_credentials, ota_outcome, ota_url, OtaOutcome, OtaReply};
use cropduster::paths::{
    application_debug_elf, application_elf, application_uf2, artifact_path, bootloader_elf,
    bootloader_uf2, build_dir, combined_uf2, find_workspace_root, join_path, workspace_root,
};
use cropduster::rp2::{mount_point_of, wait_for_rpi_rp2, Rp2Action, Rp2Observation};
use cropduster::text::{contains, trim};

#[test]
fn artefact_paths() {
    assert_eq!(build_dir("/ws"), "/ws/build");
    assert_eq!(bootloader_elf("/ws"), "/ws/build/bootloader.elf");
    assert_eq!(application_elf("/ws/"), "/ws/build/application.elf");
    assert_eq!(application_debug_elf("ws"), "ws/build/application-debug.elf");
    assert_eq!(bootloader_uf2(""), "build/bootloader.uf2");
    assert_eq!(application_uf2("/"), "/build/application.uf2");
    assert_eq!(combined_uf2("/a/b"), "/a/b/build/combined.uf2");
    assert_eq!(join_path("/a", "/etc"), "/etc");
    assert_eq!(artifact_path("/ws", Artifact::ApplicationDebugElf), "/ws/build/application-debug.elf");
    assert_eq!(artifact_path("ws/", Artifact::CombinedUf2), "ws/build/combined.uf2");
    let all = [
        Artifact::BootloaderElf,
        Artifact::ApplicationElf,
        Artifact::ApplicationDebugElf,
        Artifact::BootloaderUf2,
        Artifact::ApplicationUf2,
        Artifact::CombinedUf2,
    ];
    let paths: Vec<String> = all.iter().map(|&a| artifact_path("/ws", a)).collect();
    for (i, p) in paths.iter().enumerate() {
        assert!(p.starts_with("/ws/build/"));
        assert!(!p["/ws/build/".len()..].contains('/'));
        for q in &paths[i + 1..] {
            assert_ne!(p, q);
        }
    }
}

#[test]
fn workspace_root_is_parent_of_manifest_dir() {
    assert_eq!(workspace_root("/home/u/pdu/xtask"), "/home/u/pdu");
    assert_eq!(find_workspace_root("/home/u/pdu/xtask/"), Some("/home/u/pdu".to_string()));
    assert_eq!(find_workspace_root("/"), None);
    assert_eq!(find_workspace_root(""), None);
}

#[test]
fn mount_table_lookup() {
    let mounts = "/dev/sda1 / ext4 rw 0 0\n/dev/sdb1 /media/RPI-RP2 vfat rw 0 0\n";
    assert_eq!(mount_point_of(mounts, "/dev/sdb1"), Some("/media/RPI-RP2".to_string()));
    assert_eq!(mount_point_of(mounts, "/dev/sdc1"), None);
    assert_eq!(mount_point_of("  /dev/x\t  /mnt/x  \r\n", "/dev/x"), Some("/mnt/x".to_string()));
    assert_eq!(mount_point_of("/dev/x\n", "/dev/x"), None);
    assert_eq!(mount_point_of("", ""), None);
}

#[test]
fn waiting_for_the_boot_drive() {
    assert_eq!(wait_for_rpi_rp2(Rp2Observation::TimedOut), Rp2Action::GiveUp);
    assert_eq!(wait_for_rpi_rp2(Rp2Observation::Absent), Rp2Action::Wait);
    let seen = Rp2Observation::Present {
        mounts: "/dev/sdb1 /run/media/RPI-RP2 vfat rw 0 0\n".to_string(),
        device: "/dev/sdb1".to_string(),
    };
    assert_eq!(wait_for_rpi_rp2(seen), Rp2Action::Mounted("/run/media/RPI-RP2".to_string()));
    let unmounted = Rp2Observation::Present { mounts: String::new(), device: "/dev/sdb1".to_string() };
    assert_eq!(wait_for_rpi_rp2(unmounted), Rp2Action::Mount("/dev/sdb1".to_string()));
}

#[test]
fn ota_request_parts() {
    assert_eq!(ota_credentials(None), "admin:admin");
    assert_eq!(ota_credentials(Some("  bob:pw \n".to_string())), "bob:pw");
    assert_eq!(ota_auth_header("admin:admin"), "Basic YWRtaW46YWRtaW4=");
    assert_eq!(ota_url("10.0.0.5"), "http://10.0.0.5/api/update");
}

#[test]
fn ota_outcomes() {
    assert_eq!(ota_outcome(&OtaReply::Response(200)), OtaOutcome::Uploaded);
    assert_eq!(ota_outcome(&OtaReply::Response(204)), OtaOutcome::Rejected(204));
    assert_eq!(
        ota_outcome(&OtaReply::Transport { connection_failed: true, message: None }),
        OtaOutcome::DeviceReset
    );
    assert_eq!(
        ota_outcome(&OtaReply::Transport {
            connection_failed: false,
            message: Some("Connection reset by peer (os error 104)".to_string())
        }),
        OtaOutcome::DeviceReset
    );
    assert_eq!(
        ota_outcome(&OtaReply::Transport { connection_failed: false, message: Some("timed out".to_string()) }),
        OtaOutcome::Failed
    );
    assert_eq!(ota_outcome(&OtaReply::Failed), OtaOutcome::Failed);
}

#[test]
fn text_helpers() {
    assert_eq!(trim("\u{3000} a b \t"), "a b");
    assert_eq!(trim("   "), "");
    assert!(contains("abcabd", "abd"));
    assert!(contains("x", ""));
    assert!(!contains("ab", "abc"));
}

use cropduster::plan::{build_steps, dist_steps, flash_steps, Artifact, ExistingFiles, FlashOptions, Step};

fn opts(bootloader: bool, application: bool, probe: bool, ota: bool) -> FlashOptions {
    FlashOptions { bootloader, application, probe, debug: false, ota }
}

const NONE: ExistingFiles = ExistingFiles { bootloader_uf2: false, application_uf2: false, combined_uf2: false };
const ALL: ExistingFiles = ExistingFiles { bootloader_uf2: true, application_uf2: true, combined_uf2: true };

#[test]
fn build_and_dist_plans() {
    assert_eq!(build_steps(false, false), vec![Step::BuildBootloader, Step::BuildApplication]);
    assert_eq!(build_steps(true, false), vec![Step::BuildBootloader]);
    assert_eq!(build_steps(false, true), vec![Step::BuildApplication]);
    assert_eq!(dist_steps(), vec![Step::BuildBootloader, Step::BuildApplication, Step::Combine]);
}

#[test]
fn probe_flash_downloads_application_before_bootloader() {
    let probe_all = vec![
        Step::BuildApplicationDebug,
        Step::ProbeDownload(Artifact::ApplicationDebugElf),
        Step::BuildBootloader,
        Step::ProbeDownload(Artifact::BootloaderElf),
        Step::ProbeReset,
        Step::ProbeAttach(Artifact::ApplicationDebugElf),
    ];
    assert_eq!(flash_steps(opts(false, false, true, false), ALL), probe_all);
    assert_eq!(flash_steps(opts(false, true, true, false), NONE), probe_all);
    assert_eq!(
        flash_steps(opts(true, false, true, false), NONE),
        vec![Step::BuildBootloader, Step::ProbeDownload(Artifact::BootloaderElf), Step::ProbeReset]
    );
}

#[test]
fn uf2_flash_builds_missing_files() {
    assert_eq!(flash_steps(opts(false, false, false, false), ALL), vec![Step::FlashUf2(Artifact::CombinedUf2)]);
    assert_eq!(
        flash_steps(opts(false, false, false, false), NONE),
        vec![Step::BuildBootloader, Step::BuildApplication, Step::Combine, Step::FlashUf2(Artifact::CombinedUf2)]
    );
    assert_eq!(
        flash_steps(opts(true, true, false, false), NONE),
        vec![
            Step::BuildBootloader,
            Step::FlashUf2(Artifact::BootloaderUf2),
            Step::BuildApplication,
            Step::FlashUf2(Artifact::ApplicationUf2),
        ]
    );
}

#[test]
fn ota_flash_uploads_application() {
    assert_eq!(flash_steps(opts(false, false, false, true), ALL), vec![Step::OtaUpload(Artifact::ApplicationUf2)]);
    assert_eq!(
        flash_steps(opts(true, false, true, true), NONE),
        vec![Step::BuildApplication, Step::OtaUpload(Artifact::ApplicationUf2)]
    );
}
