//! What the build tool does for each command: the ordered steps of a build,
//! a distribution build and a flash.

use vstd::prelude::*;

verus! {

/// A build artefact under `build/`.
#[derive(Debug, Clone, Copy, PartialEq, Eq, Structural)]
pub enum Artifact {
    /// `bootloader.elf`
    BootloaderElf,
    /// `application.elf`
    ApplicationElf,
    /// `application-debug.elf`
    ApplicationDebugElf,
    /// `bootloader.uf2`
    BootloaderUf2,
    /// `application.uf2`
    ApplicationUf2,
    /// `combined.uf2`
    CombinedUf2,
}

/// One step of a command.
#[derive(Debug, Clone, Copy, PartialEq, Eq, Structural)]
pub enum Step {
    /// Build the bootloader (ELF and UF2).
    BuildBootloader,
    /// Build the application (ELF and UF2).
    BuildApplication,
    /// Build the application with probe logging (debug ELF).
    BuildApplicationDebug,
    /// Combine both ELFs into the combined UF2.
    Combine,
    /// Copy a UF2 file to the boot-ROM drive.
    FlashUf2(Artifact),
    /// Upload a UF2 file's application image to the running device.
    OtaUpload(Artifact),
    /// Download an ELF through the debug probe, without reset.
    ProbeDownload(Artifact),
    /// Reset the chip through the debug probe.
    ProbeReset,
    /// Attach to the running chip for logging, with this ELF's symbols.
    ProbeAttach(Artifact),
}

/// Options of the flash command.
#[derive(Debug, Clone, Copy)]
pub struct FlashOptions {
    /// Flash only the bootloader.
    pub bootloader: bool,
    /// Flash only the application.
    pub application: bool,
    /// Use the debug probe.
    pub probe: bool,
    /// Build the application with probe logging.
    pub debug: bool,
    /// Upload over the network to a running device.
    pub ota: bool,
}

/// Which UF2 files already exist.
#[derive(Debug, Clone, Copy)]
pub struct ExistingFiles {
    /// `build/bootloader.uf2` exists.
    pub bootloader_uf2: bool,
    /// `build/application.uf2` exists.
    pub application_uf2: bool,
    /// `build/combined.uf2` exists.
    pub combined_uf2: bool,
}

/// Steps of `build`: both parts when no part is named.
pub open spec fn build_plan(bootloader: bool, application: bool) -> Seq<Step> {
    let both = !bootloader && !application;
    (if both || bootloader { seq![Step::BuildBootloader] } else { Seq::empty() }) + (if both || application {
        seq![Step::BuildApplication]
    } else {
        Seq::empty()
    })
}

/// Steps of `build`.
pub fn build_steps(bootloader: bool, application: bool) -> (r: Vec<Step>)
    ensures
        r@ == build_plan(bootloader, application),
{
    let both = !bootloader && !application;
    let mut r: Vec<Step> = Vec::new();
    if both || bootloader {
        r.push(Step::BuildBootloader);
    }
    if both || application {
        r.push(Step::BuildApplication);
    }
    assert(r@ =~= build_plan(bootloader, application));
    r
}

/// Steps of `dist`: build both parts, then combine them.
pub fn dist_steps() -> (r: Vec<Step>)
    ensures
        r@ == seq![Step::BuildBootloader, Step::BuildApplication, Step::Combine],
{
    let mut r: Vec<Step> = Vec::new();
    r.push(Step::BuildBootloader);
    r.push(Step::BuildApplication);
    r.push(Step::Combine);
    assert(r@ =~= seq![Step::BuildBootloader, Step::BuildApplication, Step::Combine]);
    r
}

/// Building and downloading the application through the probe, then the
/// bootloader, whose download restores flash sector 0 that the
/// application's download erased; then reset and attach.
pub open spec fn probe_application_plan() -> Seq<Step> {
    seq![
        Step::BuildApplicationDebug,
        Step::ProbeDownload(Artifact::ApplicationDebugElf),
        Step::BuildBootloader,
        Step::ProbeDownload(Artifact::BootloaderElf),
        Step::ProbeReset,
        Step::ProbeAttach(Artifact::ApplicationDebugElf),
    ]
}

/// Flashing one UF2 file, built first when it does not exist.
pub open spec fn uf2_plan(exists: bool, build: Seq<Step>, file: Artifact) -> Seq<Step> {
    (if exists { Seq::empty() } else { build }) + seq![Step::FlashUf2(file)]
}

/// Steps of `flash`. Over the network the application UF2 is uploaded
/// (built first if missing). Through the probe the application is always the
/// debug build and is downloaded before the bootloader. Otherwise UF2 files
/// are copied to the boot-ROM drive, each built first if missing: the
/// combined file when no part is named.
pub open spec fn flash_plan(o: FlashOptions, e: ExistingFiles) -> Seq<Step> {
    let combined = !o.bootloader && !o.application;
    if o.ota {
        (if e.application_uf2 { Seq::empty() } else { seq![Step::BuildApplication] }) + seq![
            Step::OtaUpload(Artifact::ApplicationUf2),
        ]
    } else if o.probe {
        if combined {
            probe_application_plan()
        } else {
            (if o.bootloader {
                seq![Step::BuildBootloader, Step::ProbeDownload(Artifact::BootloaderElf), Step::ProbeReset]
            } else {
                Seq::empty()
            }) + (if o.application { probe_application_plan() } else { Seq::empty() })
        }
    } else if combined {
        uf2_plan(
            e.combined_uf2,
            seq![Step::BuildBootloader, Step::BuildApplication, Step::Combine],
            Artifact::CombinedUf2,
        )
    } else {
        (if o.bootloader {
            uf2_plan(e.bootloader_uf2, seq![Step::BuildBootloader], Artifact::BootloaderUf2)
        } else {
            Seq::empty()
        }) + (if o.application {
            uf2_plan(e.application_uf2, seq![Step::BuildApplication], Artifact::ApplicationUf2)
        } else {
            Seq::empty()
        })
    }
}

fn push_probe_application(r: &mut Vec<Step>)
    ensures
        final(r)@ == old(r)@ + probe_application_plan(),
{
    r.push(Step::BuildApplicationDebug);
    r.push(Step::ProbeDownload(Artifact::ApplicationDebugElf));
    r.push(Step::BuildBootloader);
    r.push(Step::ProbeDownload(Artifact::BootloaderElf));
    r.push(Step::ProbeReset);
    r.push(Step::ProbeAttach(Artifact::ApplicationDebugElf));
    assert(r@ =~= old(r)@ + probe_application_plan());
}

/// Steps of `flash`.
pub fn flash_steps(o: FlashOptions, e: ExistingFiles) -> (r: Vec<Step>)
    ensures
        r@ == flash_plan(o, e),
{
    let combined = !o.bootloader && !o.application;
    let mut r: Vec<Step> = Vec::new();
    if o.ota {
        if !e.application_uf2 {
            r.push(Step::BuildApplication);
        }
        r.push(Step::OtaUpload(Artifact::ApplicationUf2));
    } else if o.probe {
        if combined {
            push_probe_application(&mut r);
        } else {
            if o.bootloader {
                r.push(Step::BuildBootloader);
                r.push(Step::ProbeDownload(Artifact::BootloaderElf));
                r.push(Step::ProbeReset);
            }
            let ghost after_bootloader = r@;
            if o.application {
                push_probe_application(&mut r);
            }
            assert(r@ =~= after_bootloader + (if o.application { probe_application_plan() } else { Seq::empty() }));
        }
    } else if combined {
        if !e.combined_uf2 {
            r.push(Step::BuildBootloader);
            r.push(Step::BuildApplication);
            r.push(Step::Combine);
        }
        r.push(Step::FlashUf2(Artifact::CombinedUf2));
    } else {
        if o.bootloader {
            if !e.bootloader_uf2 {
                r.push(Step::BuildBootloader);
            }
            r.push(Step::FlashUf2(Artifact::BootloaderUf2));
        }
        let ghost after_bootloader = r@;
        if o.application {
            if !e.application_uf2 {
                r.push(Step::BuildApplication);
            }
            r.push(Step::FlashUf2(Artifact::ApplicationUf2));
        }
        assert(r@ =~= after_bootloader + (if o.application {
            uf2_plan(e.application_uf2, seq![Step::BuildApplication], Artifact::ApplicationUf2)
        } else {
            Seq::empty()
        }));
    }
    assert(r@ =~= flash_plan(o, e));
    r
}

/// The step downloads an application ELF through the probe.
pub open spec fn downloads_application(s: Step) -> bool {
    s == Step::ProbeDownload(Artifact::ApplicationElf) || s == Step::ProbeDownload(
        Artifact::ApplicationDebugElf,
    )
}

/// Every application download through the probe is followed by a
/// bootloader download, which restores flash sector 0 (shared by the
/// application's second-stage boot code and the bootloader's vector table).
pub proof fn lemma_bootloader_restored_after_application(o: FlashOptions, e: ExistingFiles, i: int)
    requires
        0 <= i < flash_plan(o, e).len(),
        downloads_application(flash_plan(o, e)[i]),
    ensures
        exists|j: int| i < j < flash_plan(o, e).len() && #[trigger] flash_plan(o, e)[j] == Step::ProbeDownload(Artifact::BootloaderElf),
{
    let p = flash_plan(o, e);
    let combined = !o.bootloader && !o.application;
    if o.ota {
    } else if o.probe {
        if combined {
            assert(p[3] == Step::ProbeDownload(Artifact::BootloaderElf));
        } else {
            let pre = if o.bootloader {
                seq![Step::BuildBootloader, Step::ProbeDownload(Artifact::BootloaderElf), Step::ProbeReset]
            } else {
                Seq::<Step>::empty()
            };
            assert(o.application);
            assert(i == pre.len() + 1);
            assert(p[pre.len() as int + 3] == Step::ProbeDownload(Artifact::BootloaderElf));
        }
    } else if combined {
        assert(!downloads_application(p[i]));
    } else {
        assert(!downloads_application(p[i]));
    }
}

/// Through the probe the application is always the debug build: no plan
/// that uses the probe builds or downloads the release application ELF.
pub proof fn lemma_probe_uses_debug_build(o: FlashOptions, e: ExistingFiles, i: int)
    requires
        o.probe,
        !o.ota,
        0 <= i < flash_plan(o, e).len(),
    ensures
        flash_plan(o, e)[i] != Step::BuildApplication,
        flash_plan(o, e)[i] != Step::ProbeDownload(Artifact::ApplicationElf),
        flash_plan(o, e)[i] != Step::ProbeAttach(Artifact::ApplicationElf),
{
}

/// A UF2 file is copied to the drive only when it existed or the plan built
/// it earlier.
pub proof fn lemma_flashed_file_is_present(o: FlashOptions, e: ExistingFiles, i: int)
    requires
        0 <= i < flash_plan(o, e).len(),
    ensures
        flash_plan(o, e)[i] == Step::FlashUf2(Artifact::CombinedUf2) ==> e.combined_uf2 || (exists|j: int|
            0 <= j < i && #[trigger] flash_plan(o, e)[j] == Step::Combine),
        flash_plan(o, e)[i] == Step::FlashUf2(Artifact::BootloaderUf2) ==> e.bootloader_uf2 || (exists|j: int|
            0 <= j < i && #[trigger] flash_plan(o, e)[j] == Step::BuildBootloader),
        flash_plan(o, e)[i] == Step::FlashUf2(Artifact::ApplicationUf2) ==> e.application_uf2 || (exists|j: int|
            0 <= j < i && #[trigger] flash_plan(o, e)[j] == Step::BuildApplication),
        flash_plan(o, e)[i] == Step::OtaUpload(Artifact::ApplicationUf2) ==> e.application_uf2 || (exists|j: int|
            0 <= j < i && #[trigger] flash_plan(o, e)[j] == Step::BuildApplication),
{
    let p = flash_plan(o, e);
    let combined = !o.bootloader && !o.application;
    if o.ota {
        if !e.application_uf2 {
            assert(p[0] == Step::BuildApplication);
        }
    } else if o.probe {
    } else if combined {
        if !e.combined_uf2 {
            assert(p[2] == Step::Combine);
        }
    } else {
        let pre = if o.bootloader {
            uf2_plan(e.bootloader_uf2, seq![Step::BuildBootloader], Artifact::BootloaderUf2)
        } else {
            Seq::<Step>::empty()
        };
        if o.bootloader && !e.bootloader_uf2 {
            assert(p[0] == Step::BuildBootloader);
        }
        if o.application && !e.application_uf2 {
            assert(p[pre.len() as int] == Step::BuildApplication);
        }
    }
}

/// The combined image is flashed, or built, only by a plain `flash` that
/// names no part: naming the application (or the bootloader) flashes that
/// part's own UF2 file and never combines.
pub proof fn lemma_combined_only_without_parts(o: FlashOptions, e: ExistingFiles, i: int)
    requires
        0 <= i < flash_plan(o, e).len(),
    ensures
        flash_plan(o, e)[i] == Step::FlashUf2(Artifact::CombinedUf2) ==> !o.ota && !o.probe && !o.bootloader
            && !o.application,
        flash_plan(o, e)[i] == Step::Combine ==> !o.ota && !o.probe && !o.bootloader && !o.application,
        !o.ota && !o.probe && !o.bootloader && o.application ==> (flash_plan(o, e)[i] matches Step::FlashUf2(a)
            ==> a == Artifact::ApplicationUf2),
        !o.ota && !o.probe && o.bootloader && !o.application ==> (flash_plan(o, e)[i] matches Step::FlashUf2(a)
            ==> a == Artifact::BootloaderUf2),
{
}

/// A UF2 flash that names the application copies the application's UF2
/// file; one that names neither part copies the combined file.
pub proof fn lemma_named_part_is_flashed(o: FlashOptions, e: ExistingFiles)
    requires
        !o.ota,
        !o.probe,
    ensures
        o.application ==> flash_plan(o, e).contains(Step::FlashUf2(Artifact::ApplicationUf2)),
        o.bootloader ==> flash_plan(o, e).contains(Step::FlashUf2(Artifact::BootloaderUf2)),
        !o.application && !o.bootloader ==> flash_plan(o, e).contains(Step::FlashUf2(Artifact::CombinedUf2)),
{
    let p = flash_plan(o, e);
    if o.application || o.bootloader {
        let pre = if o.bootloader {
            uf2_plan(e.bootloader_uf2, seq![Step::BuildBootloader], Artifact::BootloaderUf2)
        } else {
            Seq::<Step>::empty()
        };
        if o.bootloader {
            assert(p[pre.len() - 1] == Step::FlashUf2(Artifact::BootloaderUf2));
        }
        if o.application {
            assert(p[p.len() - 1] == Step::FlashUf2(Artifact::ApplicationUf2));
        }
    } else {
        assert(p[p.len() - 1] == Step::FlashUf2(Artifact::CombinedUf2));
    }
}

} // verus!
