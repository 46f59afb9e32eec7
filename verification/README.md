# cropduster

Controller for a network-attached power distribution unit (eight relay
outlets on an RP2040 board) and the host tool that builds and flashes it.

The library under `src/` holds the logic, verified with Verus:

- `elf`, `uf2`: flattening ELF segments into a flash image, UF2 encoding,
  combining bootloader and application, reading the application back out of
  a UF2 file (with the round-trip law).
- `storage`, `codec`, `auth`: the key-value schema, a model of what a
  committed transaction leaves in the store, password hashing, HTTP Basic
  credentials and the login decision.
- `gpio`, `web`: relay state, per-user port masks, and what each REST
  request reads, writes or refuses.
- `paths`, `plan`, `rp2`, `ota`: artefact paths, the steps of each build
  and flash command, finding the boot-ROM drive, and over-the-air upload.

`app/` is the unverified shell: the command-line host tool, and (for the
ARM target) the firmware tasks, HTTP routing, flash and network I/O, and the
floating-point energy-meter and temperature code.
