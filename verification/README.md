# ironfoil_core

Host-side logic for sending Nintendo Switch title backups (`.nsp`, `.xci`,
`.nsz`) to title installers on the console, and for injecting RCM payloads,
written in Verus with its behaviour stated in contracts and proved.

Layout:

- `src/` — the verified library
  - `sphaira.rs`: Sphaira USB protocol packets (CRC-32C checked) and the host's decisions
  - `tinfoil.rs`: TinFoil USB protocol headers, requested-path checks, range sending
  - `network.rs`: URL announcement, HTTP request routing and responses for network installs
  - `rcm.rs`: building the RCM payload and the USB write plan
  - `paths.rs`, `listing.rs`, `usb.rs`: finding game backups and announcing them
  - `staging.rs`, `progress.rs`: the staged-files model, how a pick is staged, when an
    install can start and how an ended one is reported, and install progress
  - `codec.rs`, `decimal.rs`, `checksum.rs`: byte encodings, and CRC-32C (stated bit by
    bit, computed by the `crc32c` crate)
- `tests/` — tests of the library on concrete values
- `app/` — the command-line program: USB (nusb), TCP and file I/O around the library
