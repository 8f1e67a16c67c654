# su

Su! moves files between a desktop and phones on the same network: the
desktop shares files behind QR-code addresses and receives uploads from a
phone's browser.

`src/` is the verified library (Verus). It holds the logic of the program:
request routing, byte ranges for resumable downloads, the share store and
its bundles, upload names, devices and batches, the phone-side pages,
settings, the hand-over between two running instances, the choice of LAN
address and the registry entries of the Explorer context menu. Each public
function states its result in its contract, and the `law_*` proof functions
state what holds across calls.

`src/outside.rs` gathers the calls into outside crates (`rand`, `fastrand`,
`urlencoding`, `mime_guess`) with the contracts that are trusted.

`app/` is the program around the library: the HTTP server (`tiny_http`),
files on disk, the saved state (`serde_json`), network interfaces, and the
Windows registry.

`tests/` runs the library on concrete values.
