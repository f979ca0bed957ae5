# unifand

Control of Lian Li Uni Fan TL devices (wired fan controller, wired and
wireless LCD fans, SLV3H wireless hub) on Linux, as a library verified with
Verus and a command-line tool around it.

## Layout

- `src/` — the verified library.
  - `protocol/` — the reports and frames on the wire: 64-byte fan/LED
    reports, 512-byte LCD reports, the SLV3H hub and RF dongle packets, and
    the tinyuz compressor and decompressor used for LED effects, with the
    proof that decompressing gives back the data wherever the compressor
    takes it (the checked compressor says when it does not).
  - `transport/` — the DES-CBC encrypted command buffers and image transfers
    of the wireless LCD.
  - `devices.rs` — how the device drivers build their requests and read the
    answers.
  - `device.rs` — telling the known devices apart.
  - `mjpeg.rs`, `display.rs`, `daemon.rs` — video frames, rotations and the
    daemon's display requests.
  - `config.rs` — which configuration entries apply to which connected LCD,
    and which LED effects and videos the daemon starts from them.
  - `ipc.rs`, `status.rs`, `report.rs` — the daemon's messages, its status,
    and the status report that the tool prints.
- `tests/` — tests of the library.
- `app/` — `unifanctl`: USB and HID I/O, the command line, the daemon
  (`unifanctl daemon`), JSON on the Unix socket, ffmpeg.
