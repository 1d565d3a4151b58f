# hexmeow-motor-iap

`hexmeow-motor-iap` is a reusable host-side library for a small firmware update
protocol transported in COBS-framed messages over Classic CAN. Its logic is
verified with Verus: every function states what it returns, and the promises
below are proved of every run.

The crate deliberately contains no product table. Applications must provide a
finite local registry that binds an exact CANopen identity to the protocol
identity, allowed firmware IDs, address range, and encryption policy. A parsed
image alone can never authorize a write.

The safe API is capability-based:

```text
complete CANopen identity
  -> local registry authorization
  -> strict IMG parsing and policy binding
  -> same-bus identity revalidation
  -> Reset / Enter identity verification
  -> first destructive download command
```

Unknown, incomplete, changed, or sentinel identities fail before any
protocol-specific frame is transmitted. Once a destructive request may have
reached the device, an ambiguous response ends the session; the core never
blindly retransmits it.

## Layout

- `src/` is the verified library. It performs no I/O: an update
  (`FlashSession`) and a scan (`ScanSession`) are state machines that ask for one
  action at a time and are told how it went.
  - `cobs`, `wire`, `assembler`: the wire format, from bytes to frames and back.
  - `artifact`, `identity`, `policy`: images, identities, and the chain of
    capabilities that leads to an update.
  - `engine`, `session`: what an update reports and can fail with, and the
    update itself.
  - `guarantees`, `success`: what holds of every update, and that every update
    that may start can succeed.
  - `scan`: finding bootloaders that cannot announce themselves, and what holds
    of every scan.
  - `bytes`, `can`, `clock`, `text`: small helpers.
- `app/` runs updates and scans on a `can-transport` bus and the tokio clock, and
  gives the errors their texts. The `can-transport` traits let SocketCAN, gs_usb,
  and deterministic test transports share the same state machine.
- `tests/` runs the library against simulated devices.

## What is trusted

Proofs rest on the contracts of a few outside functions: the `crc` crate's
CRC-16/XMODEM, stated bit by bit; the `sha2` crate's SHA-256, taken as some
function of the bytes it is given; `char::is_whitespace`, stated as the list of
white space; and the system clock and the shared cancellation flag, of which
nothing is assumed. Contracts say which reading of them was used, and what comes
of every reading. Of the text that `std::fmt` writes nothing is assumed either.
