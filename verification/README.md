# mini-hsm

A USB hardware security module built around the Microchip ATECC608B secure
element: an RP2040 talks to the host over a vendor-defined USB-HID
interface and keeps its keys and PIN/PUK hashes on the chip.

The library under `src/` is verified with Verus:

- `atecc`: the chip driver, generic over a bus HAL. Every HAL call is
  recorded in a ghost log, and each command's contract says which calls it
  makes and how their results decide its outcome.
- `service`: the crypto service: PIN/PUK handling with attempt batches on
  the chip's monotonic counters, the host side of CheckMac and of the
  encrypted write, the PIN session, provisioning and signing. The
  contracts of the PIN, PUK, reset and provisioning operations give the
  whole run of chip sessions each one makes (`service::runs`): which
  session follows which answer of the chip, and what result each answer
  leads to. SHA-256 comes from the `sha2` crate.
- `protocol`: the USB-HID report framing, opcodes, status codes and
  request payloads.
- `firmware`: the token state machine, its timers, the button debouncer,
  the LED patterns and the request dispatcher.

`app/` is the RP2040 firmware around it (embassy tasks, USB stack, I2C and
GPIO), and `tests/` runs the library against scripted HALs and a small
simulated chip.
