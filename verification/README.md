# goodix_info

A verified driver library for the Goodix 27c6:550a fingerprint reader
(GM168SEC / GF3258 WN2), written in Verus. The functions under `src/` carry
contracts that are proved, with two exceptions. The calls into outside crates and
std stand behind a few declared items in `src/crypto.rs` and `src/text.rs`, whose
contracts are believed; `random_material` among them promises nothing of its
bytes. And `give_up` in `src/bootstrap.rs`, which drops what it is given, has no
contract: dropping a value has no specification.

## Layout

- `src/firmware.rs`, `src/transfer_link.rs`, `src/bootstrap.rs`: firmware blobs,
  transfer packages, the account of what is sent, and the steps from the loader
  to the application.
- `src/chicago_h.rs`: calibration from the sensor's one-time memory, and the
  volatile configuration made of it.
- `src/crypto.rs`: image sessions and decryption.
- `src/device.rs`, `src/driver.rs`: USB layout, re-enumeration, sessions,
  captures, enrollment and verification transactions.
- `src/feature/`: scale space, orientation, descriptors, quality, validity, and
  the candidate matcher.
- `src/registration.rs`, `src/enrollment*.rs`, `src/feature_enrollment.rs`: the
  enrollment template, its relations and its canonical component.
- `src/cli.rs`, `src/standalone_enroll.rs`, `src/standalone_verify.rs`: arguments
  and decisions of the programs.
- `src/bridge.rs`: records, statuses and checks at the boundary to a C driver.
- `src/text.rs`, `src/bytes.rs`, `src/arith.rs`: texts, byte order, arithmetic.

Functions that the library takes as arguments (registration, binary maps, image
codec, template storage) are stated as closures; their results enter the
contracts.

`tests/` runs the library on known values. `app/` holds the programs: USB access,
files and printing.
