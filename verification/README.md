# oxideav-qoi

A QOI ("Quite OK Image") codec in Rust, verified with Verus.

* `src/` is the library, verified against contracts over a mathematical model
  of the format (`src/model.rs`): the decoder, the encoder, the chunk walk, and
  the packet and frame sessions. `src/laws/` states what holds of the codec as a
  whole: decoding gives back what was encoded, chunk choice is canonical,
  walking and writing chunks undo each other. Two contracts about outside code
  are believed rather than proved: `quoted` in `src/options.rs` (how `std`
  formats a string with `{:?}`) and `ContainerRegistry::register_extension` in
  `src/registry.rs`.
* `tests/` runs the library.
* `app/` makes the library a codec of the `oxideav` framework.

```rust
use oxideav_qoi::{encode_qoi, parse_qoi};

let file = encode_qoi(2, 1, 3, &[255, 0, 0, 0, 0, 255]);
let image = parse_qoi(&file)?;
assert_eq!(image.pixels, [255, 0, 0, 0, 0, 255]);
```
