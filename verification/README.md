# maor

Text to video with sound: a diffusion transformer over video and audio latents, its text
encoder, the samplers and guidance that drive it, and the decoders that turn latents into
frames and samples. Tensors are those of candle; the rules around them are verified with
Verus.

## Layout

- `src/model.rs` is the mathematical model: a tensor is a shape, an element type and symbolic
  elements that record how each number was computed.
- `src/array.rs`, `src/array/`, `src/weights.rs` and `src/text_encoder/tokenizer.rs` hold every
  call into an outside crate, each behind a contract over that model.
- `src/base`, `src/nn`, `src/transformer`, `src/text_encoder`, `src/video_vae`,
  `src/audio_vae`, `src/scheduler` and `src/pipeline` are the library proper. Public proof
  functions whose names begin with `law_` state what holds of several functions together.
- `tests/` runs the library with candle on small tensors.
- `app/` is the command line: options, files, checkpoints, ffmpeg.

## Numbers

Floating-point numbers are bit patterns (`Scalar`) or tensors without axes. The contracts say
which operations are carried out on which elements and in which order; what a floating-point
operation rounds to is candle's business. Where a decision depends on a computed number, the
contract says of which tensor the number is read and which comparison decides, and holds whatever
number is read.

Operations on tensors in main memory are promised to succeed where candle's own code shows it;
elsewhere a contract says what holds if they do.
