# image_ffi

A command-line tool that loads an image, hands its RGBA pixels to a dynamically
loaded plugin (`mirror` or `blur`), and saves the result.

- `src/` is the verified library (Verus):
  - `validation` — the shape checks a plugin makes on its arguments and the status codes it returns;
  - `mirror` — left-to-right and top-to-bottom mirroring, with their laws
    (each is its own inverse, the two commute, both together turn the image by half a turn);
  - `blur` — the integer side of the blur: parameter checks, the disc-shaped kernel,
    the pixels each output pixel reads, progress reporting;
  - `loader` — the host's checks around a plugin call and the plugin's library file name;
  - `picture` — decoding the input picture into RGBA pixels and rebuilding a picture from
    processed pixels, through the `image` crate.
- `app/` is the program around it: command-line parsing, file reading and picture saving,
  loading the plugin library, JSON parameter parsing, the floating-point weighted sums of
  the blur, and the bodies of the two plugins' C entry points (`process_image`). This
  package builds one program, so those entry points are plain functions of it here, not
  exported symbols: each plugin library is a separate `cdylib` that exports its own
  `process_image` with `#[unsafe(no_mangle)]`, which two modules of one program cannot both do.
- `tests/` exercises the library on concrete images.
