# caving

A small video player: it decodes a file through libav and shows it in a
window, with the frame rate written over the picture.

- `src/` is the verified library (Verus):
  - `color` converts decoded YUV 4:2:0 planar frames into the RGBA pixels
    of a texture, with the exact bytes written, and nothing else touched,
    stated and proved;
  - `media` reads the pixel and sample formats from the decoder's numbers;
  - `player` holds the per-frame decisions: the file argument, the decoding
    pass that waits for a frame, the playing/finished mode, the frame
    counter and the status text.
- `app/` is the program around it: window, input, text rendering, the
  calls into the C decoder, and the floating-point clock.
- `tests/` runs the library on concrete values.
