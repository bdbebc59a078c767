# Audio visualiser

The verified core of a fullscreen music visualiser for Linux and PipeWire: it
captures audio, extracts bass, mid, treble and beats, and draws a scrolling
terrain or globe with one accent colour and an overlay for the song that is
playing.

- `src/` is the library, written in Verus. It holds what the visualiser decides
  and keeps: keys and flags, capture targets, captured buffers, the sample ring,
  the sample window, peaks and beats, settings, the overlay, and the plan of every
  frame. Each function has a contract, and the laws of the library are public
  proof functions beside them.
- `app/` is the program around it: the window, the audio server, the media player,
  the graphics device, the settings file, and all arithmetic on single-precision
  numbers. The library sees such a number as a bit pattern that can be compared.
- `tests/` runs the library on concrete values.

What is believed without proof is declared in two places: `src/ring.rs` wraps the
ring buffer of `ringbuf`, and `src/render.rs` wraps one cast of `bytemuck`.
