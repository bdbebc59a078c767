//! The decisions of a fullscreen music visualiser.
//!
//! Audio is captured in one thread and drawn in another. In between stand a ring
//! of samples, an analysis into bass, mid, treble and beats, a scrolling height
//! map, and an overlay with the song that is playing. This library holds what all
//! of that decides and keeps, with contracts that say so; the audio server, the
//! window, the graphics device and the arithmetic on single-precision numbers stay
//! with the program around it.
//!
//! - [`app`]: keys, flags, accent colours, and the now-playing overlay
//! - [`audio`]: capture targets, the negotiated rate, captured buffers
//! - [`ring`]: the ring of samples between the two threads
//! - [`dsp`]: the sample window, the frequency bands, peaks and beats
//! - [`render`]: targets, bindings, pipelines, passes and the height map
//! - [`grid`]: the segments of the wireframe
//! - [`nowplaying`]: the text of the song that is playing
//! - [`config`]: persistent settings
//! - [`single`]: single-precision numbers by their bit patterns
//! - [`text`]: trimming, decimal numbers, searching and padding

pub mod app;
pub mod audio;
pub mod config;
pub mod dsp;
pub mod grid;
pub mod nowplaying;
pub mod render;
pub mod ring;
pub mod single;
pub mod text;
