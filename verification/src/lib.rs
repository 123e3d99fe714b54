//! Device/output lifecycle and frame-production core of a DRM/KMS compositor.
//!
//! The library is the decision layer of the pipeline: it diffs kernel
//! connector state, owns the per-GPU device registry and its output surfaces,
//! negotiates buffer-format feedback, paces frames off vblank completions and
//! classifies submit failures.  Kernel and display-protocol I/O stays outside;
//! callers feed the observed state in as plain values and carry the returned
//! decisions back out to the hardware.

pub mod assembler;

pub mod dispatch;

pub mod formats;

pub mod outputs;

pub mod quirks;

pub mod registry;

pub mod scanner;

pub mod scheduler;
