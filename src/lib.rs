//! An in-memory, seekable byte cursor that is not `Unpin`.
//!
//! `PinCursor` owns an `async_std::io::Cursor` together with a `PhantomPinned`
//! marker, so that once it is placed behind a `Pin` it can never move again.
//! The operations forward to the inner cursor and return its results
//! unchanged; their contracts are stated over the cursor's bytes and position.
pub mod cursor;
pub mod laws;

pub use cursor::PinCursor;
