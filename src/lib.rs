//! H.264 decoder configuration records and the conversion of
//! length-prefixed NAL unit streams to start-code framing.
pub mod buffer;
pub mod bytes_io;
pub mod errors;
pub mod mpeg4_avc;
pub mod nal;

pub use crate::bytes_io::{BytesReadError, BytesReader, BytesWriter};
pub use crate::errors::{MpegAvcError, MpegErrorValue};
pub use crate::mpeg4_avc::{Mpeg4Avc, Mpeg4AvcProcessor, Mpeg4AvcWriter, Pps, Sps};
