//! Unicode normalization: the four standard normalization forms (NFD, NFC,
//! NFKD, NFKC) and their stream-safe variants, over sequences of characters.
//!
//! The Unicode property tables (combining classes, decomposition mappings,
//! the canonical composition table) are consumed from the
//! `unicode-normalization` crate as immutable lookup data; the normalization
//! engine itself — Hangul arithmetic, the decomposition driver, canonical
//! ordering, canonical composition, and the stream-safe bounder — is verified
//! here.

pub mod tables;
pub mod hangul;
pub mod decompose;
pub mod ordering;
pub mod compose;
pub mod stream_safe;
pub mod normalize;
pub mod codepoints;

pub use crate::codepoints::to_codepoint_seq;
pub use crate::compose::compose;
pub use crate::hangul::{hangul_compose, hangul_decompose};
pub use crate::normalize::{canonical_combining_class, decompose_canonical, decompose_compatible,
    is_combining_mark, nfc, nfc_stream_safe, nfd, nfd_stream_safe, nfkc, nfkd, stream_safe};
