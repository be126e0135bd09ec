//! Splitting a slice on a sub-slice.
//!
//! A slice of bytes, or of any other elements that can be compared for
//! equality, is split on the occurrences of a needle the way a string is
//! split on a delimiter string. [`SubslSplit`] is the iterator that does it:
//! it borrows the haystack and the needle, keeps two cursors into the
//! haystack, and hands out one sub-slice of the haystack per step.
//!
//! ```
//! use subsl::SubslSplitter;
//!
//! let request: &[u8] = b"GET / HTTP/1.0\r\n\r\nsome data in the body";
//! let mut parts = request.subsl_split(b"\r\n\r\n");
//! assert_eq!(parts.next().unwrap(), b"GET / HTTP/1.0");
//! assert_eq!(parts.next().unwrap(), b"some data in the body");
//! assert!(parts.next().is_none());
//! ```
//!
//! The rules, all of them proved:
//!
//! * The haystack is searched from left to right, and the leftmost
//!   occurrence of the needle ends the current segment. The search goes on
//!   behind that occurrence, so occurrences that are used never overlap.
//! * What lies behind the last occurrence is the last segment. Where the
//!   haystack ends in an occurrence, nothing lies behind it and no empty
//!   segment is added: `"a,b,"` split on `","` is `"a"`, `"b"`.
//! * An empty needle delimits nothing: the one segment is the haystack.
//! * An empty haystack has no segments, whatever the needle.
//! * Once `next` has returned `None` it returns `None` for good.
//!
//! The modules: [`occurrence`] says where a needle stands in a haystack,
//! [`model`] describes the splitter as a state machine over sequences,
//! [`split`] holds the iterator, whose contract is stated over that model,
//! and [`laws`] proves what holds of every split.

pub mod laws;
pub mod model;
pub mod occurrence;
pub mod split;

pub use split::{SubslSplit, SubslSplitter};
