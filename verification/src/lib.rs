//! Collects Instagram handles from the comments of a weekly discussion thread.
//!
//! The thread is found in a forum listing, its comments are read for handles, and the
//! handles are sorted and written out, each once. This crate holds the rules of that work
//! as functions from values to values; fetching and file handling are left to the caller.
//!
//! Missing data is never an error here. A listing without the thread gives no address, a
//! thread without comments gives an empty list, and a comment without a cue gives no
//! handle. The one error is a profile link that cannot be read, which fails the run.
//!
//! Every contract is stated over character sequences: [`text`] holds the common notions,
//! [`tokens`] the splitting of a comment, [`handles`] the reading of one comment,
//! [`order`] the order of the result, [`extract`] the whole extraction, [`listing`] and
//! [`thread`] the forum's answers, and [`report`] the texts that a run leaves behind.

pub mod extract;
pub mod handles;
pub mod listing;
pub mod order;
pub mod report;
pub mod text;
pub mod thread;
pub mod tokens;

pub use extract::{get_instagrams, CustomError};
pub use listing::{get_friday_url, thread_url, SubCData, SubChild, SubRData, SubResponse};
pub use report::{log_event, output_line, output_text, summary_line};
pub use thread::{get_comments, PostChildren, PostCommentData, PostData, PostResponse};
