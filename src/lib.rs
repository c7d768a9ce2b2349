//! Aggregate statistics over an exported chat-log archive: message counts per
//! author, and the total and longest call durations announced in message text.

pub mod archive;
pub mod call;
pub mod decimal;
pub mod laws;
pub mod report;
pub mod stats;
pub mod text;

pub use archive::{parse_archive, read_message, read_messages, FormatError, JsonView};
pub use call::{extract_call_duration, lemma_extract_round_trip};
pub use laws::{lemma_author_table, lemma_longest_is_maximum, lemma_no_message_array, lemma_no_messages, lemma_parse_repeatable, lemma_summary_unique, lemma_total_covers_longest};
pub use report::{calculate_percentage_difference, format_time, Comparison};
pub use stats::{summarize_messages, DiscordStats, Message, MessageView};
pub use text::{chars_of, find_from, matches_at};
