//! Collects news items for several keywords from a news provider, merges the
//! per-keyword results into one pool, and reduces the pool for display.

mod model;
mod sanitize;
mod aggregate;
mod select;
mod feed;
mod feed_format;

pub use model::{ErrorKind, FeedError, NewsItem};
pub use sanitize::{
    close_after, contains_tag, decoded_text, html_decoded, lemma_sanitize_idempotent,
    lemma_sanitize_leaves_no_tag, lemma_strip_leaves_no_tag, remove_html_tags, sanitized,
    strip_tags,
};
pub use aggregate::{
    aggregate, arrivals_complete, failures_of, has_arrival, in_keyword_order, lemma_all_failures,
    lemma_arrival_order_irrelevant, pooled, pooled_origins, AggregatePool, Arrival, QueryFailure,
};
pub use select::{
    group_of, group_sizes_sum, lemma_partition_preserves_count, min_len, pick, sample,
    sample_seeded, selects, total_len,
};
pub use feed::{
    check_status, cleaned_text, is_success_status, Credentials, RESULTS_PER_QUERY, SAMPLE_SIZE,
};
pub use feed_format::{
    as_int_pairs, cdata_close, cdata_open, close_tag, description_name, element_content,
    entry_of, feed_entries, field_range, find_between, find_element, first_at, first_open_tag,
    item_blocks, item_name, item_ranges, link_name, occurs_at, open_tag_at, pub_date_name,
    range_is, source_name, title_name, unwrapped, FeedEntry,
};
