//! Storage usage by file extension: the grouping key of a file name, a
//! table that folds file sizes into per-key counts and totals, and the
//! report that is sorted, filtered and rendered from that table. Beside it,
//! a reader of FASTQ records from a text buffer.

pub mod ext_key;
pub mod fastq;
pub mod report;
pub mod scan;
pub mod table;

pub use ext_key::extension_key;
pub use fastq::{fastq_record, split_records, FastqParse, FastqRecord, RecordBatch};
pub use report::{
    build_report, calc_avg_filesize, get_human_readable_size, print_results, sort_results,
    MIN_COUNT, TOTAL_SIZE,
};
pub use scan::{aggregate_by_ext, keep_subdir};
pub use table::{AggregationTable, FileStats};
