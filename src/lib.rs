//! Shannon-entropy triage of files: per-chunk byte frequency tables, fixed-point
//! entropy accumulation across chunks, and exact distributional statistics
//! (mean, median, population variance, quartiles and Tukey-fence outliers)
//! over a collection of per-file entropies.
pub mod entropy;
pub mod stats;
pub mod structs;


pub use entropy::{
    byte_frequencies, collect_entropies, file_entropy, FileMetadata, ScanConfig, ScanError,
    DEFAULT_CHUNK_SIZE, DEFAULT_MAX_FILE_SIZE, MAX_CHUNKS, MAX_CHUNK_ENTROPY,
};
pub use stats::{at_least, entropy_outliers, interquartile_range, mean, median, variance, Iqr, Ratio};
pub use structs::{FileEntropy, Stats, ENTROPY_UNITS_PER_BIT};
