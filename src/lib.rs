//! Combinatorial cell-barcode demultiplexing: whitelist correction of
//! fixed-offset barcode windows, corrected FASTQ records with a barcode
//! histogram, and a sparse cell-by-feature count matrix.

pub mod counts;
pub mod demux;
pub mod key_index;
pub mod scheme;
pub mod table;
pub mod text;
pub mod whitelist;

pub use counts::CountError;
pub use counts::CountMode;
pub use counts::FeatureTable;
pub use counts::SparseCountMatrix;
pub use demux::BarcodeHistogram;
pub use demux::FastqRecord;
pub use scheme::AtrandiBarcodes;
pub use scheme::CellBarcode;
pub use table::BarcodeTableError;
pub use whitelist::BarcodeWhitelist;
pub use whitelist::RoundMatch;
pub use demux::Demultiplexer;
pub use demux::DemuxError;
pub use demux::PairOutcome;
pub use demux::DemuxOutput;
