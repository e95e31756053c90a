use std::str::FromStr;

use forgeann::ann_result::{index_error, AnnError};
use forgeann::direct_io::{next_power_of_two, round_up, AlignedSpan, DirectIoConfig, Transfer};
use forgeann::metric::{Metric, ParseMetricError};

#[test]
fn metrics_are_named_in_any_case() {
    assert_eq!(Metric::from_str("L2"), Ok(Metric::L2));
    assert_eq!(Metric::from_str("CoSiNe"), Ok(Metric::Cosine));
    assert_eq!(Metric::from_str("ip"), Ok(Metric::Ip));
    assert_eq!(Metric::from_str("l3"), Err(ParseMetricError));
    assert_eq!(ParseMetricError.message(), "invalid metric");
    assert_eq!(
        Metric::from_lowercase(&"L2".to_string()),
        Err(ParseMetricError)
    );
    assert_eq!(
        Metric::from_lowercase(&"cosine".to_string()),
        Ok(Metric::Cosine)
    );
}

#[test]
fn errors_have_their_text() {
    assert_eq!(
        AnnError::log_index_error("gone".to_string()).message(),
        "IndexError: gone"
    );
    assert_eq!(
        AnnError::log_index_config_error("dim".to_string(), "too small".to_string()).message(),
        "IndexConfigError: dim is invalid, err=too small"
    );
    assert_eq!(
        AnnError::log_lock_poison_error("x".to_string()).message(),
        "LockPoisonError: x"
    );
    assert_eq!(
        AnnError::log_disk_io_alignment_error("x".to_string()).message(),
        "DiskIOAlignmentError: x"
    );
    assert_eq!(
        AnnError::log_io_queue_error("x".to_string()).message(),
        "IOQueueError: x"
    );
    let io = std::io::Error::new(std::io::ErrorKind::Other, "disk full");
    assert_eq!(AnnError::log_io_error(io).message(), "IOError: disk full");
    assert_eq!(index_error("x".to_string()).message(), "IndexError: x");
}

#[test]
fn errors_come_from_those_of_the_standard_library() {
    let number = u8::try_from(300u32).unwrap_err();
    assert!(matches!(
        AnnError::from(number),
        AnnError::TryFromInt { .. }
    ));
    let io = std::io::Error::new(std::io::ErrorKind::Other, "x");
    assert!(matches!(AnnError::from(io), AnnError::Io { .. }));
    let layout = std::alloc::Layout::from_size_align(1, 3).unwrap_err();
    assert!(matches!(
        AnnError::from(layout),
        AnnError::MemoryAllocLayout { .. }
    ));
    let bytes: [u8; 3] = [1, 2, 3];
    let slice = <[u8; 4]>::try_from(&bytes[..]).unwrap_err();
    assert!(matches!(
        AnnError::from(slice),
        AnnError::TryFromSlice { .. }
    ));
    assert!(AnnError::from(slice)
        .message()
        .starts_with("Error try creating array from slice: "));
}

#[test]
fn alignment_is_a_power_of_two_from_a_page_on() {
    assert!(!DirectIoConfig::disabled().enabled);
    assert_eq!(DirectIoConfig::disabled().effective_alignment(), 4096);
    assert_eq!(DirectIoConfig::enabled_with_alignment(1).alignment, 4096);
    assert_eq!(DirectIoConfig::enabled_with_alignment(5000).alignment, 8192);
    let odd = DirectIoConfig {
        enabled: true,
        alignment: 4097,
    };
    assert_eq!(odd.effective_alignment(), 8192);
    assert_eq!(next_power_of_two(0), 1);
    assert_eq!(round_up(4097, 4096), 8192);
    assert_eq!(round_up(4096, 4096), 4096);
}

/// A file that is read and written in whole blocks.
struct BlockFile {
    bytes: Vec<u8>,
    alignment: usize,
}

impl BlockFile {
    fn read_span(&self, span: &AlignedSpan) -> Vec<u8> {
        let mut block = vec![0u8; span.len];
        let mut transfer = Transfer::start(span.offset, span.len);
        while let Some(at) = transfer.next_offset() {
            let from = (at as usize).min(self.bytes.len());
            let count = (self.bytes.len() - from)
                .min(span.len - transfer.moved)
                .min(1000);
            let moved = transfer.moved;
            block[moved..moved + count].copy_from_slice(&self.bytes[from..from + count]);
            if transfer.advance_span_read(count).is_some() {
                break;
            }
        }
        block
    }

    fn write_all_at(&mut self, payload: &[u8], offset: u64) {
        let span = AlignedSpan::around(offset, payload.len(), self.alignment);
        let mut block = if span.needs_prefill(payload.len()) {
            self.read_span(&span)
        } else {
            vec![0u8; span.len]
        };
        span.splice(&mut block, payload);
        let end = span.offset as usize + span.len;
        if self.bytes.len() < end {
            self.bytes.resize(end, 0);
        }
        self.bytes[span.offset as usize..end].copy_from_slice(&block);
    }

    fn read_exact_at(&self, len: usize, offset: u64) -> Vec<u8> {
        let span = AlignedSpan::around(offset, len, self.alignment);
        span.extract(&self.read_span(&span), len)
    }
}

#[test]
fn direct_io_file_round_trips_unaligned_subrange_without_mmap() {
    let cfg = DirectIoConfig::enabled_with_alignment(4096);
    let mut file = BlockFile {
        bytes: Vec::new(),
        alignment: cfg.effective_alignment(),
    };

    let payload: Vec<u8> = (0..6000).map(|i| (i % 251) as u8).collect();
    file.write_all_at(&payload, 8);

    let out = file.read_exact_at(payload.len(), 8);
    assert_eq!(out, payload);
}

#[test]
fn direct_write_leaves_the_bytes_around_it() {
    let mut file = BlockFile {
        bytes: (0..9000).map(|i| (i % 7) as u8).collect(),
        alignment: 4096,
    };
    let before = file.bytes.clone();
    file.write_all_at(&[99; 10], 4090);
    assert_eq!(&file.bytes[..4090], &before[..4090]);
    assert_eq!(&file.bytes[4090..4100], &[99; 10]);
    assert_eq!(&file.bytes[4100..9000], &before[4100..]);
}

#[test]
fn transfers_end_in_an_error_where_nothing_moves() {
    let mut read = Transfer::start(8, 10);
    assert!(read.advance_read(4, "blob.bin").is_ok());
    assert_eq!(read.next_offset(), Some(12));
    assert_eq!(
        read.advance_read(0, "blob.bin").unwrap_err().message(),
        "IndexError: Unexpected EOF while reading blob.bin at offset 12"
    );
    let mut write = Transfer::start(8, 10);
    assert_eq!(
        write.advance_write(0, "blob.bin").unwrap_err().message(),
        "IndexError: Short write while writing blob.bin at offset 8"
    );
    assert!(write.advance_write(10, "blob.bin").is_ok());
    assert_eq!(write.next_offset(), None);
}
