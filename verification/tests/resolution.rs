//! End-to-end checks of input resolution: classification, list assembly,
//! and iteration over the aggregated sources.

use std::io::Write;

use fastx_input::resolve::{assemble, classify, Classified, ResolveError};
use fastx_input::source::{Paths, Readers, RecordSource};

/// A stand-in for the record-parsing collaborator: splits a payload into
/// line groups (four lines per FASTQ record, two per FASTA record) and
/// hands them out one at a time.
struct ChunkSource {
    records: Vec<Vec<u8>>,
    at: usize,
}

impl RecordSource for ChunkSource {
    type Record = Vec<u8>;

    fn next_record(&mut self) -> Option<Vec<u8>> {
        if self.at < self.records.len() {
            let r = self.records[self.at].clone();
            self.at += 1;
            Some(r)
        } else {
            None
        }
    }
}

fn chunk_records(payload: &[u8]) -> ChunkSource {
    let per = if payload.first() == Some(&b'@') { 4 } else { 2 };
    let lines: Vec<&[u8]> = payload.split(|b| *b == b'\n').filter(|l| !l.is_empty()).collect();
    let mut records = Vec::new();
    for group in lines.chunks(per) {
        records.push(group.concat());
    }
    ChunkSource { records, at: 0 }
}

fn gzip_bytes(data: &[u8]) -> Vec<u8> {
    let mut enc = flate2::write::GzEncoder::new(Vec::new(), flate2::Compression::default());
    enc.write_all(data).unwrap();
    enc.finish().unwrap()
}

fn drain(paths: &mut Paths<ChunkSource>) -> Vec<Vec<u8>> {
    let mut out = Vec::new();
    while let Some(r) = paths.iter_record() {
        out.push(r);
    }
    out
}

#[test]
fn classify_plain_fasta_keeps_all_bytes() {
    let content = b">seq1\nACGT\n".to_vec();
    assert_eq!(classify(content), Ok(Classified::Sequence(b">seq1\nACGT\n".to_vec())));
}

#[test]
fn classify_plain_fastq_keeps_all_bytes() {
    let content = b"@r1\nAC\n+\nII\n".to_vec();
    assert_eq!(classify(content), Ok(Classified::Sequence(b"@r1\nAC\n+\nII\n".to_vec())));
}

#[test]
fn classify_gzip_matches_uncompressed() {
    let plain = b">seq1\nACGT\n".to_vec();
    let compressed = classify(gzip_bytes(&plain));
    let uncompressed = classify(plain.clone());
    assert_eq!(compressed, uncompressed);
    assert_eq!(compressed, Ok(Classified::Sequence(plain)));
}

#[test]
fn classify_short_input_fails() {
    assert_eq!(classify(b">a".to_vec()), Err(ResolveError::ShortLookahead));
    assert_eq!(classify(Vec::new()), Err(ResolveError::ShortLookahead));
}

#[test]
fn classify_short_decompressed_payload_fails() {
    assert_eq!(classify(gzip_bytes(b">a")), Err(ResolveError::ShortLookahead));
}

#[test]
fn classify_bad_gzip_fails() {
    assert_eq!(classify(vec![0x1f, 0x8b, 0x00, 0x00]), Err(ResolveError::GzipDecode));
}

#[test]
fn classify_list_trims_and_skips_lines() {
    let content = b"x.fq\n# note\n\n  y.fq  \n\t\n".to_vec();
    assert_eq!(
        classify(content),
        Ok(Classified::List(vec![b"x.fq".to_vec(), b"y.fq".to_vec()]))
    );
}

#[test]
fn classify_list_with_invalid_text_fails() {
    let content = b"a.fq\n\xffbad\n".to_vec();
    assert_eq!(classify(content), Err(ResolveError::InvalidText));
}

#[test]
fn classify_list_of_comments_only_is_empty() {
    let content = b"# first\n\n   \n# second\n".to_vec();
    assert_eq!(classify(content), Ok(Classified::List(Vec::new())));
}

#[test]
fn assemble_preserves_entry_order() {
    let first = b">a\nAA\n".to_vec();
    let second = b"@b\nCC\n+\nII\n".to_vec();
    let assembled = assemble(vec![Some(first.clone()), Some(second.clone())]);
    assert_eq!(assembled, Ok(vec![first, second]));
}

#[test]
fn assemble_missing_path_rejects_whole_list() {
    let good = b">a\nAA\n".to_vec();
    let assembled = assemble(vec![Some(good.clone()), None, Some(good)]);
    assert_eq!(assembled, Err(ResolveError::MissingPath));
}

#[test]
fn assemble_rejects_nested_list() {
    let listed_list = b"inner.fq\n".to_vec();
    assert_eq!(assemble(vec![Some(listed_list)]), Err(ResolveError::NestedList));
}

#[test]
fn assemble_propagates_short_listed_file() {
    assert_eq!(assemble(vec![Some(b">a".to_vec())]), Err(ResolveError::ShortLookahead));
}

#[test]
fn assemble_decompresses_listed_gzip() {
    let plain = b">z\nGG\n".to_vec();
    let assembled = assemble(vec![Some(gzip_bytes(&plain))]);
    assert_eq!(assembled, Ok(vec![plain]));
}

#[test]
fn empty_list_gives_empty_aggregate() {
    let classified = classify(b"# nothing listed\n\n".to_vec());
    assert_eq!(classified, Ok(Classified::List(Vec::new())));
    assert_eq!(assemble(Vec::new()), Ok(Vec::new()));
    let mut paths: Paths<ChunkSource> = Paths::Readers(Readers::new());
    assert!(paths.iter_record().is_none());
}

#[test]
fn list_of_two_files_yields_five_records_in_order() {
    let a = b"@a1\nAA\n+\nII\n@a2\nCC\n+\nII\n@a3\nGG\n+\nII\n".to_vec();
    let b_plain = b"@b1\nTT\n+\nII\n@b2\nAA\n+\nII\n".to_vec();
    let list = b"a.fastq\n# comment\n\nb.fastq.gz".to_vec();

    let entries = match classify(list) {
        Ok(Classified::List(entries)) => entries,
        other => panic!("expected a list file, got {:?}", other),
    };
    assert_eq!(entries, vec![b"a.fastq".to_vec(), b"b.fastq.gz".to_vec()]);

    // both listed paths exist; the second is gzip-compressed
    let payloads = assemble(vec![Some(a.clone()), Some(gzip_bytes(&b_plain))]).unwrap();
    assert_eq!(payloads, vec![a, b_plain]);

    let mut aggregate = Readers::new();
    for p in &payloads {
        aggregate.readers.push(chunk_records(p));
    }
    let mut paths = Paths::Readers(aggregate);
    let records = drain(&mut paths);
    assert_eq!(records.len(), 5);
    assert_eq!(
        records,
        vec![
            b"@a1AA+II".to_vec(),
            b"@a2CC+II".to_vec(),
            b"@a3GG+II".to_vec(),
            b"@b1TT+II".to_vec(),
            b"@b2AA+II".to_vec(),
        ]
    );
    assert!(paths.iter_record().is_none());
}

#[test]
fn piped_gzip_fasta_resolves_to_single_source() {
    // bytes as they would arrive on standard input, no filename to go by
    let piped = gzip_bytes(b">seq1\nACGT\n>seq2\nTTTT\n");
    let payload = match classify(piped) {
        Ok(Classified::Sequence(p)) => p,
        other => panic!("expected sequence content, got {:?}", other),
    };
    let mut paths = Paths::Reader(chunk_records(&payload));
    let records = drain(&mut paths);
    assert_eq!(records, vec![b">seq1ACGT".to_vec(), b">seq2TTTT".to_vec()]);
}

#[test]
fn aggregate_skips_exhausted_sources() {
    let mut aggregate = Readers::new();
    aggregate.readers.push(ChunkSource { records: Vec::new(), at: 0 });
    aggregate.readers.push(chunk_records(b">only\nAC\n"));
    assert_eq!(aggregate.iter_record(), Some(b">onlyAC".to_vec()));
    assert_eq!(aggregate.cursor, 1);
    assert!(aggregate.iter_record().is_none());
    assert_eq!(aggregate.cursor, 2);
}

#[test]
fn error_messages_name_the_rejection() {
    assert_eq!(ResolveError::ShortLookahead.message(), "input shorter than the lookahead");
    assert_eq!(ResolveError::GzipDecode.message(), "invalid gzip stream");
    assert_eq!(ResolveError::InvalidText.message(), "list line is not valid text");
    assert_eq!(ResolveError::MissingPath.message(), "list line names no existing path");
    assert_eq!(ResolveError::NestedList.message(), "a list file may not name a list file");
}

#[test]
fn trim_strips_surrounding_whitespace_only() {
    assert_eq!(fastx_input::text::trim(&b"  a b \t\r".to_vec()), b"a b".to_vec());
    assert_eq!(fastx_input::text::trim(&b"ab".to_vec()), b"ab".to_vec());
    assert_eq!(fastx_input::text::trim(&b" \t ".to_vec()), Vec::<u8>::new());
}

#[test]
fn split_lines_matches_line_reading() {
    let split = |s: &[u8]| fastx_input::text::split_lines(&s.to_vec());
    assert_eq!(split(b"a\nb\n"), vec![b"a".to_vec(), b"b".to_vec()]);
    assert_eq!(split(b"a\n\nb"), vec![b"a".to_vec(), Vec::new(), b"b".to_vec()]);
    assert_eq!(split(b""), Vec::<Vec<u8>>::new());
    assert_eq!(split(b"\n"), vec![Vec::<u8>::new()]);
}

#[test]
fn classify_list_with_carriage_returns() {
    let content = b"x.fq\r\ny.fq\r\n".to_vec();
    assert_eq!(
        classify(content),
        Ok(Classified::List(vec![b"x.fq".to_vec(), b"y.fq".to_vec()]))
    );
}

#[test]
fn doubly_compressed_input_is_unwrapped_once() {
    let plain = b">seq1\nACGT\n".to_vec();
    let double = gzip_bytes(&gzip_bytes(&plain));
    // one unwrap only: the inner gzip bytes face classification raw and
    // cannot pass as sequence-record content
    assert!(!matches!(classify(double.clone()), Ok(Classified::Sequence(_))));
    assert_ne!(classify(double), classify(plain));
}
