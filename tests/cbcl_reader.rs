use illuvatar::cbcl::BclTile;
use illuvatar::error::{BclError, ParseKind, ParseStage};
use illuvatar::filter::filter_reads;
use illuvatar::reader::{CBclReader, CbclReaderState};
use libdeflater::{CompressionLvl, Compressor};

fn gzip(data: &[u8]) -> Vec<u8> {
    let mut c = Compressor::new(CompressionLvl::default());
    let mut out = vec![0u8; c.gzip_compress_bound(data.len())];
    let n = c.gzip_compress(data, &mut out).unwrap();
    out.truncate(n);
    out
}

fn put_u32(v: &mut Vec<u8>, x: u32) {
    v.extend_from_slice(&x.to_le_bytes());
}

/// A CBCL file: header, then the given blocks. `rows` are
/// `(tile_number, n_clusters, uncompressed_size, compressed_size)`.
fn cbcl_file(bins: &[(u32, u32)], rows: &[(u32, u32, u32, u32)], pf: u8, blocks: &[Vec<u8>]) -> Vec<u8> {
    let mut rest = vec![2u8, 2u8];
    put_u32(&mut rest, bins.len() as u32);
    for (a, b) in bins {
        put_u32(&mut rest, *a);
        put_u32(&mut rest, *b);
    }
    put_u32(&mut rest, rows.len() as u32);
    for (a, b, c, d) in rows {
        put_u32(&mut rest, *a);
        put_u32(&mut rest, *b);
        put_u32(&mut rest, *c);
        put_u32(&mut rest, *d);
    }
    rest.push(pf);
    let mut file = Vec::new();
    file.extend_from_slice(&1u16.to_le_bytes());
    put_u32(&mut file, 6 + rest.len() as u32);
    file.extend_from_slice(&rest);
    for b in blocks {
        file.extend_from_slice(b);
    }
    file
}

/// Feeds the reader what it asks for, as a file would, until it is complete.
fn read_all(reader: &mut CBclReader, file: &[u8]) -> Vec<Result<BclTile, BclError>> {
    let mut pos = 0usize;
    let mut out = Vec::new();
    while let Some(n) = reader.wanted() {
        let end = usize::min(pos + n as usize, file.len());
        let chunk = &file[pos..end];
        pos = end;
        if let Some(r) = reader.feed(chunk) {
            out.push(r);
        }
    }
    out
}

fn one_tile_file(bins: &[(u32, u32)], pf: u8, payload: &[u8]) -> Vec<u8> {
    let block = gzip(payload);
    let un = payload.len() as u32;
    cbcl_file(bins, &[(1101, 2 * un, un, block.len() as u32)], pf, &[block])
}

#[test]
fn minimal_binned_cbcl() {
    let bins = [(0, 0), (1, 14), (2, 25), (3, 37)];
    let file = one_tile_file(&bins, 1, &[0x1B, 0xE4]);
    let mut reader = CBclReader::new();
    let out = read_all(&mut reader, &file);
    assert_eq!(out.len(), 1);
    let tile = out[0].as_ref().unwrap();
    // nibbles B, 1, 4, E: base ACGT[n & 3], quality bins[n >> 2], bins[0] forced to 2
    assert_eq!(tile.get_bases(), b"TCAG");
    assert_eq!(tile.get_quals(), &[25, 2, 14, 37]);
    assert!(matches!(reader.state(), CbclReaderState::Complete));
    assert!(reader.feed(&[]).is_none());
}

#[test]
fn unbinned_cbcl() {
    let file = one_tile_file(&[], 1, &[0x05, 0xB0]);
    let mut reader = CBclReader::new();
    let out = read_all(&mut reader, &file);
    assert_eq!(out.len(), 1);
    let tile = out[0].as_ref().unwrap();
    assert_eq!(tile.get_bases(), b"CNNT");
    assert_eq!(tile.get_quals(), &[2, 2, 2, 2]);
}

#[test]
fn filter_applied() {
    let mut tile = BclTile::from_parts(b"ACGT".to_vec(), vec![10, 11, 12, 13]);
    filter_reads(&mut tile, &[1, 0, 1, 1]).unwrap();
    assert_eq!(tile.get_bases(), b"AGT");
    assert_eq!(tile.get_quals(), &[10, 12, 13]);
}

#[test]
fn filter_applied_by_reader() {
    // payload 0x10, 0x32: clusters 0,1,2,3 -> N, C, G, T
    let file = one_tile_file(&[], 0, &[0x10, 0x32]);
    let mut reader = CBclReader::new();
    reader.add_filter(1101, vec![1, 0, 1, 1]);
    let out = read_all(&mut reader, &file);
    let tile = out[0].as_ref().unwrap();
    assert_eq!(tile.get_bases(), b"NGT");
    assert_eq!(tile.get_quals(), &[2, 2, 2]);
}

#[test]
fn missing_filter_is_config_error() {
    let file = one_tile_file(&[], 0, &[0x10, 0x32]);
    let mut reader = CBclReader::new();
    let out = read_all(&mut reader, &file);
    assert_eq!(out.len(), 1);
    assert_eq!(*out[0].as_ref().unwrap_err(), BclError::ConfigError);
}

#[test]
fn filter_size_mismatch() {
    let mut tile = BclTile::from_parts(b"ACGT".to_vec(), vec![10, 11, 12, 13]);
    assert_eq!(filter_reads(&mut tile, &[1, 0, 1]), Err(BclError::FilterSizeMismatch));
    assert_eq!(tile.get_bases(), b"ACGT");
}

#[test]
fn truncated_compressed_block() {
    let block = vec![0u8; 80];
    let file = cbcl_file(&[], &[(1101, 4, 2, 100)], 1, &[block]);
    let mut reader = CBclReader::new();
    let out = read_all(&mut reader, &file);
    assert_eq!(out.len(), 1);
    assert_eq!(
        *out[0].as_ref().unwrap_err(),
        BclError::CompSizeMismatch { expected: 100, got: 80 }
    );
    assert!(matches!(reader.state(), CbclReaderState::Complete));
    assert_eq!(reader.wanted(), None);
    assert!(reader.feed(&[1, 2, 3]).is_none());
}

#[test]
fn decompress_size_mismatch() {
    let block = gzip(&[0x12]);
    let file = cbcl_file(&[], &[(1101, 4, 2, block.len() as u32)], 1, &[block]);
    let mut reader = CBclReader::new();
    let out = read_all(&mut reader, &file);
    assert_eq!(out.len(), 1);
    assert_eq!(*out[0].as_ref().unwrap_err(), BclError::DecompSizeMismatch);
}

#[test]
fn corrupt_block_is_decompress_error() {
    let block = vec![7u8; 20];
    let file = cbcl_file(&[], &[(1101, 4, 2, 20)], 1, &[block]);
    let mut reader = CBclReader::new();
    let out = read_all(&mut reader, &file);
    assert_eq!(*out[0].as_ref().unwrap_err(), BclError::DecompressError);
}

#[test]
fn short_file_is_eof() {
    let mut reader = CBclReader::new();
    let out = read_all(&mut reader, &[1, 0, 30]);
    assert_eq!(out.len(), 1);
    assert_eq!(*out[0].as_ref().unwrap_err(), BclError::EofError);
    let file = one_tile_file(&[], 1, &[0x12]);
    let mut reader = CBclReader::new();
    let out = read_all(&mut reader, &file[..10]);
    assert_eq!(*out[0].as_ref().unwrap_err(), BclError::EofError);
}

#[test]
fn bad_header_size() {
    let mut reader = CBclReader::new();
    let out = read_all(&mut reader, &[1, 0, 3, 0, 0, 0]);
    assert_eq!(
        *out[0].as_ref().unwrap_err(),
        BclError::ParseError { stage: ParseStage::Preheader, kind: ParseKind::BadRecord }
    );
}

#[test]
fn tiles_in_file_order_and_sizes() {
    let a = [0x21u8, 0x43, 0x65];
    let b = [0xFFu8];
    let ga = gzip(&a);
    let gb = gzip(&b);
    let rows = [(1101, 6, 3, ga.len() as u32), (1102, 2, 1, gb.len() as u32)];
    let file = cbcl_file(&[], &rows, 1, &[ga, gb]);
    let mut reader = CBclReader::new();
    let out = read_all(&mut reader, &file);
    assert_eq!(out.len(), 2);
    let t0 = out[0].as_ref().unwrap();
    let t1 = out[1].as_ref().unwrap();
    assert_eq!(t0.get_bases(), b"CGTACG");
    assert_eq!(t0.get_bases().len() + t1.get_bases().len(), 2 * (3 + 1));
    assert_eq!(t0.get_quals().len(), t0.get_bases().len());
    assert_eq!(t1.get_bases(), b"TT");
    assert_eq!(t1.get_quals(), &[3, 3]);
}

#[test]
fn reset_reads_like_new_reader() {
    let first = one_tile_file(&[(0, 0), (1, 14), (2, 25), (3, 37)], 1, &[0x1B, 0xE4]);
    let second = one_tile_file(&[], 1, &[0x05, 0xB0, 0x77]);
    let mut reused = CBclReader::new();
    read_all(&mut reused, &first);
    reused.reset_with(false);
    let again = read_all(&mut reused, &second);
    let mut fresh = CBclReader::new();
    let once = read_all(&mut fresh, &second);
    assert_eq!(again.len(), once.len());
    for (x, y) in again.iter().zip(once.iter()) {
        let (x, y) = (x.as_ref().unwrap(), y.as_ref().unwrap());
        assert_eq!(x.get_bases(), y.get_bases());
        assert_eq!(x.get_quals(), y.get_quals());
    }
}

#[test]
fn round_trip_cluster_matrix() {
    // clusters given as nibble codes: base ACGT[c & 3] (N for 0), quality bin c >> 2
    let codes: Vec<u8> = vec![0x1, 0x6, 0xB, 0xC, 0x3, 0x9, 0xE, 0x4];
    let packed: Vec<u8> = codes.chunks(2).map(|p| p[0] | (p[1] << 4)).collect();
    let bins = [(0, 0), (1, 11), (2, 22), (3, 33)];
    let block = gzip(&packed);
    let rows = [(2101, 8, packed.len() as u32, block.len() as u32)];
    let file = cbcl_file(&bins, &rows, 0, &[block]);
    let filter = vec![1, 1, 0, 1, 0, 1, 1, 0];
    let mut reader = CBclReader::new();
    reader.add_filter(2101, filter.clone());
    let out = read_all(&mut reader, &file);
    assert_eq!(out.len(), 1);
    let tile = out[0].as_ref().unwrap();
    let table = [2u8, 11, 22, 33];
    let mut bases = Vec::new();
    let mut quals = Vec::new();
    for (c, f) in codes.iter().zip(filter.iter()) {
        if *f == 1 {
            bases.push(if *c == 0 { b'N' } else { b"ACGT"[(*c & 3) as usize] });
            quals.push(table[(*c >> 2) as usize]);
        }
    }
    assert_eq!(tile.get_bases(), &bases[..]);
    assert_eq!(tile.get_quals(), &quals[..]);
    assert_eq!(tile.get_bases(), b"CGACG");
    assert_eq!(tile.get_quals(), &[2, 11, 33, 22, 33]);
}

#[test]
fn every_nibble_decodes_to_a_call() {
    let payload: Vec<u8> = (0u8..8).map(|k| (2 * k) | ((2 * k + 1) << 4)).collect();
    for bins in [&[][..], &[(0, 0), (1, 7), (2, 20), (3, 40)][..]] {
        let file = one_tile_file(bins, 1, &payload);
        let mut reader = CBclReader::new();
        let out = read_all(&mut reader, &file);
        let tile = out[0].as_ref().unwrap();
        assert_eq!(tile.get_bases().len(), 16);
        assert_eq!(tile.get_quals().len(), 16);
        assert!(tile.get_bases().iter().all(|b| b"ACGTN".contains(b)));
        assert!(tile.get_quals().iter().all(|q| *q >= 2));
    }
}

#[test]
fn empty_file_and_no_tiles() {
    let file = cbcl_file(&[], &[], 1, &[]);
    let mut reader = CBclReader::new();
    assert!(read_all(&mut reader, &file).is_empty());
    assert!(matches!(reader.state(), CbclReaderState::Complete));
    let mut reader = CBclReader::new();
    let out = read_all(&mut reader, &[]);
    assert_eq!(*out[0].as_ref().unwrap_err(), BclError::EofError);
}

#[test]
fn io_failure_stops_reader() {
    let mut reader = CBclReader::new();
    assert_eq!(reader.fail_io(), BclError::IoError);
    assert_eq!(reader.wanted(), None);
    reader.reset_with(true);
    assert_eq!(reader.wanted(), Some(6));
}

#[test]
fn shrinking_buffers_keeps_reading() {
    let first = one_tile_file(&[], 1, &[0x12; 64]);
    let second = one_tile_file(&[], 1, &[0x34, 0x21]);
    let mut reader = CBclReader::with_capacity(16);
    assert_eq!(read_all(&mut reader, &first)[0].as_ref().unwrap().get_bases().len(), 128);
    reader.shrink_buffer(0);
    reader.shrink_decomp_buff(0);
    reader.reset_with(true);
    let out = read_all(&mut reader, &second);
    assert_eq!(out[0].as_ref().unwrap().get_bases(), b"ATCG");
}
