use illuvatar::cbcl::{
    bin_base_calls, decode_tile_payload, expand_nibbles, into_bin_lookup, parse_preheader,
    parse_rest_of_header, parse_tile_row, read_u16_le, read_u32_le, BclTile,
};
use illuvatar::error::{BclError, ParseKind, ParseStage};
use illuvatar::filter::{FilterCache, FilterFileReader};
use illuvatar::lookup::{base_call, calculate_base_lookup, calculate_qual_lookup, qual_call};
use illuvatar::pipeline::{begin_file, destination_for, push_decimal, resolve_tile, DemuxUnit};
use illuvatar::samplesheet::OverrideCycle;
use illuvatar::reader::{CBclReader, TileData};
use illuvatar::seqdir::{filter_tile_number, Bcl};

#[test]
fn base_table() {
    let t = calculate_base_lookup();
    assert_eq!(t[0], b'N');
    for i in 1..=254usize {
        assert_eq!(t[i], b"ACGT"[i & 3]);
        assert_eq!(base_call(i as u8), t[i]);
    }
    assert_eq!(t[1], b'C');
    assert_eq!(t[4], b'A');
    assert_eq!(t[11], b'T');
}

#[test]
fn qual_table() {
    let t = calculate_qual_lookup();
    assert_eq!(t[0], 2);
    for i in 1..=254usize {
        assert_eq!(t[i], std::cmp::max(2, (i >> 2) as u8));
        assert_eq!(qual_call(i as u8), t[i]);
    }
    assert_eq!(t[5], 2);
    assert_eq!(t[12], 3);
    assert_eq!(t[200], 50);
}

#[test]
fn little_endian_fields() {
    let b = [0x34, 0x12, 0x78, 0x56, 0x34, 0x12];
    assert_eq!(read_u16_le(&b, 0), 0x1234);
    assert_eq!(read_u32_le(&b, 2), 0x12345678);
    assert_eq!(parse_preheader(&b), Ok((0x1234, 0x12345678)));
    assert_eq!(
        parse_preheader(&b[..5]),
        Err(BclError::ParseError { stage: ParseStage::Preheader, kind: ParseKind::Truncated })
    );
}

#[test]
fn tile_rows() {
    let mut b = Vec::new();
    for x in [1101u32, 8, 4, 30] {
        b.extend_from_slice(&x.to_le_bytes());
    }
    assert_eq!(parse_tile_row(&b, 0), Ok((1101, 8, 4, 30)));
    assert_eq!(
        parse_tile_row(&b, 1),
        Err(BclError::ParseError { stage: ParseStage::TileRow, kind: ParseKind::Truncated })
    );
}

#[test]
fn rest_of_header() {
    let mut b = vec![2u8, 2u8];
    b.extend_from_slice(&2u32.to_le_bytes());
    for x in [0u32, 7, 1, 300] {
        b.extend_from_slice(&x.to_le_bytes());
    }
    b.extend_from_slice(&1u32.to_le_bytes());
    for x in [1101u32, 8, 4, 30] {
        b.extend_from_slice(&x.to_le_bytes());
    }
    b.push(1);
    let h = parse_rest_of_header(&b).unwrap();
    assert_eq!((h.bits_per_bc, h.bits_per_qs, h.n_bins, h.n_tiles), (2, 2, 2, 1));
    assert_eq!(h.bin_pairs, Some(vec![(0, 7), (1, 300)]));
    assert_eq!(h.tile_rows, vec![(1101, 8, 4, 30)]);
    assert_eq!(h.non_pf_excluded, 1);
    // the first bin is always the minimum quality; the rest are truncated to a byte
    assert_eq!(into_bin_lookup(h.bin_pairs), vec![2, 44]);
    assert_eq!(
        parse_rest_of_header(&b[..b.len() - 1]).unwrap_err(),
        BclError::ParseError { stage: ParseStage::Header, kind: ParseKind::Truncated }
    );
    let mut unbinned = vec![2u8, 2u8];
    unbinned.extend_from_slice(&0u32.to_le_bytes());
    unbinned.extend_from_slice(&0u32.to_le_bytes());
    unbinned.push(0);
    let h = parse_rest_of_header(&unbinned).unwrap();
    assert_eq!(h.bin_pairs, None);
    assert!(h.tile_rows.is_empty());
    assert!(into_bin_lookup(None).is_empty());
}

#[test]
fn bin_table_first_entry() {
    assert_eq!(into_bin_lookup(Some(vec![(0, 0), (1, 14), (2, 25), (3, 37)])), vec![2, 14, 25, 37]);
    assert_eq!(into_bin_lookup(Some(vec![(9, 40)])), vec![2]);
}

#[test]
fn binning_calls() {
    let mut calls = [0u8, 5, 15, 8];
    let mut bins = [2u8, 14, 25, 37];
    bin_base_calls(&mut calls, &mut bins);
    assert_eq!(calls, [2, 14, 37, 25]);
    assert_eq!(bins, [2, 14, 25, 37]);
}

#[test]
fn payload_decoding() {
    let t = decode_tile_payload(&[0, 1, 2, 3, 11], &[]).unwrap();
    assert_eq!(t.get_bases(), b"NCGTT");
    assert_eq!(t.get_quals(), &[2, 2, 2, 2, 2]);
    let t = decode_tile_payload(&[0xB, 0x1, 0x4, 0xE], &[2, 14, 25, 37]).unwrap();
    assert_eq!(t.get_bases(), b"TCAG");
    assert_eq!(t.get_quals(), &[25, 2, 14, 37]);
    assert_eq!(
        decode_tile_payload(&[0xF], &[2, 14]).unwrap_err(),
        BclError::ParseError { stage: ParseStage::Payload, kind: ParseKind::BadRecord }
    );
}

#[test]
fn nibble_order() {
    let mut out = vec![9u8];
    expand_nibbles(&[0x1B, 0xE4], &mut out);
    assert_eq!(out, vec![9, 0xB, 0x1, 0x4, 0xE]);
}

#[test]
fn tile_accessors() {
    let mut t = BclTile::with_capacity(3);
    assert_eq!(t.get_bases(), &[0, 0, 0]);
    t.bases_mut()[1] = b'A';
    t.quals_mut()[2] = 30;
    assert_eq!(t.get_bases(), &[0, b'A', 0]);
    assert_eq!(t.get_quals(), &[0, 0, 30]);
}

fn filter_file(n: u32, payload: &[u8]) -> Vec<u8> {
    let mut v = vec![0u8; 4];
    v.extend_from_slice(&3u32.to_le_bytes());
    v.extend_from_slice(&n.to_le_bytes());
    v.extend_from_slice(payload);
    v
}

#[test]
fn filter_files() {
    let mut r = FilterFileReader::from_bytes(filter_file(4, &[1, 0, 1, 1]));
    assert_eq!(r.read_filter(), Ok(vec![1, 0, 1, 1]));
    let mut r = FilterFileReader::from_bytes(filter_file(5, &[1, 0, 1, 1]));
    assert_eq!(r.read_filter(), Err(BclError::FilterSizeMismatch));
    let mut r = FilterFileReader::from_bytes(vec![0u8; 11]);
    assert_eq!(r.read_filter(), Err(BclError::EofError));
    let mut r = FilterFileReader::from_bytes(filter_file(0, &[]));
    assert_eq!(r.read_filter(), Ok(vec![]));
}

#[test]
fn filter_cache() {
    let mut c = FilterCache::new();
    assert!(!c.contains(1101));
    c.insert(1101, vec![1, 0]);
    c.insert(1101, vec![1, 1]);
    assert!(c.contains(1101));
    assert_eq!(c.get(1101), Some(&vec![1, 1]));
    assert_eq!(c.get(1102), None);
    let data = TileData {
        tile_num: 1101,
        num_clusters: 2,
        block_size_un: 1,
        block_size_comp: 20,
        pf_excluded: false,
        filter: true,
    };
    assert!(data.has_filter());
    assert_eq!(data.get_or_read_filter(&c), Some(&vec![1, 1]));
    let without = TileData { filter: false, ..data };
    assert_eq!(without.get_or_read_filter(&c), None);
}

#[test]
fn filter_tile_numbers() {
    assert_eq!(filter_tile_number("L001/s_1_1101.filter"), Some(1101));
    assert_eq!(filter_tile_number("s_1_2214.filter"), Some(2214));
    assert_eq!(filter_tile_number("L001/s_1_1101.cbcl"), None);
    assert_eq!(filter_tile_number("L001/s_1_x.filter"), None);
}

#[test]
fn legacy_bcl_is_refused() {
    let mut reader = CBclReader::new();
    assert_eq!(
        begin_file(&mut reader, &Bcl::Bcl("a/s_1.bcl".to_string())),
        Err(BclError::UnsupportedFormat)
    );
    assert_eq!(begin_file(&mut reader, &Bcl::CBcl("a/s_1.cbcl".to_string())), Ok(()));
    assert_eq!(reader.wanted(), Some(6));
}

#[test]
fn one_record_per_cluster() {
    let unit = DemuxUnit {
        tile_data: TileData {
            tile_num: 1101,
            num_clusters: 3,
            block_size_un: 2,
            block_size_comp: 20,
            pf_excluded: true,
            filter: false,
        },
        tile: BclTile::from_parts(b"ACG".to_vec(), vec![30, 31, 32]),
        cycle: 5,
        lane: 1,
    };
    let records = resolve_tile(&unit, "S1_R1");
    assert_eq!(records.len(), 3);
    assert_eq!(records[2].destination, "S1_R1");
    assert_eq!(records[2].id, "L1:1101:2");
    assert_eq!(records[2].reads, b"G".to_vec());
    assert_eq!(records[2].quals, vec![32]);
}

#[test]
fn decimal_text() {
    let mut s = "n=".to_string();
    push_decimal(&mut s, 1234509);
    assert_eq!(s, "n=1234509");
    let mut z = String::new();
    push_decimal(&mut z, 0);
    assert_eq!(z, "0");
}

#[test]
fn destinations() {
    assert_eq!(
        destination_for("S1", 2, false, Some((0, OverrideCycle::Y(151)))),
        Some("S1_L002_R1".to_string())
    );
    assert_eq!(
        destination_for("S1", 2, true, Some((1, OverrideCycle::I(8)))),
        Some("S1_I2".to_string())
    );
    assert_eq!(destination_for("S1", 2, false, Some((2, OverrideCycle::N(1)))), None);
    assert_eq!(destination_for("S1", 2, false, None), None);
}
