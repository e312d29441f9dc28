use illuvatar::samplesheet::{
    default_mask_short_reads, override_cycles, validate_cycles, AdapterBehavior,
    CompressionFormat, MinAdapterOlap, OverrideCycle, OverrideCycles, SampleSheetError,
    SampleSheetSection, SampleSheetVersion, SectionType,
};
use illuvatar::sections::{parse_section, preprocess, section_from_name, split_lines, transmute_kv};

#[test]
fn defaults() {
    assert_eq!(default_mask_short_reads(), 22);
    assert_eq!(CompressionFormat::default(), CompressionFormat::Gzip);
    assert_eq!(AdapterBehavior::default(), AdapterBehavior::Trim);
    assert_eq!(MinAdapterOlap::default(), MinAdapterOlap::One);
    assert_eq!(MinAdapterOlap::Three.bases(), 3);
    assert_eq!(SampleSheetVersion::default(), SampleSheetVersion::V1);
    assert_eq!(SampleSheetVersion::from_number(2), Some(SampleSheetVersion::V2));
    assert_eq!(SampleSheetVersion::from_number(3), None);
}

#[test]
fn override_cycle_kinds() {
    assert_eq!(OverrideCycle::from_kind('Y', 151), Ok(OverrideCycle::Y(151)));
    assert_eq!(OverrideCycle::from_kind('U', 8), Ok(OverrideCycle::U(8)));
    assert_eq!(OverrideCycle::from_kind('X', 8), Err(SampleSheetError::UnknownCycleKind('X')));
}

#[test]
fn override_cycles_text() {
    assert_eq!(
        override_cycles("Y151;I8;I8;Y151"),
        Some(vec![vec![OverrideCycle::Y(151)], vec![OverrideCycle::I(8)], vec![OverrideCycle::I(8)], vec![OverrideCycle::Y(151)]])
    );
    assert_eq!(
        override_cycles("U8Y143;I8N2;"),
        Some(vec![vec![OverrideCycle::U(8), OverrideCycle::Y(143)], vec![OverrideCycle::I(8), OverrideCycle::N(2)]])
    );
    assert_eq!(override_cycles(""), None);
    assert_eq!(override_cycles("Y256"), None);
    assert_eq!(override_cycles("Y10;;I8"), None);
    assert_eq!(override_cycles("Y10X"), None);
    assert!(OverrideCycles::parse("Y151;I8;I8;Y151").is_ok());
    assert_eq!(OverrideCycles::parse("Y151;I8;I8;Y151").unwrap().reads_len(), 4);
    assert!(matches!(OverrideCycles::parse("U8;I8"), Err(SampleSheetError::ParseError(_))));
    assert!(matches!(OverrideCycles::parse("Y8I8"), Err(SampleSheetError::ParseError(_))));
}

#[test]
fn one_sequence_per_read() {
    assert!(validate_cycles(&vec![vec![OverrideCycle::U(8), OverrideCycle::Y(143)], vec![OverrideCycle::I(8)]]).is_ok());
    assert!(validate_cycles(&vec![vec![OverrideCycle::Y(8), OverrideCycle::I(8)]]).is_err());
    assert!(validate_cycles(&vec![vec![OverrideCycle::N(8)]]).is_err());
    assert!(validate_cycles(&vec![]).is_ok());
}

#[test]
fn lines_and_trailing_commas() {
    assert_eq!(split_lines("a\r\nb\n\nc"), vec!["a", "b", "", "c"]);
    assert_eq!(split_lines("a\n"), vec!["a"]);
    assert!(split_lines("").is_empty());
    assert_eq!(preprocess("a,b,,\nc,,\r\n"), "a,b\nc\n");
}

#[test]
fn transposed_key_values() {
    assert_eq!(transmute_kv("a,b\nc,d\nx,y\n"), "a,c,x\nb,d,y");
    assert_eq!(transmute_kv("FileFormatVersion,2\nnoise\nRunName,r,1\n"), "FileFormatVersion,RunName\n2,r,1");
    assert_eq!(transmute_kv(""), "\n");
}

#[test]
fn section_names() {
    assert_eq!(section_from_name("Header"), SampleSheetSection::Header(SectionType::Standalone));
    assert_eq!(section_from_name("BCLConvert_Data"), SampleSheetSection::BCLConvertData(SectionType::CSV));
    assert_eq!(
        section_from_name("Cloud_Settings"),
        SampleSheetSection::Other(SectionType::Unknown("Cloud_Settings".to_string()))
    );
    assert_eq!(section_from_name("Reads").get_kind(), &SectionType::Standalone);
}

#[test]
fn sections() {
    let text = "[Header],,\nFileFormatVersion,2,\n[Data],\r\nLane,Sample_ID\n1,S1,\n";
    let (rest, (section, contents)) = parse_section(text).unwrap();
    assert_eq!(section, SampleSheetSection::Header(SectionType::Standalone));
    assert_eq!(contents, "FileFormatVersion,2\n");
    let (rest, (section, contents)) = parse_section(rest).unwrap();
    assert_eq!(section, SampleSheetSection::Data(SectionType::CSV));
    assert_eq!(contents, "Lane,Sample_ID\n1,S1\n");
    assert_eq!(rest, "");
    assert!(parse_section("Header,\nx\n").is_err());
    assert!(parse_section("[Header]\nx\n").is_err());
    assert!(parse_section("[Header],\n[Data],\nx\n").is_err());
}

#[test]
fn cycle_roles() {
    let oc = OverrideCycles::parse("U2Y3;I2;N1Y2").unwrap();
    assert_eq!(oc.role_of_cycle(1), Some((0, OverrideCycle::U(2))));
    assert_eq!(oc.role_of_cycle(3), Some((0, OverrideCycle::Y(3))));
    assert_eq!(oc.role_of_cycle(5), Some((0, OverrideCycle::Y(3))));
    assert_eq!(oc.role_of_cycle(6), Some((1, OverrideCycle::I(2))));
    assert_eq!(oc.role_of_cycle(8), Some((2, OverrideCycle::N(1))));
    assert_eq!(oc.role_of_cycle(10), Some((2, OverrideCycle::Y(2))));
    assert_eq!(oc.role_of_cycle(11), None);
}
