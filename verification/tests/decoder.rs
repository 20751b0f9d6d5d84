use aiswatch::aismod::ais_decoder;
use aiswatch::aismod::nmea_checksum;
use aiswatch::aismod::Ais;
use aiswatch::aismod::AisError;
use aiswatch::bits::extract_coord;
use aiswatch::bits::extractbit;

fn framed(content: &str) -> String {
    format!("!{}*{:02X}", content, nmea_checksum(content.as_bytes()))
}

#[test]
fn bit_extraction_basics() {
    // '9' un-armors to 9 (001001), 'P' to 32 (100000)
    let buf: Vec<u8> = vec![9, 32];
    assert_eq!(extractbit(&buf, 0, 6), 9);
    assert_eq!(extractbit(&buf, 6, 6), 32);
    // concatenating 001001 and 100000 gives 001001100000
    assert_eq!(extractbit(&buf, 0, 12), 608);
}

#[test]
fn bit_extraction_crosses_byte_boundary() {
    // bytes 111111 000000: four bits starting at offset 4 are 1100
    let buf: Vec<u8> = vec![0b111111, 0b000000];
    assert_eq!(extractbit(&buf, 4, 4), 0b1100);
    // only the low six bits of a byte contribute
    let buf2: Vec<u8> = vec![0xFF, 0x00];
    assert_eq!(extractbit(&buf2, 0, 8), 0b11111100);
}

#[test]
fn signed_coord_negative() {
    // raw 4-bit value 10 is >= 2^3, so the signed value is 10 - 16 = -6
    let buf: Vec<u8> = vec![0b101000];
    assert_eq!(extract_coord(&buf, 0, 4), -6);
    let degrees = -6_f64 / 600000.0;
    assert!((degrees - (-0.00001)).abs() < 1e-12);
}

#[test]
fn signed_coord_positive() {
    // raw 4-bit value 7 stays 7
    let buf: Vec<u8> = vec![0b011100];
    assert_eq!(extract_coord(&buf, 0, 4), 7);
}

#[test]
fn checksum_of_known_content() {
    // the exclusive-or of the bytes of this content is 0x66
    assert_eq!(nmea_checksum(b"AIVDM,1,1,,A,ABC,0"), 0x66);
}

#[test]
fn valid_checksum_then_payload_too_short() {
    // checksum passes, then the 3-character payload fails the length check
    assert_eq!(ais_decoder("!AIVDM,1,1,,A,ABC,0*66"), Err(AisError::MsgLen));
}

#[test]
fn checksum_mismatch_rejected() {
    assert_eq!(
        ais_decoder("!AIVDM,1,1,,A,ABC,0*65"),
        Err(AisError::ChecksumMismatch)
    );
}

#[test]
fn checksum_comparison_is_case_sensitive() {
    // the checksum of "AIVDM,1,1,,A,J,0" is 0x6C; only uppercase "6C" matches
    assert_eq!(nmea_checksum(b"AIVDM,1,1,,A,J,0"), 0x6C);
    assert_eq!(ais_decoder("!AIVDM,1,1,,A,J,0*6C"), Err(AisError::MsgLen));
    assert_eq!(
        ais_decoder("!AIVDM,1,1,,A,J,0*6c"),
        Err(AisError::ChecksumMismatch)
    );
}

#[test]
fn malformed_line_rejected() {
    // a line beginning with neither '!' nor '$' is not recognized
    assert_eq!(ais_decoder("xAIVDM,1,1,,A,ABC,0*66"), Err(AisError::NotRecognized));
    assert_eq!(ais_decoder(""), Err(AisError::NotRecognized));
}

#[test]
fn non_ais_sentence_is_benign() {
    assert_eq!(ais_decoder("$GPGGA,123519,4807.038,N"), Ok(Ais::AisUnknown));
}

#[test]
fn missing_fields_rejected() {
    assert_eq!(ais_decoder("!AIVDM,1,1"), Err(AisError::MissingField));
}

#[test]
fn short_checksum_field_rejected() {
    assert_eq!(ais_decoder("!AIVDM,1,1,,A,ABC,0*6"), Err(AisError::ChecksumTooShort));
}

#[test]
fn multi_fragment_sentence_is_benign() {
    let line = framed("AIVDM,2,1,,A,ABC,0");
    assert_eq!(ais_decoder(&line), Ok(Ais::AisUnknown));
}

#[test]
fn invalid_armor_character_rejected() {
    // 'z' (0x7A) lies outside both armor ranges
    let line = framed("AIVDM,1,1,,A,ABCz,0");
    assert_eq!(ais_decoder(&line), Err(AisError::SixBit));
}

#[test]
fn unsupported_message_type_is_benign() {
    let line = framed("AIVDM,1,1,,A,5000000000000000000000000000,0");
    assert_eq!(ais_decoder(&line), Ok(Ais::AisUnknown));
}

#[test]
fn wrong_length_for_type_rejected() {
    // a type-1 payload must be exactly 28 characters
    let line = framed("AIVDM,1,1,,A,10000000,0");
    assert_eq!(ais_decoder(&line), Err(AisError::MsgLen));
}

#[test]
fn class_a_position_report_decodes() {
    // type '1'; character 1 ('3' = 000011) and character 6 ('h' = 110000)
    // put the bits 0011 on top of the 30-bit identifier and 11 at its end
    let line = framed("AIVDM,1,1,,A,130000h000000000000000000000,0");
    assert_eq!(
        ais_decoder(&line),
        Ok(Ais::Ais1 {
            mmsi: (3 << 26) + 3,
            lon_raw: 0,
            lat_raw: 0,
            sog_raw: 0,
            cog_raw: 0,
        })
    );
}

#[test]
fn armor_range_boundaries() {
    // 'W' (0x57) and '`' (0x60) are valid armor, 'X' (0x58) and '_' are not
    let ok = framed("AIVDM,1,1,,A,W`,0");
    assert_eq!(ais_decoder(&ok), Err(AisError::MsgLen));
    let bad_x = framed("AIVDM,1,1,,A,WX,0");
    assert_eq!(ais_decoder(&bad_x), Err(AisError::SixBit));
    let bad_us = framed("AIVDM,1,1,,A,W_,0");
    assert_eq!(ais_decoder(&bad_us), Err(AisError::SixBit));
}

#[test]
fn live_sentence_decodes() {
    // a sentence captured off the air; the identifier is in the
    // Hungarian range
    let line = "!AIVDM,1,1,,A,23Wj8j@P0vQGC5lK>ji@7wwL2HKN,0*20";
    match ais_decoder(line) {
        Ok(Ais::Ais1 { mmsi, .. }) => assert_eq!(mmsi, 243042505),
        other => panic!("expected a class-A report, got {:?}", other),
    }
}

#[test]
fn base_station_report_decodes() {
    let line = framed("AIVDM,1,1,,A,430000h000000000000000000000,0");
    assert_eq!(
        ais_decoder(&line),
        Ok(Ais::Ais4 { mmsi: (3 << 26) + 3, lon_raw: 0, lat_raw: 0 })
    );
}
