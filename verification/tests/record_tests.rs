use ach_lib_rs::ach_file::{
    render, AchFile, AchRecord, Addenda, CompanyBatch, CompanyBatchHeader, CompanyBatchTrailer,
    EntryDetail, Header, Trailer,
};
use ach_lib_rs::error::{Overflow, TransformError};
use ach_lib_rs::field::Field;
use ach_lib_rs::layout::AchRecordType;
use ach_lib_rs::string_reader::StringReader;

#[test]
fn test_achfile_clone() {
    let ach1 = AchFile {
        header: Header {
            priority_code: Default::default(),
            immediate_dest: Field::from("-test_case1-"),
            immediate_orig: Default::default(),
            file_creation_date: Default::default(),
            file_creation_time: Default::default(),
            file_id_modifier: Default::default(),
            record_size: Default::default(),
            blocking_factor: Default::default(),
            format_code: Default::default(),
            immediate_dest_name: Default::default(),
            immediate_orig_name: Default::default(),
            reference_code: Default::default(),
        },
        records: vec![CompanyBatch {
            batch_header: Default::default(),
            batch_records: vec![EntryDetail {
                transactions_code: Default::default(),
                receiving_dfi_id: Field::from("-test_case2-"),
                check_digit: Default::default(),
                dfi_account: Default::default(),
                amount: Default::default(),
                individual_id: Default::default(),
                individual_name: Default::default(),
                discretionary_data: Default::default(),
                addenda_indicator: Default::default(),
                trace: Default::default(),
                addenda: vec![Addenda {
                    addenda_type: Default::default(),
                    payment_related_info: Field::from("-test_case3-"),
                    addenda_sequence: Default::default(),
                    batch: Default::default(),
                }],
            }],
            batch_trailer: Default::default(),
        }],
        trailer: Default::default(),
    };
    let ach2 = ach1.clone();

    assert_eq!(format!("{:?}", ach1), format!("{:?}", ach2))
}

#[test]
fn test_field_display() {
    let mut field = Field::from("lorem ipsum dolor sit amet");
    assert_eq!(field.to_string(), "lorem ipsum dolor sit amet");

    field.size = 30;
    assert_eq!(field.to_string(), "    lorem ipsum dolor sit amet");
    field.left_justified = true;
    assert_eq!(field.to_string(), "lorem ipsum dolor sit amet    ")
}

#[test]
fn test_header_display() {
    let header = Header {
        priority_code: Field::from("01"),
        immediate_dest: Field::from("-imm_dest-"),
        immediate_orig: Field::from("-imm_orig-"),
        file_creation_date: Field::from("112233"),
        file_creation_time: Field::from("1122"),
        file_id_modifier: Field::from("1"),
        record_size: Field::from("094"),
        blocking_factor: Field::from("10"),
        format_code: Field::from("1"),
        immediate_dest_name: Field::from("-!immediate_dest_name!-"),
        immediate_orig_name: Field::from("-!immediate_orig_name!-"),
        reference_code: Field::from(8),
    };
    assert_eq!(header.to_string(), "101-imm_dest--imm_orig-11223311221094101-!immediate_dest_name!--!immediate_orig_name!-        ")
}

#[test]
fn field_renders_right_justified_by_default() {
    let field = Field::new("AB", 5);
    assert_eq!(field.to_string(), "   AB");
}

#[test]
fn field_renders_left_justified() {
    let field = Field::new("AB", 5).left_just(true);
    assert_eq!(field.to_string(), "AB   ");
}

#[test]
fn field_of_width_zero_renders_empty() {
    let field = Field::new("X", 0);
    assert_eq!(field.to_string(), "");
    assert!(!field.fits());
}

#[test]
fn field_wider_than_declared_is_cut_to_its_width() {
    let field = Field::new("ABCDEF", 4);
    assert_eq!(field.to_string(), "ABCD");
}

#[test]
fn field_from_string_is_filled_exactly() {
    let field = Field::from(String::from("abc"));
    assert_eq!(field.size, 3);
    assert!(!field.left_justified);
    assert!(field.fits());
    assert!(field.content_is("abc"));
    assert!(!field.content_is("abd"));
}

#[test]
fn field_default_is_empty() {
    let field = Field::default();
    assert_eq!(field.content, "");
    assert_eq!(field.size, 0);
    assert!(!field.left_justified);
}

#[test]
fn field_set_content_checks_the_width() {
    let mut field = Field::new("AB", 3);
    assert!(field.set_content("XYZ"));
    assert_eq!(field.content, "XYZ");
    assert!(!field.set_content("WXYZ"));
    assert_eq!(field.content, "XYZ");
    assert_eq!(field.size, 3);
}

#[test]
fn header_is_decoded_by_its_layout() {
    let body = "01 123456789 9876543212601011200A094101DEST BANK              ORIGIN CO              REF00001";
    let header = Header::from(StringReader::new(body.to_string()));
    assert_eq!(header.priority_code.content, "01");
    assert_eq!(header.immediate_dest.content, " 123456789");
    assert_eq!(header.immediate_orig.content, " 987654321");
    assert_eq!(header.file_creation_date.content, "260101");
    assert_eq!(header.file_creation_time.content, "1200");
    assert_eq!(header.file_id_modifier.content, "A");
    assert_eq!(header.record_size.content, "094");
    assert_eq!(header.blocking_factor.content, "10");
    assert_eq!(header.format_code.content, "1");
    assert_eq!(header.immediate_dest_name.content, "DEST BANK              ");
    assert_eq!(header.immediate_orig_name.content, "ORIGIN CO              ");
    assert_eq!(header.reference_code.content, "REF00001");
    assert_eq!(header.reference_code.size, 8);
    assert_eq!(header.to_string(), format!("1{}", body));
}

#[test]
fn short_line_yields_short_then_empty_fields() {
    let addenda = Addenda::from(StringReader::new("05ABC".to_string()));
    assert_eq!(addenda.addenda_type.content, "05");
    assert_eq!(addenda.payment_related_info.content, "ABC");
    assert_eq!(addenda.payment_related_info.size, 80);
    assert_eq!(addenda.addenda_sequence.content, "");
    assert_eq!(addenda.addenda_sequence.size, 4);
    assert_eq!(addenda.batch.content, "");
    assert_eq!(addenda.to_string().len(), 94);
}

#[test]
fn blank_records_take_a_whole_line() {
    assert_eq!(Header::default().to_string(), format!("1{}", " ".repeat(93)));
    assert_eq!(CompanyBatchHeader::default().to_string(), format!("5{}", " ".repeat(93)));
    assert_eq!(render(&EntryDetail::default()), format!("6{}", " ".repeat(93)));
    assert_eq!(Addenda::default().to_string(), format!("7{}", " ".repeat(93)));
    assert_eq!(CompanyBatchTrailer::default().to_string(), format!("8{}", " ".repeat(93)));
    assert_eq!(Trailer::default().to_string(), format!("9{}", " ".repeat(93)));
}

#[test]
fn batch_trailer_hash_is_left_justified() {
    let trailer = CompanyBatchTrailer::default();
    assert!(trailer.entry_hash.left_justified);
    assert!(!trailer.entry_and_addenda_count.left_justified);
    assert!(!Trailer::default().entry_hash.left_justified);
}

#[test]
fn record_kinds_and_fields() {
    let entry = EntryDetail::default();
    assert_eq!(entry.record_type(), AchRecordType::EntryDetail);
    assert_eq!(entry.field_refs().len(), 10);
    assert_eq!(Header::default().field_refs().len(), 12);
    assert_eq!(CompanyBatchHeader::default().field_refs().len(), 12);
    assert_eq!(Addenda::default().field_refs().len(), 4);
    assert_eq!(CompanyBatchTrailer::default().field_refs().len(), 10);
    assert_eq!(Trailer::default().field_refs().len(), 7);
    assert_eq!(Trailer::default().record_type(), AchRecordType::Trailer);
}

#[test]
fn set_at_replaces_one_field() {
    let mut header = CompanyBatchHeader::default();
    assert_eq!(header.set_at(3, "1234567890"), Ok(()));
    assert_eq!(header.company_id.content, "1234567890");
    assert_eq!(header.company_name.content, "");
    assert_eq!(
        header.set_at(3, "12345678901"),
        Err(TransformError::FieldOverflow(Overflow {
            record: AchRecordType::CompanyBatchHeader,
            field: "company_id".to_string(),
            value: "12345678901".to_string(),
        }))
    );
    assert_eq!(header.company_id.content, "1234567890");
    assert_eq!(header.set_at(12, "x"), Ok(()));
}

#[test]
fn layout_tables() {
    for kind in [
        AchRecordType::Header,
        AchRecordType::CompanyBatchHeader,
        AchRecordType::EntryDetail,
        AchRecordType::Addenda,
        AchRecordType::CompanyBatchTrailer,
        AchRecordType::Trailer,
    ] {
        let total: usize = kind.layout().iter().map(|d| d.width).sum();
        assert_eq!(total, 93);
    }
    assert_eq!(AchRecordType::CompanyBatchHeader.position("company_id"), Some(3));
    assert_eq!(AchRecordType::EntryDetail.position("amount"), Some(4));
    assert_eq!(AchRecordType::EntryDetail.position("company_id"), None);
    assert_eq!(AchRecordType::Trailer.tag_str(), "9");
    assert_eq!(AchRecordType::from_tag('6'), Some(AchRecordType::EntryDetail));
    assert_eq!(AchRecordType::from_tag('2'), None);
    assert_eq!(AchRecordType::from_name("Addenda"), Some(AchRecordType::Addenda));
    assert_eq!(AchRecordType::from_name("addenda"), None);
}

#[test]
fn line_counts() {
    let mut entry = EntryDetail::default();
    assert_eq!(entry.len(), 1);
    entry.push(Addenda::default());
    entry.push(Addenda::default());
    assert_eq!(entry.len(), 3);
    let mut batch = CompanyBatch::default();
    assert_eq!(batch.len(), 2);
    batch.push(entry);
    batch.push(EntryDetail::default());
    assert_eq!(batch.len(), 6);
    let mut file = AchFile::default();
    assert_eq!(file.len(), 2);
    file.push(batch);
    file.push(CompanyBatch::default());
    assert_eq!(file.len(), 10);
}

#[test]
fn widths_count_characters() {
    let field = Field::new("Jos\u{e9}", 6);
    assert!(field.fits());
    assert_eq!(field.to_string(), "  Jos\u{e9}");
    assert_eq!(Field::from("Jos\u{e9}").size, 4);
    let line = format!("05{}\u{20ac}{}", "x".repeat(40), "y".repeat(50));
    assert_eq!(line.chars().count(), 93);
    let addenda = Addenda::from(StringReader::new(line.clone()));
    assert_eq!(addenda.payment_related_info.content.chars().count(), 80);
    assert_eq!(addenda.addenda_sequence.content, "yyyy");
    assert_eq!(addenda.to_string(), format!("7{}", line));
}
