use ach_lib_rs::ach_file::{AchFile, CompanyBatch, EntryDetail};
use ach_lib_rs::ach_transformations::{
    apply, encode_all, load_transformations, process, Transformations,
};
use ach_lib_rs::aggregate::{format_number, polarity, BatchTotals, FileTotals, Polarity};
use ach_lib_rs::condition::Condition;
use ach_lib_rs::config::{OperationType, Replacement, Steps};
use ach_lib_rs::encoder::{encode, join_lines, make_filler};
use ach_lib_rs::error::{
    AchError, AchErrorKind, ConfigError, DecodeError, Overflow, TransformError,
};
use ach_lib_rs::field::Field;
use ach_lib_rs::layout::AchRecordType;
use ach_lib_rs::parser::{line_tag, parse, parse_bytes, LineSource};

const TWO_BATCHES: [&str; 10] = [
    "101 123456789 9876543212601011200A094101DEST BANK              ORIGIN CO              REF00001",
    "5200ACME                                1234567890PPDPAYROLL   260101260102   1123456780000001",
    "622123456780ACC123           0000010000ID1            JOHN DOE                1000000000000001",
    "705INVOICE 42                                                                      00010000001",
    "627876543210ACC123           0000002500ID1            JANE ROE                0000000000000002",
    "820000000300999999990000000025000000000100001234567890                         123456780000001",
    "5200GLOBEX                              0987654321PPDPAYROLL   260101260102   1123456780000002",
    "632111111110ACC123           0000000500ID1            JIM POE                 0000000000000003",
    "820000000100111111110000000000000000000005000987654321                         123456780000002",
    "9000002000001000000040111111110000000002500000000010500                                       ",
];

const ONE_BATCH: [&str; 7] = [
    "101 123456789 9876543212601011200A094101DEST BANK              ORIGIN CO              REF00001",
    "5200ACME                                1234567890PPDPAYROLL   260101260102   1123456780000001",
    "622123456780ACC123           0000010000ID1            JOHN DOE                1000000000000001",
    "705INVOICE 42                                                                      00010000001",
    "627876543210ACC123           0000002500ID1            JANE ROE                0000000000000002",
    "820000000300999999990000000025000000000100001234567890                         123456780000001",
    "9000001000001000000030099999999000000002500000000010000                                       ",
];

const ONLY_SECOND: [&str; 5] = [
    "101 123456789 9876543212601011200A094101DEST BANK              ORIGIN CO              REF00001",
    "5200GLOBEX                              0987654321PPDPAYROLL   260101260102   1123456780000002",
    "632111111110ACC123           0000000500ID1            JIM POE                 0000000000000003",
    "820000000100111111110000000000000000000005000987654321                         123456780000002",
    "9000001000001000000010011111111000000000000000000000500                                       ",
];

fn lines_of(lines: &[&str]) -> Vec<String> {
    lines.iter().map(|l| l.to_string()).collect()
}

fn two_batches() -> AchFile {
    parse(lines_of(&TWO_BATCHES)).unwrap()
}

fn filler() -> String {
    "9".repeat(94)
}

fn company_ids(file: &AchFile) -> Vec<String> {
    file.records.iter().map(|b| b.batch_header.company_id.content.clone()).collect()
}

fn step(operation: Vec<OperationType>, on: Vec<AchRecordType>) -> Steps {
    Steps {
        label: "step".to_string(),
        operation,
        on,
        conditions: vec![],
        replacements: vec![],
    }
}

fn overflow(record: AchRecordType, field: &str, value: &str) -> TransformError {
    TransformError::FieldOverflow(Overflow {
        record,
        field: field.to_string(),
        value: value.to_string(),
    })
}

fn totals_of(code: &str, routing: &str, amount: &str) -> BatchTotals {
    let mut entry = EntryDetail::default();
    entry.transactions_code = Field::from(code);
    entry.receiving_dfi_id = Field::from(routing);
    entry.amount = Field::from(amount);
    let mut batch = CompanyBatch::default();
    batch.push(entry);
    batch.totals().unwrap()
}

fn number_in(field: &Field) -> u64 {
    totals_of("27", "", &field.content).total_debit_amount
}

fn equals(field: &str, value: &str) -> Condition {
    Condition::FieldEquals { field: field.to_string(), value: value.to_string() }
}

fn one_of(field: &str, values: &[&str]) -> Condition {
    Condition::FieldIn { field: field.to_string(), values: lines_of(values) }
}

fn replacement(record: AchRecordType, field: &str, value: &str) -> Replacement {
    Replacement { record, field: field.to_string(), replace_with: value.to_string() }
}

#[test]
fn parse_builds_the_hierarchy() {
    let file = two_batches();
    assert_eq!(file.header.immediate_dest.content, " 123456789");
    assert_eq!(file.records.len(), 2);
    let first = &file.records[0];
    assert_eq!(first.batch_header.company_id.content, "1234567890");
    assert_eq!(first.batch_records.len(), 2);
    assert_eq!(first.batch_records[0].addenda.len(), 1);
    assert_eq!(
        first.batch_records[0].addenda[0].payment_related_info.content.trim_end(),
        "INVOICE 42"
    );
    assert_eq!(first.batch_records[1].addenda.len(), 0);
    assert_eq!(first.batch_records[1].amount.content, "0000002500");
    assert_eq!(first.batch_trailer.entry_hash.content, "0099999999");
    assert!(first.batch_trailer.entry_hash.left_justified);
    let second = &file.records[1];
    assert_eq!(second.batch_header.company_id.content, "0987654321");
    assert_eq!(second.batch_records.len(), 1);
    assert_eq!(file.trailer.batch_count.content, "000002");
    assert_eq!(file.len(), 10);
}

#[test]
fn parse_stops_at_the_file_trailer() {
    let mut lines = lines_of(&ONE_BATCH);
    lines.push(filler());
    lines.push("this is not a record".to_string());
    let mut src = LineSource::new(lines);
    let file = AchFile::parse(&mut src).unwrap();
    assert_eq!(file.records.len(), 1);
    assert_eq!(src.next, 7);
}

#[test]
fn parse_takes_the_last_header() {
    let mut lines = lines_of(&ONLY_SECOND);
    lines.insert(1, format!("1{}", "Z".repeat(93)));
    let file = parse(lines).unwrap();
    assert_eq!(file.header.priority_code.content, "ZZ");
}

#[test]
fn round_trip_reproduces_a_file_of_whole_blocks() {
    let input = lines_of(&TWO_BATCHES);
    let file = parse(input.clone()).unwrap();
    let output = encode(&file).unwrap();
    assert_eq!(output, input);
    assert_eq!(output.len() % 10, 0);
}

#[test]
fn round_trip_reproduces_the_input_and_pads_with_fillers() {
    let input = lines_of(&ONE_BATCH);
    let file = parse(input.clone()).unwrap();
    let output = encode(&file).unwrap();
    assert_eq!(output.len(), 10);
    assert_eq!(&output[..7], &input[..]);
    for line in &output[7..] {
        assert_eq!(line, &filler());
    }
}

#[test]
fn round_trip_ignores_the_fillers_of_the_input() {
    let mut input = lines_of(&ONLY_SECOND);
    for _ in 0..15 {
        input.push(filler());
    }
    let output = encode(&parse(input.clone()).unwrap()).unwrap();
    assert_eq!(output.len(), 10);
    assert_eq!(&output[..], &input[..10]);
}

#[test]
fn encode_recomputes_stale_trailers() {
    let mut file = two_batches();
    file.records[0].batch_trailer.entry_hash = Field::new("7777777777", 10);
    file.records[1].batch_trailer.total_credit_amount = Field::new("1", 12);
    file.trailer.batch_count = Field::new("999999", 6);
    file.trailer.block_count = Field::new("", 6);
    assert_eq!(encode(&file).unwrap(), lines_of(&TWO_BATCHES));
}

#[test]
fn encode_keeps_the_fields_that_are_not_derived() {
    let mut file = two_batches();
    file.trailer.reserved = Field::new("KEEP", 39);
    file.records[0].batch_trailer.message_auth_code = Field::new("MAC", 19);
    let lines = encode(&file).unwrap();
    assert!(lines[9].ends_with("KEEP"));
    assert_eq!(&lines[5][54..73], "                MAC");
}

#[test]
fn encode_fails_on_a_field_wider_than_declared() {
    let mut file = two_batches();
    file.records[1].batch_records[0].individual_name.content =
        "A NAME THAT IS MUCH TOO LONG FOR IT".to_string();
    file.records[1].batch_trailer.reserved.content = "1234567".to_string();
    assert_eq!(
        encode(&file),
        Err(overflow(
            AchRecordType::EntryDetail,
            "individual_name",
            "A NAME THAT IS MUCH TOO LONG FOR IT"
        ))
    );
}

#[test]
fn encode_fails_on_an_aggregate_wider_than_its_field() {
    let mut file = two_batches();
    let mut entry = file.records[0].batch_records[1].clone();
    entry.amount = Field::new("999999999999", 12);
    file.records[0].batch_records.push(entry);
    assert_eq!(
        encode(&file),
        Err(overflow(AchRecordType::CompanyBatchTrailer, "total_debit_amount", ""))
    );
}

#[test]
fn encode_reports_the_first_field_in_the_order_of_the_lines() {
    let mut file = two_batches();
    file.trailer.reserved.content = "x".repeat(40);
    file.records[0].batch_records[0].addenda[0].batch.content = "12345678".to_string();
    file.records[0].batch_records[1].trace.content = "1".repeat(16);
    assert_eq!(encode(&file), Err(overflow(AchRecordType::Addenda, "batch", "12345678")));
    file.records[0].batch_records[0].addenda[0].batch.content = "1234567".to_string();
    assert_eq!(
        encode(&file),
        Err(overflow(AchRecordType::EntryDetail, "trace", "1111111111111111"))
    );
    assert_eq!(
        file.check_widths(),
        Err(overflow(AchRecordType::EntryDetail, "trace", "1111111111111111"))
    );
    file.records[0].batch_records[1].trace.content = "1".repeat(15);
    assert_eq!(
        encode(&file),
        Err(overflow(AchRecordType::Trailer, "reserved", &"x".repeat(40)))
    );
    assert!(!file.fits());
    assert!(file.records[0].check_widths().is_ok());
    assert!(file.records[0].batch_records[0].check_widths().is_ok());
}

#[test]
fn encode_fails_on_addenda_without_indicator() {
    let mut file = two_batches();
    file.records[0].batch_records[0].addenda_indicator.content = "0".to_string();
    assert_eq!(encode(&file), Err(TransformError::AddendaIndicatorMismatch));
}

#[test]
fn encode_fails_on_indicator_without_addenda() {
    let mut file = two_batches();
    file.records[1].batch_records[0].addenda_indicator.content = "1".to_string();
    assert_eq!(encode(&file), Err(TransformError::AddendaIndicatorMismatch));
}

#[test]
fn overflow_is_reported_before_an_indicator_mismatch() {
    let mut file = two_batches();
    file.records[0].batch_records[0].addenda_indicator.content = "0".to_string();
    file.header.file_id_modifier.content = "AB".to_string();
    assert_eq!(encode(&file), Err(overflow(AchRecordType::Header, "file_id_modifier", "AB")));
}

#[test]
fn entry_lines_follow_the_indicator() {
    let file = two_batches();
    let with = &file.records[0].batch_records[0];
    assert_eq!(with.lines(), lines_of(&TWO_BATCHES[2..4]));
    let mut without = with.clone();
    without.addenda_indicator.content = "0".to_string();
    assert_eq!(without.lines().len(), 1);
    assert!(with.indicator_consistent());
    assert!(!without.indicator_consistent());
    assert!(with.fits());
}

#[test]
fn batch_and_file_lines_are_those_of_their_records() {
    let file = two_batches();
    assert_eq!(file.records[0].lines(), lines_of(&TWO_BATCHES[1..6]));
    assert_eq!(file.lines(), lines_of(&TWO_BATCHES));
    assert!(file.fits());
    assert!(file.indicators_consistent());
    assert!(file.records[1].fits());
    assert!(file.records[1].indicators_consistent());
}

#[test]
fn filler_is_nines_over_the_line() {
    assert_eq!(make_filler(), filler());
}

#[test]
fn joined_lines_end_in_line_breaks() {
    assert_eq!(join_lines(&lines_of(&["a", "", "bc"])), "a\n\nbc\n");
    assert_eq!(join_lines(&vec![]), "");
}

#[test]
fn entry_hash_is_the_sum_of_the_routing_numbers() {
    let file = two_batches();
    let totals = file.records[0].totals().unwrap();
    assert_eq!(
        totals,
        BatchTotals {
            entry_and_addenda_count: 3,
            entry_hash: 99999999,
            total_debit_amount: 2500,
            total_credit_amount: 10000,
        }
    );
    let mut batch = file.records[0].clone();
    batch.batch_trailer.entry_hash = Field::new("", 10);
    batch.refresh().unwrap();
    assert_eq!(batch.batch_trailer.entry_hash.content, "0099999999");
    assert_eq!(batch.batch_trailer.entry_hash.to_string(), "0099999999");
}

#[test]
fn entry_hash_keeps_the_last_ten_digits() {
    let mut batch = CompanyBatch::default();
    for _ in 0..3 {
        let mut entry = EntryDetail::default();
        entry.receiving_dfi_id = Field::new("9999999999", 10);
        batch.push(entry);
    }
    assert_eq!(batch.totals().unwrap().entry_hash, 9999999997);
}

#[test]
fn file_totals_sum_over_all_batches() {
    let file = two_batches();
    assert_eq!(
        file.totals(),
        Ok(FileTotals {
            batch_count: 2,
            block_count: 1,
            entry_and_addenda_count: 4,
            entry_hash: 111111110,
            total_debits: 2500,
            total_credits: 10500,
        })
    );
}

#[test]
fn block_count_rounds_up() {
    let mut file = AchFile::default();
    assert_eq!(file.totals().unwrap().block_count, 1);
    for _ in 0..4 {
        file.push(CompanyBatch::default());
    }
    assert_eq!(file.len(), 10);
    assert_eq!(file.totals().unwrap().block_count, 1);
    file.records[0].push(EntryDetail::default());
    assert_eq!(file.len(), 11);
    assert_eq!(file.totals().unwrap().block_count, 2);
    assert_eq!(encode(&file).unwrap().len(), 20);
}

#[test]
fn totals_fail_where_a_total_takes_thirteen_digits() {
    let mut batch = CompanyBatch::default();
    for _ in 0..2 {
        let mut entry = EntryDetail::default();
        entry.transactions_code = Field::new("27", 2);
        entry.amount = Field::new("500000000000", 12);
        batch.push(entry);
    }
    let report = overflow(AchRecordType::CompanyBatchTrailer, "total_debit_amount", "");
    assert_eq!(batch.totals(), Err(report.clone()));
    assert_eq!(batch.refresh(), Err(report.clone()));
    let mut file = AchFile::default();
    file.push(batch);
    assert_eq!(file.totals(), Err(report.clone()));
    assert_eq!(file.refresh(), Err(report));
}

#[test]
fn totals_fail_where_the_file_total_takes_thirteen_digits() {
    let mut file = AchFile::default();
    for _ in 0..2 {
        let mut entry = EntryDetail::default();
        entry.transactions_code = Field::new("22", 2);
        entry.amount = Field::new("500000000000", 12);
        let mut batch = CompanyBatch::default();
        batch.push(entry);
        assert_eq!(batch.totals().unwrap().total_credit_amount, 500000000000);
        file.push(batch);
    }
    assert_eq!(
        file.totals(),
        Err(overflow(AchRecordType::Trailer, "total_credits", ""))
    );
}

#[test]
fn numeric_values() {
    assert_eq!(totals_of("27", "", "0000012345").total_debit_amount, 12345);
    assert_eq!(totals_of("27", "", " 12 3x").total_debit_amount, 123);
    assert_eq!(totals_of("27", "", "").total_debit_amount, 0);
    assert_eq!(totals_of("22", "", "0000012345").total_credit_amount, 12345);
    assert_eq!(totals_of("22", "", "0000012345").total_debit_amount, 0);
    assert_eq!(totals_of("99", "", "0000012345").total_credit_amount, 0);
    assert_eq!(totals_of("22", "999999999999", "1").total_credit_amount, 1);
    assert_eq!(totals_of("22", "12345678901234", "").entry_hash, 5678901234);
    assert_eq!(totals_of("22", "42", "").entry_hash, 42);
    assert_eq!(totals_of("22", "4 2", "").entry_and_addenda_count, 1);
    assert_eq!(format_number(42, 6), "000042");
    assert_eq!(format_number(1234567, 4), "4567");
    assert_eq!(format_number(7, 0), "");
    assert_eq!(format_number(0, 3), "000");
}

#[test]
fn polarity_table() {
    for code in ["21", "22", "23", "24", "32", "42", "51", "54"] {
        assert_eq!(polarity(code), Polarity::Credit);
    }
    for code in ["26", "27", "28", "29", "37", "49", "55", "56"] {
        assert_eq!(polarity(code), Polarity::Debit);
    }
    for code in ["", "2", "222", "20", "25", "57", "59", "12", "62", "ab"] {
        assert_eq!(polarity(code), Polarity::Neither);
    }
}

#[test]
fn unknown_tag_at_file_scope_is_an_error() {
    let mut lines = lines_of(&ONE_BATCH);
    lines.insert(1, "2 what is this".to_string());
    assert_eq!(parse(lines).unwrap_err(), DecodeError::UnrecognizedRecordType('2'));
}

#[test]
fn entry_outside_a_batch_is_an_error() {
    let lines = lines_of(&[TWO_BATCHES[0], TWO_BATCHES[2]]);
    assert_eq!(parse(lines).unwrap_err(), DecodeError::UnrecognizedRecordType('6'));
}

#[test]
fn empty_line_has_the_line_break_for_its_tag() {
    assert_eq!(line_tag(""), '\n');
    assert_eq!(line_tag("5abc"), '5');
    let lines = lines_of(&[TWO_BATCHES[0], ""]);
    assert_eq!(parse(lines).unwrap_err(), DecodeError::UnrecognizedRecordType('\n'));
}

#[test]
fn missing_file_trailer_is_unexpected_eof() {
    let lines = lines_of(&TWO_BATCHES[..9]);
    assert_eq!(parse(lines).unwrap_err(), DecodeError::UnexpectedEof);
    assert_eq!(parse(vec![]).unwrap_err(), DecodeError::UnexpectedEof);
}

#[test]
fn end_of_input_in_a_batch_is_unexpected_eof() {
    assert_eq!(parse(lines_of(&TWO_BATCHES[..5])).unwrap_err(), DecodeError::UnexpectedEof);
    assert_eq!(parse(lines_of(&TWO_BATCHES[..4])).unwrap_err(), DecodeError::UnexpectedEof);
    assert_eq!(parse(lines_of(&TWO_BATCHES[..2])).unwrap_err(), DecodeError::UnexpectedEof);
}

#[test]
fn broken_source_is_an_io_failure() {
    let mut src = LineSource::broken(lines_of(&TWO_BATCHES[..4]));
    assert_eq!(AchFile::parse(&mut src).unwrap_err(), DecodeError::IoFailure);
    let mut whole = LineSource::broken(lines_of(&TWO_BATCHES));
    assert!(AchFile::parse(&mut whole).is_ok());
}

#[test]
fn batch_without_trailer_is_malformed() {
    let lines = lines_of(&[
        TWO_BATCHES[0],
        TWO_BATCHES[1],
        TWO_BATCHES[4],
        TWO_BATCHES[6],
        TWO_BATCHES[7],
        TWO_BATCHES[8],
        TWO_BATCHES[9],
    ]);
    assert_eq!(parse(lines).unwrap_err(), DecodeError::MalformedBatch);
}

#[test]
fn interrupting_line_is_put_back() {
    let lines = lines_of(&[TWO_BATCHES[4], TWO_BATCHES[6]]);
    let mut src = LineSource::new(lines);
    let header = src.read().unwrap();
    assert_eq!(
        CompanyBatch::parse(&mut src, header).unwrap_err(),
        DecodeError::MalformedBatch
    );
    assert_eq!(src.next, 1);
    assert_eq!(src.read().unwrap(), TWO_BATCHES[6]);
}

#[test]
fn line_source_reads_and_unreads() {
    let mut src = LineSource::new(lines_of(&["a", "b"]));
    src.unread();
    assert_eq!(src.next, 0);
    assert_eq!(src.read(), Ok("a".to_string()));
    assert_eq!(src.read(), Ok("b".to_string()));
    src.unread();
    assert_eq!(src.read(), Ok("b".to_string()));
    assert_eq!(src.read(), Err(DecodeError::UnexpectedEof));
    assert_eq!(src.next, 2);
}

#[test]
fn entry_takes_its_addenda_and_puts_the_next_line_back() {
    let mut src = LineSource::new(lines_of(&TWO_BATCHES[2..6]));
    let first = src.read().unwrap();
    let entry = EntryDetail::parse(&mut src, first);
    assert_eq!(entry.addenda.len(), 1);
    assert_eq!(src.next, 2);
    let second = src.read().unwrap();
    let entry = EntryDetail::parse(&mut src, second);
    assert_eq!(entry.addenda.len(), 0);
    assert_eq!(src.next, 3);
}

#[test]
fn split_partitions_the_batches() {
    let file = two_batches();
    let (matching, others) = file.split(vec!["0987654321".to_string()]).unwrap();
    assert_eq!(company_ids(&matching), vec!["0987654321"]);
    assert_eq!(company_ids(&others), vec!["1234567890"]);
    assert_eq!(encode(&matching).unwrap()[..5], lines_of(&ONLY_SECOND)[..]);
    assert_eq!(encode(&others).unwrap()[..7], lines_of(&ONE_BATCH)[..]);
}

#[test]
fn split_recomputes_the_trailers_of_both_parts() {
    let file = two_batches();
    let (matching, others) = file.split(vec!["1234567890".to_string()]).unwrap();
    assert_eq!(matching.trailer.batch_count.content, "000001");
    assert_eq!(matching.trailer.entry_and_addenda_count.content, "00000003");
    assert_eq!(matching.trailer.entry_hash.content, "0099999999");
    assert_eq!(matching.trailer.total_debits.content, "000000002500");
    assert_eq!(matching.trailer.total_credits.content, "000000010000");
    assert_eq!(others.trailer.batch_count.content, "000001");
    assert_eq!(others.trailer.entry_and_addenda_count.content, "00000001");
    assert_eq!(others.trailer.entry_hash.content, "0011111111");
    assert_eq!(others.trailer.total_debits.content, "000000000000");
    assert_eq!(others.trailer.total_credits.content, "000000000500");
    assert_eq!(matching.totals().unwrap().batch_count, 1);
    assert_eq!(others.totals().unwrap().total_credits, 500);
}

#[test]
fn split_with_no_match_leaves_the_first_part_without_batches() {
    let file = two_batches();
    let (matching, others) = file.split(vec!["0000000000".to_string()]).unwrap();
    assert_eq!(matching.records.len(), 0);
    assert_eq!(matching.trailer.batch_count.content, "000000");
    assert_eq!(matching.trailer.block_count.content, "000001");
    assert_eq!(matching.header.immediate_dest.content, " 123456789");
    assert_eq!(others.records.len(), 2);
    assert_eq!(encode(&others).unwrap(), lines_of(&TWO_BATCHES));
    let (all, none) = file
        .split(vec!["1234567890".to_string(), "0987654321".to_string()])
        .unwrap();
    assert_eq!(all.records.len(), 2);
    assert_eq!(none.records.len(), 0);
}

#[test]
fn split_by_a_field_that_batch_headers_lack_fails() {
    let file = two_batches();
    let conditions = vec![equals("amount", "0000000500")];
    assert_eq!(
        file.split_by(&conditions).unwrap_err(),
        TransformError::ConditionEvalFailure
    );
}

#[test]
fn split_error_is_wrapped() {
    let mut file = two_batches();
    let mut entry = file.records[0].batch_records[1].clone();
    entry.amount = Field::new("999999999999", 12);
    file.records[0].batch_records.push(entry);
    let err = file.split(vec!["1234567890".to_string()]).unwrap_err();
    assert_eq!(
        err,
        AchError {
            kind: AchErrorKind::Transform(overflow(
                AchRecordType::CompanyBatchTrailer,
                "total_debit_amount",
                ""
            ))
        }
    );
    assert_eq!(err.to_string(), "ach error");
}

#[test]
fn conditions_short_circuit_from_left_to_right() {
    let file = two_batches();
    let header = &file.records[0].batch_header;
    let yes = equals("sec", "PPD");
    let no = equals("sec", "CCD");
    let bad = equals("amount", "1");
    assert_eq!(yes.holds(header), Ok(true));
    assert_eq!(no.holds(header), Ok(false));
    assert_eq!(bad.holds(header), Err(TransformError::ConditionEvalFailure));
    assert_eq!(one_of("company_id", &["1", "1234567890"]).holds(header), Ok(true));
    assert_eq!(one_of("company_id", &[]).holds(header), Ok(false));
    assert_eq!(
        Condition::And(vec![equals("sec", "CCD"), equals("amount", "1")]).holds(header),
        Ok(false)
    );
    assert_eq!(
        Condition::And(vec![equals("sec", "PPD"), equals("amount", "1")]).holds(header),
        Err(TransformError::ConditionEvalFailure)
    );
    assert_eq!(
        Condition::Or(vec![equals("sec", "PPD"), equals("amount", "1")]).holds(header),
        Ok(true)
    );
    assert_eq!(
        Condition::Or(vec![equals("sec", "CCD"), equals("amount", "1")]).holds(header),
        Err(TransformError::ConditionEvalFailure)
    );
    assert_eq!(Condition::And(vec![]).holds(header), Ok(true));
    assert_eq!(Condition::Or(vec![]).holds(header), Ok(false));
    assert_eq!(Condition::Not(Box::new(equals("sec", "CCD"))).holds(header), Ok(true));
    assert_eq!(
        Condition::Not(Box::new(equals("amount", "1"))).holds(header),
        Err(TransformError::ConditionEvalFailure)
    );
}

#[test]
fn replace_overwrites_the_fields_of_matching_records() {
    let mut file = two_batches();
    let mut s = step(vec![OperationType::Replace], vec![AchRecordType::EntryDetail]);
    s.conditions.push(equals("transactions_code", "22"));
    s.replacements.push(replacement(AchRecordType::EntryDetail, "amount", "0000000001"));
    s.replacements.push(replacement(AchRecordType::Addenda, "addenda_type", "99"));
    assert_eq!(file.replace(&s), Ok(()));
    assert_eq!(file.records[0].batch_records[0].amount.content, "0000000001");
    assert_eq!(file.records[0].batch_records[1].amount.content, "0000002500");
    assert_eq!(file.records[1].batch_records[0].amount.content, "0000000500");
    assert_eq!(file.records[0].batch_records[0].addenda[0].addenda_type.content, "05");
    assert_eq!(file.records[0].batch_trailer.total_credit_amount.content, "000000000001");
    assert_eq!(file.trailer.total_credits.content, "000000000501");
    assert_eq!(file.trailer.total_debits.content, "000000002500");
}

#[test]
fn replace_without_conditions_touches_every_target() {
    let file = two_batches();
    let mut s = step(
        vec![OperationType::Replace],
        vec![AchRecordType::Addenda, AchRecordType::Header],
    );
    s.replacements.push(replacement(AchRecordType::Addenda, "addenda_type", "99"));
    s.replacements.push(replacement(AchRecordType::Header, "file_id_modifier", "Z"));
    s.replacements.push(replacement(AchRecordType::Header, "priority_code", "02"));
    let out = file.replaced(&s).unwrap();
    assert_eq!(out.records[0].batch_records[0].addenda[0].addenda_type.content, "99");
    assert_eq!(out.header.file_id_modifier.content, "Z");
    assert_eq!(out.header.priority_code.content, "02");
    assert_eq!(file.header.file_id_modifier.content, "A");
}

#[test]
fn replace_with_a_value_too_wide_fails_and_changes_nothing() {
    let mut file = two_batches();
    let mut s = step(vec![OperationType::Replace], vec![AchRecordType::EntryDetail]);
    s.replacements.push(replacement(AchRecordType::EntryDetail, "check_digit", "7"));
    s.replacements.push(replacement(AchRecordType::EntryDetail, "amount", "12345678901"));
    assert_eq!(
        file.replace(&s),
        Err(overflow(AchRecordType::EntryDetail, "amount", "12345678901"))
    );
    assert_eq!(file.records[0].batch_records[0].check_digit.content, "0");
    assert_eq!(encode(&file).unwrap(), lines_of(&TWO_BATCHES));
}

#[test]
fn replace_of_a_field_that_the_record_lacks_fails() {
    let mut file = two_batches();
    let mut s = step(vec![OperationType::Replace], vec![AchRecordType::Trailer]);
    s.replacements.push(replacement(AchRecordType::Trailer, "company_id", "1"));
    assert_eq!(file.replace(&s), Err(TransformError::ConditionEvalFailure));
}

#[test]
fn replace_with_a_condition_on_a_missing_field_fails() {
    let mut file = two_batches();
    let mut s = step(vec![OperationType::Replace], vec![AchRecordType::Addenda]);
    s.conditions.push(equals("amount", "1"));
    assert_eq!(file.replace(&s), Err(TransformError::ConditionEvalFailure));
}

#[test]
fn replace_rewrites_derived_fields_from_the_records() {
    let mut file = two_batches();
    let mut s = step(vec![OperationType::Replace], vec![AchRecordType::Trailer]);
    s.replacements.push(replacement(AchRecordType::Trailer, "batch_count", "999999"));
    s.replacements.push(replacement(AchRecordType::Trailer, "reserved", "NOTE"));
    assert_eq!(file.replace(&s), Ok(()));
    assert_eq!(file.trailer.batch_count.content, "000002");
    assert_eq!(file.trailer.reserved.content, "NOTE");
}

#[test]
fn apply_performs_the_steps_in_order() {
    let mut rename = step(vec![OperationType::Replace], vec![AchRecordType::CompanyBatchHeader]);
    rename.conditions.push(equals("company_id", "0987654321"));
    rename.replacements.push(replacement(
        AchRecordType::CompanyBatchHeader,
        "company_id",
        "5555555555",
    ));
    let mut divide = step(vec![OperationType::Split], vec![AchRecordType::CompanyBatchHeader]);
    divide.conditions.push(one_of("company_id", &["5555555555"]));
    let transformations = Transformations { transformations: vec![rename, divide] };
    let files = apply(&transformations, two_batches()).unwrap();
    assert_eq!(files.len(), 2);
    assert_eq!(company_ids(&files[0]), vec!["5555555555"]);
    assert_eq!(company_ids(&files[1]), vec!["1234567890"]);
    let texts = encode_all(&files).unwrap();
    assert_eq!(texts.len(), 2);
    assert_eq!(texts[0].len(), 10);
    assert_eq!(texts[1][..7], lines_of(&ONE_BATCH)[..]);
}

#[test]
fn apply_of_two_splits_yields_four_files() {
    let mut first = step(vec![OperationType::Split, OperationType::Split], vec![]);
    first.conditions.push(equals("company_id", "1234567890"));
    let transformations = Transformations { transformations: vec![first] };
    let files = transformations.apply(two_batches()).unwrap();
    assert_eq!(files.len(), 4);
    assert_eq!(files[0].records.len(), 1);
    assert_eq!(files[1].records.len(), 0);
    assert_eq!(files[2].records.len(), 0);
    assert_eq!(files[3].records.len(), 1);
}

#[test]
fn apply_without_steps_yields_the_file() {
    let transformations = Transformations { transformations: vec![] };
    let files = transformations.apply(two_batches()).unwrap();
    assert_eq!(files.len(), 1);
    assert_eq!(encode(&files[0]).unwrap(), lines_of(&TWO_BATCHES));
}

#[test]
fn apply_stops_at_the_first_failure() {
    let mut bad = step(vec![OperationType::Split], vec![]);
    bad.conditions.push(equals("no_such_field", "x"));
    let good = step(vec![OperationType::Split], vec![]);
    let transformations = Transformations { transformations: vec![good, bad] };
    assert_eq!(
        transformations.apply(two_batches()).unwrap_err(),
        TransformError::ConditionEvalFailure
    );
}

#[test]
fn pipeline_splits_by_the_rules() {
    let rules = lines_of(&[
        "---",
        "by company:",
        "    operation: split",
        "    conditions:",
        "        company_id: [0987654321]",
    ]);
    let texts = process(lines_of(&TWO_BATCHES), &rules).unwrap();
    assert_eq!(texts.len(), 2);
    assert_eq!(texts[0][..5], lines_of(&ONLY_SECOND)[..]);
    assert_eq!(texts[0].len(), 10);
    assert_eq!(texts[1][..7], lines_of(&ONE_BATCH)[..]);
    assert_eq!(texts[1].len(), 10);
}

#[test]
fn pipeline_reports_the_stage_that_failed() {
    let rules = lines_of(&["step:", "    operation: merge"]);
    assert_eq!(
        process(lines_of(&TWO_BATCHES), &rules).unwrap_err().kind,
        AchErrorKind::Config(ConfigError::UnknownOperation)
    );
    let none: Vec<String> = vec![];
    assert_eq!(
        process(lines_of(&TWO_BATCHES[..3]), &none).unwrap_err().kind,
        AchErrorKind::Decode(DecodeError::UnexpectedEof)
    );
    let rules = lines_of(&["step:", "    operation: split", "    conditions:", "        x: 1"]);
    assert_eq!(
        process(lines_of(&TWO_BATCHES), &rules).unwrap_err().kind,
        AchErrorKind::Transform(TransformError::ConditionEvalFailure)
    );
    let mut lines = lines_of(&TWO_BATCHES);
    lines[2].replace_range(78..79, "0");
    assert_eq!(
        process(lines, &none).unwrap_err().kind,
        AchErrorKind::Transform(TransformError::AddendaIndicatorMismatch)
    );
    assert_eq!(load_transformations(&none).unwrap().transformations.len(), 0);
}

#[test]
fn encoded_lines_are_of_the_full_width() {
    let mut file = two_batches();
    file.records[0].batch_header.company_name.content = "X".to_string();
    file.trailer.reserved.content = String::new();
    for line in encode(&file).unwrap() {
        assert_eq!(line.chars().count(), 94);
    }
    let short = parse(lines_of(&["1", "5", "6", "7x", "8", "9"])).unwrap();
    let mut fixed = short.clone();
    fixed.records[0].batch_records[0].addenda_indicator.content = "1".to_string();
    let lines = encode(&fixed).unwrap();
    assert_eq!(lines.len(), 10);
    for line in &lines {
        assert_eq!(line.chars().count(), 94);
    }
    assert_eq!(lines[3], format!("7 x{}", " ".repeat(91)));
}

#[test]
fn trailers_read_back_as_the_aggregates() {
    let mut file = two_batches();
    file.trailer.total_debits = Field::new("", 12);
    file.refresh().unwrap();
    let totals = file.totals().unwrap();
    assert_eq!(number_in(&file.trailer.batch_count), totals.batch_count);
    assert_eq!(number_in(&file.trailer.block_count), totals.block_count);
    assert_eq!(number_in(&file.trailer.entry_and_addenda_count), totals.entry_and_addenda_count);
    assert_eq!(number_in(&file.trailer.entry_hash), totals.entry_hash);
    assert_eq!(number_in(&file.trailer.total_debits), totals.total_debits);
    assert_eq!(number_in(&file.trailer.total_credits), totals.total_credits);
}

#[test]
fn file_without_header_has_a_blank_header() {
    let file = parse(lines_of(&ONLY_SECOND[1..])).unwrap();
    assert_eq!(file.header.immediate_dest.content, "");
    assert_eq!(file.header.immediate_dest.size, 10);
    assert_eq!(encode(&file).unwrap()[0], format!("1{}", " ".repeat(93)));
}

#[test]
fn bytes_are_split_into_lines_of_text() {
    let src = LineSource::from_bytes(b"one\ntwo\r\n\nfour", true);
    assert_eq!(src.lines, vec!["one", "two", "", "four"]);
    assert!(!src.failed);
    assert_eq!(src.next, 0);
    let src = LineSource::from_bytes(b"one\n", true);
    assert_eq!(src.lines, vec!["one"]);
    let src = LineSource::from_bytes(b"\r\n\n\r", true);
    assert_eq!(src.lines, vec!["", "", ""]);
    let src = LineSource::from_bytes(b"", true);
    assert!(src.lines.is_empty());
    assert!(!src.failed);
    let src = LineSource::from_bytes("a\u{e9}b\n\u{4e2d}".as_bytes(), false);
    assert_eq!(src.lines, vec!["a\u{e9}b", "\u{4e2d}"]);
    assert!(src.failed);
}

#[test]
fn text_breaks_off_before_a_line_that_is_no_utf8() {
    let src = LineSource::from_bytes(b"one\ntw\xffo\nthree\n", true);
    assert_eq!(src.lines, vec!["one"]);
    assert!(src.failed);
    let src = LineSource::from_bytes(b"\xc3\n", true);
    assert!(src.lines.is_empty());
    assert!(src.failed);
}

#[test]
fn file_is_decoded_from_bytes() {
    let text = TWO_BATCHES.join("\r\n");
    let file = parse_bytes(text.as_bytes()).unwrap();
    assert_eq!(encode(&file).unwrap(), lines_of(&TWO_BATCHES));
    let text = format!("{}\n", ONE_BATCH.join("\n"));
    let file = parse_bytes(text.as_bytes()).unwrap();
    assert_eq!(encode(&file).unwrap()[..7], lines_of(&ONE_BATCH)[..]);
}

#[test]
fn bytes_that_are_no_text_are_an_io_failure() {
    let mut bytes = TWO_BATCHES[..5].join("\n").into_bytes();
    bytes.extend_from_slice(b"\n8\xff\n");
    assert_eq!(parse_bytes(&bytes).unwrap_err(), DecodeError::IoFailure);
    let mut bytes = TWO_BATCHES.join("\n").into_bytes();
    bytes.extend_from_slice(b"\n\xff\xfe");
    assert!(parse_bytes(&bytes).is_ok());
    assert_eq!(parse_bytes(b"").unwrap_err(), DecodeError::UnexpectedEof);
}
