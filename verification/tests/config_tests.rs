use ach_lib_rs::ach_transformations::{load_transformations, Transformations};
use ach_lib_rs::condition::Condition;
use ach_lib_rs::config::{
    list_items, load_steps, record_types, tokenize, OperationType, Replacement, RuleLine, Steps,
};
use ach_lib_rs::error::ConfigError;
use ach_lib_rs::layout::AchRecordType;
use ach_lib_rs::text::{find_char, indent, str_eq, substring, trim, make_blanks};

fn lines_of(lines: &[&str]) -> Vec<String> {
    lines.iter().map(|l| l.to_string()).collect()
}

fn load(lines: &[&str]) -> Result<Vec<Steps>, ConfigError> {
    load_steps(&lines_of(lines))
}

fn shape(c: &Condition) -> String {
    match c {
        Condition::FieldEquals { field, value } => format!("{}={}", field, value),
        Condition::FieldIn { field, values } => format!("{} in {}", field, values.join("|")),
        Condition::And(cs) => format!("and({})", cs.iter().map(shape).collect::<Vec<_>>().join(",")),
        Condition::Or(cs) => format!("or({})", cs.iter().map(shape).collect::<Vec<_>>().join(",")),
        Condition::Not(c) => format!("not({})", shape(c)),
    }
}

#[test]
fn text_helpers() {
    assert_eq!(indent("   \tab "), 4);
    assert_eq!(indent(""), 0);
    assert_eq!(indent("   "), 3);
    assert_eq!(trim("  a b \t\r"), "a b");
    assert_eq!(trim("   "), "");
    assert_eq!(trim(""), "");
    assert_eq!(find_char("a:b:c", ':', 0), 1);
    assert_eq!(find_char("a:b:c", ':', 2), 3);
    assert_eq!(find_char("a:b:c", ':', 4), 5);
    assert_eq!(find_char("abc", ':', 3), 3);
    assert_eq!(substring("hello", 1, 3), "el");
    assert!(str_eq("abc", "abc"));
    assert!(!str_eq("abc", "abd"));
    assert_eq!(make_blanks(3), "   ");
}

#[test]
fn rule_line_is_taken_apart_at_its_colon() {
    let line = RuleLine::parse("    operation:  [split, replace] ").unwrap();
    assert_eq!(line.indent, 4);
    assert_eq!(line.key, "operation");
    assert_eq!(line.value, "[split, replace]");
    let label = RuleLine::parse("my step:").unwrap();
    assert_eq!(label.indent, 0);
    assert_eq!(label.key, "my step");
    assert_eq!(label.value, "");
}

#[test]
fn line_without_colon_is_malformed() {
    assert_eq!(RuleLine::parse("operation split").unwrap_err(), ConfigError::MalformedLine);
    assert_eq!(RuleLine::parse("").unwrap_err(), ConfigError::MalformedLine);
}

#[test]
fn line_with_two_colons_is_malformed() {
    assert_eq!(RuleLine::parse("a: b: c").unwrap_err(), ConfigError::MalformedLine);
    assert_eq!(
        load(&["step:", "    operation: split:"]).unwrap_err(),
        ConfigError::MalformedLine
    );
}

#[test]
fn values_are_scalars_or_lists() {
    assert_eq!(list_items("[a, b ,c]"), vec!["a", "b", "c"]);
    assert_eq!(list_items("[a]"), vec!["a"]);
    assert_eq!(list_items("[]"), Vec::<String>::new());
    assert_eq!(list_items("[  ]"), Vec::<String>::new());
    assert_eq!(list_items("[a,,b]"), vec!["a", "", "b"]);
    assert_eq!(list_items("[a,]"), vec!["a", ""]);
    assert_eq!(list_items("split"), vec!["split"]);
    assert_eq!(list_items("[split"), vec!["[split"]);
    assert_eq!(list_items(""), Vec::<String>::new());
}

#[test]
fn operations_are_named() {
    assert_eq!(OperationType::new_vec("split"), Ok(vec![OperationType::Split]));
    assert_eq!(
        OperationType::new_vec("[replace, split]"),
        Ok(vec![OperationType::Replace, OperationType::Split])
    );
    assert_eq!(OperationType::new_vec(""), Ok(vec![]));
    assert_eq!(OperationType::new_vec("[split, merge]"), Err(ConfigError::UnknownOperation));
    assert_eq!(OperationType::new_vec("SPLIT"), Err(ConfigError::UnknownOperation));
    assert_eq!(OperationType::from_name("replace"), Some(OperationType::Replace));
}

#[test]
fn record_types_are_named() {
    assert_eq!(
        record_types("[Header, CompanyBatchHeader, EntryDetail, Addenda, CompanyBatchTrailer, Trailer]"),
        Ok(vec![
            AchRecordType::Header,
            AchRecordType::CompanyBatchHeader,
            AchRecordType::EntryDetail,
            AchRecordType::Addenda,
            AchRecordType::CompanyBatchTrailer,
            AchRecordType::Trailer,
        ])
    );
    assert_eq!(record_types("Batch"), Err(ConfigError::UnknownRecordType));
}

#[test]
fn rule_file_is_read_into_steps() {
    let steps = load(&[
        "---",
        "move the ledger company:",
        "    operation: [replace, split]",
        "    on: [CompanyBatchHeader, EntryDetail]",
        "    conditions:",
        "        or:",
        "            company_id: [1234567890, 0987654321]",
        "            not:",
        "                sec: PPD",
        "        company_name: ACME",
        "    replacements:",
        "        CompanyBatchHeader.company_name: NEW NAME",
        "        EntryDetail.discretionary_data:",
        "second:",
        "    operation: split",
    ])
    .unwrap();
    assert_eq!(steps.len(), 2);
    let first = &steps[0];
    assert_eq!(first.label, "move the ledger company");
    assert_eq!(first.operation, vec![OperationType::Replace, OperationType::Split]);
    assert_eq!(first.on, vec![AchRecordType::CompanyBatchHeader, AchRecordType::EntryDetail]);
    assert_eq!(
        first.conditions.iter().map(shape).collect::<Vec<_>>(),
        vec![
            "or(company_id in 1234567890|0987654321,not(and(sec=PPD)))",
            "company_name=ACME",
        ]
    );
    assert_eq!(first.replacements.len(), 2);
    assert_eq!(first.replacements[0].record, AchRecordType::CompanyBatchHeader);
    assert_eq!(first.replacements[0].field, "company_name");
    assert_eq!(first.replacements[0].replace_with, "NEW NAME");
    assert_eq!(first.replacements[1].record, AchRecordType::EntryDetail);
    assert_eq!(first.replacements[1].field, "discretionary_data");
    assert_eq!(first.replacements[1].replace_with, "");
    let second = &steps[1];
    assert_eq!(second.label, "second");
    assert_eq!(second.operation, vec![OperationType::Split]);
    assert_eq!(second.on, vec![AchRecordType::Header]);
    assert!(second.conditions.is_empty());
    assert!(second.replacements.is_empty());
}

#[test]
fn marker_is_passed_over_only_at_the_start() {
    assert_eq!(load(&["---"]).unwrap().len(), 0);
    assert_eq!(load(&[]).unwrap().len(), 0);
    assert_eq!(load(&["  ---  ", "a:", " operation: split"]).unwrap().len(), 1);
    assert_eq!(load(&["a:", "---"]).unwrap_err(), ConfigError::MalformedLine);
}

#[test]
fn steps_start_at_the_base_indentation_or_left_of_it() {
    let steps = load(&[
        "  a:",
        "    operation: split",
        "  b:",
        "   operation: [split, split]",
        "c:",
        "      operation: replace",
    ])
    .unwrap();
    assert_eq!(steps.iter().map(|s| s.label.as_str()).collect::<Vec<_>>(), vec!["a", "b", "c"]);
    assert_eq!(steps[0].operation, vec![OperationType::Split]);
    assert_eq!(steps[1].operation, vec![OperationType::Split, OperationType::Split]);
    assert_eq!(steps[2].operation, vec![OperationType::Replace]);
}

#[test]
fn settings_add_up() {
    let steps = load(&[
        "a:",
        "  operation: split",
        "  on: Trailer",
        "  operation: [replace]",
        "  on: [Addenda]",
        "  conditions:",
        "    x: 1",
        "  conditions:",
        "    y: [2]",
    ])
    .unwrap();
    assert_eq!(steps[0].operation, vec![OperationType::Split, OperationType::Replace]);
    assert_eq!(steps[0].on, vec![AchRecordType::Trailer, AchRecordType::Addenda]);
    assert_eq!(steps[0].conditions.iter().map(shape).collect::<Vec<_>>(), vec!["x=1", "y in 2"]);
}

#[test]
fn label_with_a_value_is_malformed() {
    assert_eq!(load(&["a: b"]).unwrap_err(), ConfigError::MalformedLine);
}

#[test]
fn unknown_key_is_an_error() {
    assert_eq!(load(&["a:", "  operations: split"]).unwrap_err(), ConfigError::UnknownKey);
    assert_eq!(
        load(&["a:", "  replacements:", "    Header.company_id: 1"]).unwrap_err(),
        ConfigError::UnknownKey
    );
}

#[test]
fn unknown_operation_is_an_error() {
    assert_eq!(load(&["a:", "  operation: merge"]).unwrap_err(), ConfigError::UnknownOperation);
}

#[test]
fn step_without_operation_is_an_error() {
    assert_eq!(load(&["a:"]).unwrap_err(), ConfigError::UnknownOperation);
    assert_eq!(load(&["a:", "  on: Header"]).unwrap_err(), ConfigError::UnknownOperation);
    assert_eq!(load(&["a:", "  operation: []"]).unwrap_err(), ConfigError::UnknownOperation);
    assert_eq!(
        load(&["a:", "  operation: split", "b:"]).unwrap_err(),
        ConfigError::UnknownOperation
    );
}

#[test]
fn unknown_record_type_is_an_error() {
    assert_eq!(load(&["a:", "  on: [Header, Footer]"]).unwrap_err(), ConfigError::UnknownRecordType);
    assert_eq!(
        load(&["a:", "  replacements:", "    Footer.reserved: 1"]).unwrap_err(),
        ConfigError::UnknownRecordType
    );
}

#[test]
fn misplaced_lines_are_malformed() {
    assert_eq!(
        load(&["a:", "  operation: split", "    deeper: 1"]).unwrap_err(),
        ConfigError::MalformedLine
    );
    assert_eq!(
        load(&["a:", "  conditions: x", "    y: 1"]).unwrap_err(),
        ConfigError::MalformedLine
    );
    assert_eq!(
        load(&["a:", "  conditions:", "    and: x"]).unwrap_err(),
        ConfigError::MalformedLine
    );
    assert_eq!(
        load(&["a:", "  conditions:", "    x: 1", "      y: 2"]).unwrap_err(),
        ConfigError::MalformedLine
    );
    assert_eq!(
        load(&["a:", "  replacements:", "    company_id: 1"]).unwrap_err(),
        ConfigError::MalformedLine
    );
}

#[test]
fn malformed_line_anywhere_fails_the_whole_file() {
    assert_eq!(
        load(&["a:", "  operation: merge", "b"]).unwrap_err(),
        ConfigError::MalformedLine
    );
}

#[test]
fn blocks_end_where_the_indentation_returns() {
    let lines = tokenize(&lines_of(&["a:", "  or:", "    c:", "  d:", "e:"])).unwrap();
    assert_eq!(lines.iter().map(|l| l.indent).collect::<Vec<_>>(), vec![0, 2, 4, 2, 0]);
    assert_eq!(lines[2].key, "c");
    let steps = load(&[
        "a:",
        "  conditions:",
        "    or:",
        "        c: 1",
        "      d: 2",
        "     and:",
        "    e: 3",
        "  on: Trailer",
        "  operation: replace",
        "b:",
        "  operation: split",
    ])
    .unwrap();
    assert_eq!(steps.len(), 2);
    assert_eq!(
        steps[0].conditions.iter().map(shape).collect::<Vec<_>>(),
        vec!["or(c=1,d=2,and())", "e=3"]
    );
    assert_eq!(steps[0].on, vec![AchRecordType::Trailer]);
}

#[test]
fn replacement_names_record_and_field() {
    let line = RuleLine::parse("  Trailer.reserved: X Y").unwrap();
    let rep = Replacement::parse(&line).unwrap();
    assert_eq!(rep.record, AchRecordType::Trailer);
    assert_eq!(rep.field, "reserved");
    assert_eq!(rep.replace_with, "X Y");
}

#[test]
fn transformations_are_loaded_from_lines() {
    let text = lines_of(&["a:", "  operation: split", "b:", "  operation: replace"]);
    let t = Transformations::load(&text).unwrap();
    assert_eq!(t.transformations.len(), 2);
    assert_eq!(t.transformations[1].operation, vec![OperationType::Replace]);
    assert_eq!(
        load_transformations(&lines_of(&["a:", "  frobnicate: 1"])).unwrap_err(),
        ConfigError::UnknownKey
    );
}
