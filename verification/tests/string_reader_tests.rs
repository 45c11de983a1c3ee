use ach_lib_rs::string_reader::StringReader;

const LOREM: &str = "lorem ipsum dolor sit amet";

#[test]
fn test_read() {
    let mut subject = StringReader::new(LOREM.to_string());
    println!("left: {}", LOREM);
    println!("right: {:?}", subject);
    let res = subject.read(LOREM.len());
    assert_eq!(LOREM, res);
    println!("left: {}", LOREM.len());
    println!("right (after): {:?}", subject);
    assert_eq!(LOREM.len(), subject.pos)
}

#[test]
fn test_read_twice() {
    let mut subject = StringReader::new(LOREM.to_string());
    println!("left: {}", LOREM);
    println!("right: {:?}", subject);
    let res = subject.read(LOREM.len() / 2);
    assert_eq!(LOREM[0..13], res);
    println!("First read complete, performing second.");
    println!("left: {}", LOREM.len());
    println!("right: {:?}", subject);
    assert_eq!(LOREM[13..LOREM.len()], subject.read(31));
    println!("right (after): {:?}", subject)
}

#[test]
fn test_read_past_end() {
    let mut subject = StringReader::new(LOREM.to_string());
    println!("left: {}", LOREM);
    println!("right: {:?}", subject);
    println!("right len: {}", subject.len());
    let res = subject.read(LOREM.len() + 5);
    assert_eq!(LOREM, res);
    println!("left: {}", LOREM.len());
    println!("right (after): {:?}", subject);
    assert_eq!(LOREM.len(), subject.pos)
}

#[test]
fn test_read_at_end() {
    let mut subject = StringReader {
        inner: LOREM.to_string(),
        pos: LOREM.len(),
    };
    let res = subject.read(1);
    println!("left is an empty String");
    println!("right: {:?}", res);
    assert_eq!("", res)
}

#[test]
fn test_len() {
    let subject = StringReader::new(LOREM.to_string());
    println!("left: {}", LOREM.len());
    println!("right: {}", subject.len());
    assert_eq!(LOREM.len(), subject.len())
}

#[test]
fn test_seek() {
    let mut subject = StringReader::new(LOREM.to_string());
    let compare = StringReader {
        inner: LOREM.to_string(),
        pos: 15,
    };
    subject.seek(15);
    println!("left: {:?}", compare);
    println!("right: {:?}", subject);
    assert_eq!(format!("{:?}", compare), format!("{:?}", subject))
}

#[test]
fn read_of_zero_width_is_empty_and_does_not_move() {
    let mut subject = StringReader::new(LOREM.to_string());
    subject.seek(3);
    assert_eq!("", subject.read(0));
    assert_eq!(3, subject.pos);
    assert_eq!("em", subject.read(2));
    assert_eq!(5, subject.pos);
}

#[test]
fn seek_beyond_the_end_stops_at_the_end() {
    let mut subject = StringReader::new(LOREM.to_string());
    subject.seek(1000);
    assert_eq!(LOREM.len(), subject.pos);
    assert_eq!("", subject.read(4));
}

#[test]
fn read_counts_characters() {
    let mut subject = StringReader::new("añb".to_string());
    assert_eq!(3, subject.len());
    assert_eq!("añ", subject.read(2));
    assert_eq!("b", subject.read(5));
}
