use ev3_attr::attribute::{list_of_decoded, text_of_decoded, value_of_text};
use ev3_attr::{Attribute, AttributeValue, Ev3Error};

fn attribute(fd: i32) -> Attribute {
    Attribute::new(Ok(fd)).unwrap()
}

fn content(text: &str) -> Result<Vec<u8>, String> {
    Ok(text.as_bytes().to_vec())
}

#[test]
fn new_keeps_the_descriptor() {
    assert_eq!(attribute(5).get_raw_fd(), 5);
    assert_eq!(attribute(0).get_raw_fd(), 0);
    assert_eq!(attribute(5), attribute(5));
    assert_ne!(attribute(5), attribute(6));
}

#[test]
fn new_reports_a_failed_open_as_io_error() {
    let r = Attribute::new(Err("No such file or directory (os error 2)".to_string()));
    match r {
        Err(Ev3Error::Io { msg }) => assert_eq!(msg, "No such file or directory (os error 2)"),
        other => panic!("expected an Io error, got {:?}", other),
    }
}

#[test]
fn get_integer() {
    let r: Result<i64, Ev3Error> = attribute(3).get(content("42"));
    assert_eq!(r.unwrap(), 42);
}

#[test]
fn get_integer_ignores_the_trailing_newline() {
    let r: Result<i64, Ev3Error> = attribute(3).get(content("-360\n"));
    assert_eq!(r.unwrap(), -360);
}

#[test]
fn get_integer_from_text_that_is_none() {
    let r: Result<i64, Ev3Error> = attribute(3).get(content("abc"));
    match r {
        Err(Ev3Error::Parse { msg }) => assert_eq!(msg, "invalid digit found in string"),
        other => panic!("expected a Parse error, got {:?}", other),
    }
}

#[test]
fn get_integer_from_empty_content() {
    let r: Result<i64, Ev3Error> = attribute(3).get(content("\n"));
    match r {
        Err(Ev3Error::Parse { msg }) => assert_eq!(msg, "cannot parse integer from empty string"),
        other => panic!("expected a Parse error, got {:?}", other),
    }
}

#[test]
fn get_integer_keeps_leading_whitespace() {
    let r: Result<i64, Ev3Error> = attribute(3).get(content(" 42"));
    assert!(matches!(r, Err(Ev3Error::Parse { .. })));
}

#[test]
fn get_string() {
    let r: Result<String, Ev3Error> = attribute(3).get(content("in1:i2c8\n"));
    assert_eq!(r.unwrap(), "in1:i2c8");
}

#[test]
fn get_reports_a_failed_read_as_io_error() {
    let r: Result<i64, Ev3Error> = attribute(3).get(Err("No such device".to_string()));
    match r {
        Err(Ev3Error::Io { msg }) => assert_eq!(msg, "No such device"),
        other => panic!("expected an Io error, got {:?}", other),
    }
}

#[test]
fn get_reports_bytes_that_are_no_utf8() {
    let r: Result<String, Ev3Error> = attribute(3).get(Ok(vec![0x34, 0xff, 0xfe]));
    match r {
        Err(Ev3Error::Encoding { msg }) => {
            assert_eq!(msg, "invalid utf-8 sequence of 1 bytes from index 1");
            assert_eq!(msg, String::from_utf8(vec![0x34, 0xff, 0xfe]).unwrap_err().to_string());
        }
        other => panic!("expected an Encoding error, got {:?}", other),
    }
    let overlong: Result<i64, Ev3Error> = attribute(3).get(Ok(vec![0xc0, 0x80]));
    assert!(matches!(overlong, Err(Ev3Error::Encoding { .. })));
    match attribute(3).get::<String>(Ok(vec![0xe2, 0x82])) {
        Err(Ev3Error::Encoding { msg }) => {
            assert_eq!(msg, "incomplete utf-8 byte sequence from index 0")
        }
        other => panic!("expected an Encoding error, got {:?}", other),
    }
}

#[test]
fn get_str_decodes_and_trims() {
    assert_eq!(attribute(1).get_str(content("lego-ev3-l-motor\n")).unwrap(), "lego-ev3-l-motor");
    assert_eq!(attribute(1).get_str(content("größe \n")).unwrap(), "größe");
    assert_eq!(attribute(1).get_str(Ok(vec![0xe2, 0x82, 0xac, 0x0a])).unwrap(), "€");
    assert!(matches!(attribute(1).get_str(Ok(vec![0x80])), Err(Ev3Error::Encoding { .. })));
    assert!(matches!(attribute(1).get_str(Err("gone".to_string())), Err(Ev3Error::Io { .. })));
}

#[test]
fn get_vec_on_lines() {
    let r = attribute(4).get_vec(content("run-forever\nrun-to-abs-pos\nstop"));
    assert_eq!(r.unwrap(), vec!["run-forever", "run-to-abs-pos", "stop"]);
}

#[test]
fn get_vec_on_one_line() {
    let r = attribute(4).get_vec(content("run-forever run-to-abs-pos stop"));
    assert_eq!(r.unwrap(), vec!["run-forever", "run-to-abs-pos", "stop"]);
}

#[test]
fn get_vec_failures() {
    assert_eq!(attribute(4).get_vec(content("\n")).unwrap(), Vec::<String>::new());
    assert!(matches!(attribute(4).get_vec(Err("gone".to_string())), Err(Ev3Error::Io { .. })));
    match attribute(4).get_vec(Ok(vec![0x61, 0x20, 0xff])) {
        Err(Ev3Error::Encoding { msg }) => {
            assert_eq!(msg, "invalid utf-8 sequence of 1 bytes from index 2")
        }
        other => panic!("expected an Encoding error, got {:?}", other),
    }
}

#[test]
fn set_asks_for_one_whole_value_write() {
    let w = attribute(9).set(1050i64);
    assert_eq!(w.fd, 9);
    assert_eq!(w.text, "1050");
    let w = attribute(9).set("brake".to_string());
    assert_eq!(w.fd, 9);
    assert_eq!(w.text, "brake");
}

#[test]
fn set_str_slice_writes_the_text_as_it_is() {
    let w = attribute(2).set_str_slice("run-forever");
    assert_eq!(w.fd, 2);
    assert_eq!(w.text, "run-forever");
    let w = attribute(2).set_str("coast ");
    assert_eq!(w.text, "coast ");
}

#[test]
fn set_then_get_gives_the_integer_back() {
    let samples = [0i64, 1, -1, 42, -360, 1000, i64::MAX, i64::MIN];
    for v in samples {
        let a = attribute(6);
        let w = a.set(v);
        let r: Result<i64, Ev3Error> = a.get(Ok(w.text.as_bytes().to_vec()));
        assert_eq!(r.unwrap(), v);
    }
}

#[test]
fn set_then_get_gives_the_string_back() {
    let a = attribute(6);
    let w = a.set("run-direct".to_string());
    let r: Result<String, Ev3Error> = a.get(Ok(w.text.as_bytes().to_vec()));
    assert_eq!(r.unwrap(), "run-direct");
}

#[test]
fn written_reports_the_outcome_of_the_write() {
    assert!(Attribute::written(Ok(())).is_ok());
    match Attribute::written(Err("Invalid argument (os error 22)".to_string())) {
        Err(Ev3Error::Io { msg }) => assert_eq!(msg, "Invalid argument (os error 22)"),
        other => panic!("expected an Io error, got {:?}", other),
    }
}

#[test]
fn values_have_their_text() {
    assert_eq!(17i64.to_text(), "17");
    assert_eq!("hold".to_string().to_text(), "hold");
    assert_eq!(<i64 as AttributeValue>::from_text("-8"), Ok(-8));
    assert_eq!(
        <i64 as AttributeValue>::from_text("eight"),
        Err("invalid digit found in string".to_string())
    );
    assert_eq!(<String as AttributeValue>::from_text("eight"), Ok("eight".to_string()));
}

#[test]
fn errors_tell_their_message_and_kind() {
    let io = Ev3Error::Io { msg: "a".to_string() };
    let encoding = Ev3Error::Encoding { msg: "b".to_string() };
    let parse = Ev3Error::Parse { msg: "c".to_string() };
    let internal = Ev3Error::InternalError { msg: "d".to_string() };
    assert_eq!(io.message(), "a");
    assert_eq!(encoding.message(), "b");
    assert_eq!(parse.message(), "c");
    assert_eq!(internal.message(), "d");
    assert!(io.is_io() && !io.is_fatal());
    assert!(!encoding.is_io() && !encoding.is_fatal());
    assert!(!parse.is_io() && !parse.is_fatal());
    assert!(!internal.is_io() && internal.is_fatal());
}

#[test]
fn get_32_bit_integer() {
    let r: Result<i32, Ev3Error> = attribute(3).get(content("2147483647\n"));
    assert_eq!(r.unwrap(), i32::MAX);
    let r: Result<i32, Ev3Error> = attribute(3).get(content("-2147483648"));
    assert_eq!(r.unwrap(), i32::MIN);
    let r: Result<i32, Ev3Error> = attribute(3).get(content("2147483648"));
    match r {
        Err(Ev3Error::Parse { msg }) => assert_eq!(msg, "number too large to fit in target type"),
        other => panic!("expected a Parse error, got {:?}", other),
    }
    let r: Result<i32, Ev3Error> = attribute(3).get(content("-2147483649"));
    match r {
        Err(Ev3Error::Parse { msg }) => assert_eq!(msg, "number too small to fit in target type"),
        other => panic!("expected a Parse error, got {:?}", other),
    }
    let w = attribute(3).set(-75i32);
    assert_eq!(w.text, "-75");
    let back: Result<i32, Ev3Error> = attribute(3).get(Ok(w.text.as_bytes().to_vec()));
    assert_eq!(back.unwrap(), -75);
}

#[test]
fn get_unsigned_integer() {
    let r: Result<u8, Ev3Error> = attribute(3).get(content("100\n"));
    assert_eq!(r.unwrap(), 100);
    match attribute(3).get::<u8>(content("-1\n")) {
        Err(Ev3Error::Parse { msg }) => assert_eq!(msg, "invalid digit found in string"),
        other => panic!("expected a Parse error, got {:?}", other),
    }
    match attribute(3).get::<u16>(content("65536")) {
        Err(Ev3Error::Parse { msg }) => assert_eq!(msg, "number too large to fit in target type"),
        other => panic!("expected a Parse error, got {:?}", other),
    }
    let w = attribute(3).set(u64::MAX);
    assert_eq!(w.text, "18446744073709551615");
    assert_eq!(attribute(3).get::<u64>(Ok(w.text.as_bytes().to_vec())).unwrap(), u64::MAX);
}

#[test]
fn decoded_content_becomes_text_list_or_error() {
    assert_eq!(text_of_decoded(Ok("brake \n".to_string())).unwrap(), "brake");
    assert_eq!(list_of_decoded(Ok("a b\n".to_string())).unwrap(), vec!["a", "b"]);
    match text_of_decoded(Err("bad bytes".to_string())) {
        Err(Ev3Error::Encoding { msg }) => assert_eq!(msg, "bad bytes"),
        other => panic!("expected an Encoding error, got {:?}", other),
    }
    match list_of_decoded(Err("bad bytes".to_string())) {
        Err(Ev3Error::Encoding { msg }) => assert_eq!(msg, "bad bytes"),
        other => panic!("expected an Encoding error, got {:?}", other),
    }
}

#[test]
fn text_becomes_value_or_parse_error() {
    assert_eq!(value_of_text::<i16>("-75").unwrap(), -75);
    assert_eq!(value_of_text::<String>("hold").unwrap(), "hold");
    match value_of_text::<i8>("128") {
        Err(Ev3Error::Parse { msg }) => assert_eq!(msg, "number too large to fit in target type"),
        other => panic!("expected a Parse error, got {:?}", other),
    }
}
