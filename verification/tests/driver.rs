use ev3_attr::{Device, Driver, Ev3Error, Step};

fn content(text: &str) -> Result<Vec<u8>, String> {
    Ok(text.as_bytes().to_vec())
}

#[test]
fn new_driver_holds_nothing() {
    let driver = Driver::new("tacho-motor", "motor0");
    assert_eq!(driver.class_name(), "tacho-motor");
    assert_eq!(driver.name(), "motor0");
    assert_eq!(driver.len(), 0);
    assert!(!driver.is_open("command"));
    assert!(matches!(driver.get_attribute("command"), Err(Ev3Error::InternalError { .. })));
}

#[test]
fn attribute_is_opened_once() {
    let mut driver = Driver::new("tacho-motor", "motor0");
    assert!(!driver.is_open("speed_sp"));
    let made = driver.open_attribute("speed_sp", Ok(7)).unwrap();
    assert_eq!(made.get_raw_fd(), 7);
    assert_eq!(driver.len(), 1);
    assert!(driver.is_open("speed_sp"));
    let first = driver.get_attribute("speed_sp").unwrap();
    let second = driver.get_attribute("speed_sp").unwrap();
    assert_eq!(first, made);
    assert_eq!(second, made);
    assert_eq!(second.get_raw_fd(), 7);
    assert_eq!(driver.len(), 1);
}

#[test]
fn second_open_of_one_name_is_refused() {
    let mut driver = Driver::new("tacho-motor", "motor0");
    driver.open_attribute("speed_sp", Ok(7)).unwrap();
    match driver.open_attribute("speed_sp", Ok(8)) {
        Err(Ev3Error::InternalError { msg }) => {
            assert_eq!(msg, "Internal error in the attribute map")
        }
        other => panic!("expected an InternalError, got {:?}", other),
    }
    assert!(matches!(
        driver.open_attribute("speed_sp", Err("busy".to_string())),
        Err(Ev3Error::InternalError { .. })
    ));
    assert_eq!(driver.len(), 1);
    assert_eq!(driver.get_attribute("speed_sp").unwrap().get_raw_fd(), 7);
}

#[test]
fn failed_open_is_an_io_error_and_changes_nothing() {
    let mut driver = Driver::new("lego-sensor", "sensor3");
    match driver.open_attribute("value0", Err("No such file or directory".to_string())) {
        Err(Ev3Error::Io { msg }) => assert_eq!(msg, "No such file or directory"),
        other => panic!("expected an Io error, got {:?}", other),
    }
    assert_eq!(driver.len(), 0);
    assert!(!driver.is_open("value0"));
    let made = driver.open_attribute("value0", Ok(11)).unwrap();
    assert_eq!(made.get_raw_fd(), 11);
    assert_eq!(driver.len(), 1);
}

#[test]
fn names_are_kept_apart() {
    let mut driver = Driver::new("tacho-motor", "motor1");
    driver.open_attribute("address", Ok(3)).unwrap();
    driver.open_attribute("command", Ok(4)).unwrap();
    driver.open_attribute("commands", Ok(5)).unwrap();
    assert_eq!(driver.len(), 3);
    assert_eq!(driver.get_attribute("address").unwrap().get_raw_fd(), 3);
    assert_eq!(driver.get_attribute("command").unwrap().get_raw_fd(), 4);
    assert_eq!(driver.get_attribute("commands").unwrap().get_raw_fd(), 5);
    assert!(!driver.is_open("comman"));
    assert!(!driver.is_open(""));
    assert!(matches!(driver.get_attribute("Command"), Err(Ev3Error::InternalError { .. })));
}

#[test]
fn missing_attribute_message() {
    let driver = Driver::new("tacho-motor", "motor0");
    match driver.get_attribute("address") {
        Err(e) => {
            assert!(e.is_fatal());
            assert_eq!(e.message(), "Internal error in the attribute map");
        }
        Ok(a) => panic!("expected an InternalError, got {:?}", a),
    }
}

#[test]
fn set_command_asks_for_one_write_to_command() {
    let mut driver = Driver::new("tacho-motor", "motor0");
    driver.open_attribute("address", Ok(3)).unwrap();
    driver.open_attribute("command", Ok(4)).unwrap();
    let w = driver.set_command("run-forever").unwrap();
    assert_eq!(w.fd, 4);
    assert_eq!(w.text, "run-forever");
    assert_eq!(driver.len(), 2);
}

#[test]
fn device_reads_go_through_their_attributes() {
    let mut driver = Driver::new("tacho-motor", "motor0");
    driver.open_attribute("address", Ok(3)).unwrap();
    driver.open_attribute("commands", Ok(5)).unwrap();
    driver.open_attribute("driver_name", Ok(6)).unwrap();
    assert_eq!(driver.get_address(content("ev3-ports:outA\n")).unwrap(), "ev3-ports:outA");
    assert_eq!(driver.get_driver_name(content("lego-ev3-l-motor\n")).unwrap(), "lego-ev3-l-motor");
    assert_eq!(
        driver.get_commands(content("run-forever run-to-abs-pos stop\n")).unwrap(),
        vec!["run-forever", "run-to-abs-pos", "stop"]
    );
    assert_eq!(Device::get_attribute(&driver, "commands").unwrap().get_raw_fd(), 5);
}

#[test]
fn device_without_the_attribute_fails_with_internal_error() {
    let driver = Driver::new("tacho-motor", "motor0");
    assert!(matches!(driver.set_command("stop"), Err(Ev3Error::InternalError { .. })));
    assert!(matches!(driver.get_address(content("x")), Err(Ev3Error::InternalError { .. })));
    assert!(matches!(driver.get_commands(content("x")), Err(Ev3Error::InternalError { .. })));
    assert!(matches!(driver.get_driver_name(content("x")), Err(Ev3Error::InternalError { .. })));
}

#[test]
fn device_passes_read_failures_on() {
    let mut driver = Driver::new("lego-sensor", "sensor0");
    driver.open_attribute("address", Ok(3)).unwrap();
    driver.open_attribute("commands", Ok(5)).unwrap();
    assert!(matches!(driver.get_address(Err("gone".to_string())), Err(Ev3Error::Io { .. })));
    assert!(matches!(driver.get_address(Ok(vec![0xff])), Err(Ev3Error::Encoding { .. })));
    assert!(matches!(driver.get_commands(Err("gone".to_string())), Err(Ev3Error::Io { .. })));
}

#[test]
fn request_tells_the_one_open_then_the_attribute() {
    let mut driver = Driver::new("tacho-motor", "motor0");
    match driver.request("speed_sp") {
        Step::Open { class_name, name, attribute_name } => {
            assert_eq!(class_name, "tacho-motor");
            assert_eq!(name, "motor0");
            assert_eq!(attribute_name, "speed_sp");
        }
        other => panic!("expected an open, got {:?}", other),
    }
    let made = driver.open_attribute("speed_sp", Ok(7)).unwrap();
    match driver.request("speed_sp") {
        Step::Held(a) => assert_eq!(a, made),
        other => panic!("expected the held attribute, got {:?}", other),
    }
    assert!(matches!(driver.request("position"), Step::Open { .. }));
    assert_eq!(driver.len(), 1);
}

#[test]
fn clone_of_a_driver_shares_its_handles() {
    let mut driver = Driver::new("tacho-motor", "motor0");
    driver.open_attribute("command", Ok(4)).unwrap();
    let copy = driver.clone();
    assert_eq!(copy.class_name(), "tacho-motor");
    assert_eq!(copy.name(), "motor0");
    assert_eq!(copy.len(), 1);
    assert_eq!(copy.get_attribute("command").unwrap(), driver.get_attribute("command").unwrap());
}
