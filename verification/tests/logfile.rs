use helium_api::logfile::{log_dir, log_file_name, log_line};

#[test]
fn log_paths() {
    assert_eq!(log_dir("0315"), "log/0315");
    assert_eq!(log_file_name("0315", &[0xab, 1, 2]), "log/0315/id00ab.txt");
    assert_eq!(log_file_name("1231", &[0x05]), format!("log/1231/id{:04x}.txt", 5));
}

#[test]
fn log_lines() {
    assert_eq!(log_line(1700000000123, &[1, 2, 255]), "1700000000123:[1, 2, 255]\n");
    assert_eq!(log_line(0, &[0]), "0:[0]\n");
    assert_eq!(log_line(-42, &[]), "-42:[]\n");
    assert_eq!(log_line(i64::MIN, &[10]), format!("{}:{:?}\n", i64::MIN, vec![10u8]));
    let packet: Vec<u8> = (0..40).collect();
    assert_eq!(log_line(i64::MAX, &packet), format!("{}:{:?}\n", i64::MAX, packet));
}
