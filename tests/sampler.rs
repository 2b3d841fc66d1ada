use deepcool_digital::cpu::{convert_temperature, is_supported_sensor, max_frequency, model_name_span, parse_energy_range, temperature_from_reading, Cpu};

#[test]
fn power_without_wraparound_rounds_half_up() {
    let cpu = Cpu::new(None, 1_000_000_000);
    // 2.5 J over one second rounds to 3 W.
    assert_eq!(cpu.get_power(1_000_000, 1000, 3_500_000), 3);
    // 2.4 J over one second rounds to 2 W.
    assert_eq!(cpu.get_power(1_000_000, 1000, 3_400_000), 2);
    // 45 J over 500 ms is 90 W.
    assert_eq!(cpu.get_power(10_000_000, 500, 55_000_000), 90);
}

#[test]
fn power_is_capped() {
    let cpu = Cpu::new(None, u64::MAX);
    assert_eq!(cpu.get_power(1, 1, 5_000_000), 999);
    assert_eq!(cpu.get_power(1, 1000, 999_499_999), 999);
    assert_eq!(cpu.get_power(1, 1000, 998_400_000), 998);
}

#[test]
fn power_with_wraparound() {
    let cpu = Cpu::new(None, 1_000_000);
    // (1_000_000 + 400_000) - 900_000 = 500_000 uJ over 100 ms: 5 W.
    assert_eq!(cpu.get_power(900_000, 100, 400_000), 5);
    let big = Cpu::new(None, 262_143_328_850);
    assert_eq!(big.get_power(262_100_000_000, 1000, 56_671_150), 100);
}

#[test]
fn power_is_zero_without_inputs() {
    let none = Cpu::new(None, 0);
    assert_eq!(none.get_power(200_000, 1000, 250_000_000), 0);
    let cpu = Cpu::new(None, 1_000_000_000);
    assert_eq!(cpu.get_power(0, 1000, 250_000_000), 0);
    assert_eq!(cpu.get_power(200_000, 0, 250_000_000), 0);
    assert_eq!(cpu.get_power(200_000, 1000, 0), 0);
}

#[test]
fn power_sub_watt_rounds_to_zero() {
    let cpu = Cpu::new(None, 1_000_000);
    assert_eq!(cpu.get_power(200_000, 1000, 250_000), 0);
}

#[test]
fn temperature_without_sensor_is_zero() {
    let cpu = Cpu::new(None, 0);
    assert_eq!(cpu.get_temp(Some("45000\n"), false), 0);
    assert_eq!(cpu.get_temp(Some("45000\n"), true), 0);
    assert_eq!(cpu.get_temp(None, true), 0);
    assert!(cpu.warn_temp());
    assert!(cpu.warn_rapl());
}

#[test]
fn temperature_from_sensor_text() {
    let cpu = Cpu::new(Some("/sys/class/hwmon/hwmon1/temp1_input".to_string()), 0);
    assert!(!cpu.warn_temp());
    assert_eq!(cpu.get_temp(Some("45000\n"), false), 45);
    assert_eq!(cpu.get_temp(Some("45000\n"), true), 113);
    assert_eq!(cpu.get_temp(Some("37500"), false), 38);
    assert_eq!(cpu.get_temp(Some("37499 \n"), false), 37);
    assert_eq!(cpu.get_temp(None, false), 0);
    assert_eq!(cpu.get_temp(Some("n/a\n"), false), 0);
    assert_eq!(cpu.get_temp(Some(""), false), 0);
    assert_eq!(cpu.get_temp(Some(" 45000"), false), 0);
    assert_eq!(cpu.get_temp(Some("4294967296"), false), 0);
}

#[test]
fn fahrenheit_conversion() {
    // 37500 * 9 / 5 + 32000 = 99500, which rounds to 100.
    assert_eq!(convert_temperature(37_500, true), 100);
    assert_eq!(convert_temperature(37_500, false), 38);
    assert_eq!(convert_temperature(0, true), 32);
    assert_eq!(convert_temperature(100_000, true), 212);
    assert_eq!(convert_temperature(300_000, false), 255);
    assert_eq!(convert_temperature(u32::MAX, true), 255);
    assert_eq!(convert_temperature(499, false), 0);
    assert_eq!(convert_temperature(500, false), 1);
    assert_eq!(temperature_from_reading("+50000\n", false), 50);
}

#[test]
fn energy_reading() {
    let none = Cpu::new(None, 0);
    assert_eq!(none.read_energy(Some("123456\n")), 0);
    let cpu = Cpu::new(None, 262_143_328_850);
    assert_eq!(cpu.max_energy(), 262_143_328_850);
    assert!(!cpu.warn_rapl());
    assert_eq!(cpu.read_energy(Some("123456\n")), 123_456);
    assert_eq!(cpu.read_energy(Some("18446744073709551615")), u64::MAX);
    assert_eq!(cpu.read_energy(Some("18446744073709551616")), 0);
    assert_eq!(cpu.read_energy(Some("12a")), 0);
    assert_eq!(cpu.read_energy(None), 0);
}

#[test]
fn energy_range_text() {
    assert_eq!(parse_energy_range("262143328850\n"), 262_143_328_850);
    assert_eq!(parse_energy_range("  65532610987 \n"), 65_532_610_987);
    assert_eq!(parse_energy_range(""), 0);
    assert_eq!(parse_energy_range("-1"), 0);
}

#[test]
fn usage_is_clamped() {
    let cpu = Cpu::new(None, 0);
    assert_eq!(cpu.get_usage(-3), 0);
    assert_eq!(cpu.get_usage(0), 0);
    assert_eq!(cpu.get_usage(57), 57);
    assert_eq!(cpu.get_usage(100), 100);
    assert_eq!(cpu.get_usage(104), 100);
    assert_eq!(cpu.get_usage(i64::MIN), 0);
    assert_eq!(cpu.get_usage(i64::MAX), 100);
}

#[test]
fn supported_sensor_names() {
    assert!(is_supported_sensor("coretemp\n"));
    assert!(is_supported_sensor("k10temp\n"));
    assert!(is_supported_sensor("zenpower"));
    assert!(is_supported_sensor(" asusec \n"));
    assert!(!is_supported_sensor("nvme\n"));
    assert!(!is_supported_sensor("coretemp2"));
    assert!(!is_supported_sensor(""));
}

#[test]
fn highest_core_frequency() {
    let info = "processor\t: 0\ncpu MHz\t\t: 3400.123\nmodel name\t: X\n\nprocessor\t: 1\ncpu MHz\t\t: 4199.500\r\ncpu MHz\t\t: 800.000\n";
    assert_eq!(max_frequency(info), 4200);
    let cpu = Cpu::new(None, 0);
    assert_eq!(cpu.get_frequency(info), 4200);
    assert_eq!(max_frequency("cpu MHz : 1234.4"), 1234);
    assert_eq!(max_frequency("cpu MHz: 99999999\n"), 65535);
    assert_eq!(max_frequency("cpu MHz : abc\ncpu MHz : 12.\n"), 12);
    assert_eq!(max_frequency("cpu MHz : .6\n"), 1);
    assert_eq!(max_frequency("cpu MHz 3000\nbogomips : 5000\n"), 0);
    assert_eq!(max_frequency(""), 0);
}

#[test]
fn model_name_field() {
    let info = "processor\t: 0\nvendor_id\t: AuthenticAMD\nmodel name\t: AMD Ryzen 7 5800X 8-Core Processor\nmodel name\t: other\n";
    let (b, e) = model_name_span(info).unwrap();
    assert_eq!(&info[b..e], "AMD Ryzen 7 5800X 8-Core Processor");
    assert_eq!(model_name_span("processor : 0\n"), None);
    assert_eq!(model_name_span("model name without colon\nmodel name : X\n"), None);
    let (b, e) = model_name_span("model name:\n").unwrap();
    assert_eq!(b, e);
}

#[test]
fn sensor_path_is_kept() {
    let path = "/sys/class/hwmon/hwmon3/temp1_input".to_string();
    let cpu = Cpu::new(Some(path.clone()), 0);
    assert_eq!(cpu.temp_sensor(), Some(&path));
    let none = Cpu::new(None, 5);
    assert_eq!(none.temp_sensor(), None);
}
