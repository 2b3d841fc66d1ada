use deepcool_digital::cpu::Cpu;
use deepcool_digital::display::{checksum, encode_packet, float_bits, header_template, Display, PACKET_LEN, TERMINATOR};

fn sensor_cpu(range: u64) -> Cpu {
    Cpu::new(Some("/sys/class/hwmon/hwmon2/temp1_input".to_string()), range)
}

fn sum_mod(p: &[u8]) -> u8 {
    (p[1..=15].iter().map(|&x| x as u32).sum::<u32>() % 256) as u8
}

#[test]
fn template_layout() {
    let t = header_template();
    assert_eq!(t.len(), PACKET_LEN);
    assert_eq!(&t[0..8], &[16, 104, 1, 2, 11, 1, 2, 5]);
    assert!(t[8..].iter().all(|&b| b == 0));
}

#[test]
fn float_bits_match_f32() {
    for n in 0..=255u8 {
        assert_eq!(float_bits(n), (n as f32).to_bits(), "n = {}", n);
    }
    assert_eq!(float_bits(45), 0x4234_0000);
}

#[test]
fn checksum_covers_bytes_one_to_fifteen() {
    let mut p = header_template();
    for (i, b) in p.iter_mut().enumerate() {
        *b = (i as u8).wrapping_mul(37);
    }
    let c = checksum(&p);
    assert_eq!(c, sum_mod(&p));
    let mut q = p.clone();
    q[0] = q[0].wrapping_add(1);
    q[16] = 0xaa;
    q[17] = 0x55;
    q[40] = 7;
    assert_eq!(checksum(&q), c);
    let mut r = p.clone();
    r[15] = r[15].wrapping_add(1);
    assert_ne!(checksum(&r), c);
    let mut s = p.clone();
    s[1] = s[1].wrapping_add(3);
    assert_ne!(checksum(&s), c);
}

#[test]
fn encoded_packet_layout() {
    let base = header_template();
    let p = encode_packet(&base, 0x0123, true, 45, 77);
    assert_eq!(p.len(), PACKET_LEN);
    assert_eq!(&p[0..8], &base[0..8]);
    assert_eq!(p[8], 0x01);
    assert_eq!(p[9], 0x23);
    assert_eq!(p[10], 1);
    assert_eq!(&p[11..15], &45.0f32.to_be_bytes());
    assert_eq!(p[15], 77);
    assert_eq!(p[16], sum_mod(&p));
    assert_eq!(p[17], TERMINATOR);
    assert_eq!(p[17], 22);
    assert!(p[18..].iter().all(|&b| b == 0));
}

#[test]
fn scenario_sensor_and_counter() {
    let d = Display::new(sensor_cpu(1_000_000), 1000, false);
    assert_eq!(d.update_ms(), 1000);
    assert!(!d.fahrenheit());
    assert_eq!(d.cpu().max_energy(), 1_000_000);
    let p = d.status_packet(200_000, 250_000, Some("45000\n"), 12);
    assert_eq!(&p[11..15], &45.0f32.to_be_bytes());
    assert_eq!(p[10], 0);
    assert_eq!(&p[8..10], &[0, 0]);
    assert_eq!(p[15], 12);
    assert_eq!(p[16], sum_mod(&p));
    assert_eq!(p[17], 22);
}

#[test]
fn scenario_power_shown() {
    let d = Display::new(sensor_cpu(1_000_000_000), 1000, false);
    let p = d.status_packet(200_000, 65_700_000, Some("45000\n"), 12);
    assert_eq!(u16::from_be_bytes([p[8], p[9]]), 66);
    let q = d.status_packet(200_000, 2_000_200_000, Some("45000\n"), 12);
    assert_eq!(u16::from_be_bytes([q[8], q[9]]), 999);
}

#[test]
fn scenario_no_energy_counter() {
    let d = Display::new(sensor_cpu(0), 1000, false);
    let p = d.status_packet(200_000, 250_000_000, Some("45000\n"), 50);
    assert_eq!(&p[8..10], &[0, 0]);
    assert_eq!(&p[11..15], &45.0f32.to_be_bytes());
    let q = d.status_packet(0, 0, Some("45000\n"), 50);
    assert_eq!(&q[8..10], &[0, 0]);
}

#[test]
fn scenario_no_temperature_sensor() {
    let d = Display::new(Cpu::new(None, 1_000_000), 1000, true);
    let p = d.status_packet(200_000, 250_000, Some("45000\n"), 100);
    assert_eq!(&p[11..15], &0.0f32.to_be_bytes());
    assert_eq!(p[10], 1);
    let c = Display::new(Cpu::new(None, 1_000_000), 1000, false);
    let q = c.status_packet(200_000, 250_000, None, 100);
    assert_eq!(&q[11..15], &0.0f32.to_be_bytes());
    assert_eq!(q[10], 0);
}

#[test]
fn scenario_fahrenheit_packet() {
    let d = Display::new(sensor_cpu(1_000_000), 1000, true);
    let p = d.status_packet(200_000, 250_000, Some("45000\n"), 140);
    assert_eq!(p[10], 1);
    assert_eq!(&p[11..15], &113.0f32.to_be_bytes());
    assert_eq!(p[15], 100);
}
