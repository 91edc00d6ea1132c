use samd51_hid_injector::protocol::{
    format_i16, hex_digit, hex_to_nibble, parse_int, parse_u8_from_slice, write_str, Command,
};
use samd51_hid_injector::descriptor_cache::CacheStats;

fn command(code: u8, payload: &[u8]) -> Command {
    let mut bytes = [0u8; 128];
    bytes[..payload.len()].copy_from_slice(payload);
    Command { code, payload: bytes, length: payload.len() }
}

#[test]
fn uart_frame_of_a_mouse_command() {
    let frame = command(0x11, &[0x00, 0x0A, 0xFB, 0x00, 0x00]).to_uart_frame();
    let mut expected = Vec::new();
    expected.extend_from_slice(b"[CMD:11] [LEN:0005] ");
    expected.extend_from_slice(&[0x00, 0x0A, 0xFB, 0x00, 0x00]);
    // 0x11 + 0x0A + 0xFB = 0x116: the sum is kept within 8 bits.
    expected.extend_from_slice(b" [CKSUM:16]\n");
    assert_eq!(&frame[..expected.len()], &expected[..]);
    assert!(frame[expected.len()..].iter().all(|&b| b == 0));
}

#[test]
fn uart_frame_without_payload() {
    let frame = command(0xA5, &[]).to_uart_frame();
    let expected = b"[CMD:A5] [LEN:0000]  [CKSUM:A5]\n";
    assert_eq!(&frame[..32], &expected[..]);
    assert!(frame[32..].iter().all(|&b| b == 0));
}

#[test]
fn uart_frame_with_full_payload() {
    let payload: Vec<u8> = (0..128u32).map(|i| (i * 3) as u8).collect();
    let frame = command(0xFF, &payload).to_uart_frame();
    assert_eq!(&frame[..20], b"[CMD:FF] [LEN:0080] ");
    assert_eq!(&frame[20..148], &payload[..]);
    let sum = payload.iter().fold(0xFFu8, |s, &b| s.wrapping_add(b));
    let tail = format!(" [CKSUM:{:02X}]\n", sum);
    assert_eq!(&frame[148..160], tail.as_bytes());
    assert!(frame[160..].iter().all(|&b| b == 0));
}

#[test]
fn uart_frame_uses_only_the_payload_in_use() {
    let mut cmd = command(0x01, &[1, 2, 3, 4]);
    cmd.length = 2;
    let frame = cmd.to_uart_frame();
    assert_eq!(&frame[..34], b"[CMD:01] [LEN:0002] \x01\x02 [CKSUM:04]\n");
    assert_eq!(frame[34], 0);
}

#[test]
fn hex_digits_are_upper_case() {
    let digits: Vec<u8> = (0..16u8).map(hex_digit).collect();
    assert_eq!(&digits[..], b"0123456789ABCDEF");
    assert_eq!(hex_digit(0x10), b'0');
    assert_eq!(hex_digit(0xAB), b'B');
    assert_eq!(hex_digit(0xFF), b'F');
}

#[test]
fn hex_values_in_either_case() {
    for (i, c) in b"0123456789abcdef".iter().enumerate() {
        assert_eq!(hex_to_nibble(*c), Some(i as u8));
    }
    for (i, c) in b"ABCDEF".iter().enumerate() {
        assert_eq!(hex_to_nibble(*c), Some(10 + i as u8));
    }
    for c in [b'/', b':', b'@', b'G', b'`', b'g', b' ', 0u8, 0xFF] {
        assert_eq!(hex_to_nibble(c), None);
    }
}

#[test]
fn u8_is_read_from_leading_digits() {
    assert_eq!(parse_u8_from_slice(b"0"), Some(0));
    assert_eq!(parse_u8_from_slice(b"7,1)"), Some(7));
    assert_eq!(parse_u8_from_slice(b"255"), Some(255));
    assert_eq!(parse_u8_from_slice(b"256"), Some(0));
    assert_eq!(parse_u8_from_slice(b"1000"), Some(232));
    assert_eq!(parse_u8_from_slice(b"00012x"), Some(12));
    assert_eq!(parse_u8_from_slice(b""), None);
    assert_eq!(parse_u8_from_slice(b" 1"), None);
    assert_eq!(parse_u8_from_slice(b"-1"), None);
    assert_eq!(parse_u8_from_slice(b"x1"), None);
}

#[test]
fn int_is_read_with_sign_and_spaces() {
    assert_eq!(parse_int(b"10"), Some(10));
    assert_eq!(parse_int(b"-5"), Some(-5));
    assert_eq!(parse_int(b"  42)"), Some(42));
    assert_eq!(parse_int(b"  -42 "), Some(-42));
    assert_eq!(parse_int(b""), Some(0));
    assert_eq!(parse_int(b"x"), Some(0));
    assert_eq!(parse_int(b"-"), Some(0));
    assert_eq!(parse_int(b"32767"), Some(32767));
    assert_eq!(parse_int(b"-32767"), Some(-32767));
}

#[test]
fn int_out_of_range_wraps_around() {
    assert_eq!(parse_int(b"32768"), Some(-32768));
    assert_eq!(parse_int(b"-32768"), Some(-32768));
    assert_eq!(parse_int(b"65536"), Some(0));
    assert_eq!(parse_int(b"65537"), Some(1));
    assert_eq!(parse_int(b"-65537"), Some(-1));
    assert_eq!(parse_int(b"100000"), Some((100000i32 - 131072) as i16));
}

fn formatted(value: i16) -> Vec<u8> {
    let mut buf = [0xEEu8; 8];
    let n = format_i16(value, &mut buf);
    assert!(buf[n..].iter().all(|&b| b == 0xEE));
    buf[..n].to_vec()
}

#[test]
fn i16_is_written_in_decimal() {
    assert_eq!(formatted(0), b"0");
    assert_eq!(formatted(7), b"7");
    assert_eq!(formatted(10), b"10");
    assert_eq!(formatted(-1), b"-1");
    assert_eq!(formatted(1234), b"1234");
    assert_eq!(formatted(-9050), b"-9050");
    assert_eq!(formatted(32767), b"32767");
    assert_eq!(formatted(-32767), b"-32767");
    for value in [-30000i16, -123, -10, -9, 9, 99, 100, 4096, 20000] {
        assert_eq!(formatted(value), value.to_string().as_bytes());
    }
}

#[test]
fn the_least_i16_is_written_as_its_sign() {
    assert_eq!(formatted(i16::MIN), b"-");
}

#[test]
fn write_str_appends_what_fits() {
    let mut buf = [0u8; 8];
    let mut len = 0usize;
    write_str(&mut buf, b"abc", &mut len);
    assert_eq!(len, 3);
    assert_eq!(&buf, b"abc\0\0\0\0\0");
    write_str(&mut buf, b"", &mut len);
    assert_eq!(len, 3);
    write_str(&mut buf, b"defgh", &mut len);
    assert_eq!(len, 8);
    assert_eq!(&buf, b"abcdefgh");
    len = 6;
    write_str(&mut buf, b"XYZ", &mut len);
    assert_eq!(len, 8);
    assert_eq!(&buf, b"abcdefXY");
    write_str(&mut buf, b"more", &mut len);
    assert_eq!(len, 8);
    assert_eq!(&buf, b"abcdefXY");
}

#[test]
fn stats_are_formatted_on_one_line() {
    let stats = CacheStats { total_devices: 3, keyboards: 1, mice: 2, gamepads: 0, other: 10 };
    assert_eq!(stats.format().as_str(), "Devices:3 K:1 M:2 G:0 O:10");
    let large = CacheStats {
        total_devices: usize::MAX,
        keyboards: usize::MAX,
        mice: usize::MAX,
        gamepads: usize::MAX,
        other: usize::MAX,
    };
    let m = usize::MAX;
    assert_eq!(large.format().as_str(), format!("Devices:{} K:{} M:{} G:{} O:{}", m, m, m, m, m));
}
