use sam_stats::backend::app_manager::adler32;

#[test]
fn test_adler32() {
    println!("Adler null: {:08x}", adler32(&[]));
    assert_eq!(adler32(&[]), 1);
}

#[test]
fn adler32_of_wikipedia() {
    assert_eq!(adler32(b"Wikipedia"), 0x11E6_0398);
}

#[test]
fn adler32_wraps_both_sums() {
    let data = vec![0xffu8; 5553];
    let mut a: u32 = 1;
    let mut b: u32 = 0;
    for byte in &data {
        a = (a + *byte as u32) % 65521;
        b = (b + a) % 65521;
    }
    assert_eq!(adler32(&data), (b << 16) | a);
    assert!(a < 65521 && b < 65521);
}

#[test]
fn adler32_of_a_concatenation() {
    let m: i64 = 65521;
    let parts: [(&[u8], &[u8]); 4] = [(b"Wiki", b"pedia"), (b"", b"abc"), (b"abc", b""), (&[0xff; 700], &[0x80; 9000])];
    for (x, y) in parts {
        let xy: Vec<u8> = x.iter().chain(y.iter()).copied().collect();
        let (ax, bx) = ((adler32(x) & 0xffff) as i64, (adler32(x) >> 16) as i64);
        let (ay, by) = ((adler32(y) & 0xffff) as i64, (adler32(y) >> 16) as i64);
        let a = (ax + ay - 1).rem_euclid(m);
        let b = (bx + by + y.len() as i64 * (ax - 1)).rem_euclid(m);
        assert_eq!(adler32(&xy), ((b as u32) << 16) | a as u32);
    }
}
