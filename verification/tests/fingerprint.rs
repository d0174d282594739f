use phase::fingerprint::{card_fingerprint, size_bucket_gb};
use sha2::Digest;

fn gb_tenths(tenths: u64) -> u64 {
    tenths * 100_000_000
}

#[test]
fn buckets_to_whichever_of_round_20_or_power_of_2_is_closer_from_above() {
    assert_eq!(size_bucket_gb(gb_tenths(638)), 64);
    assert_eq!(size_bucket_gb(gb_tenths(1087)), 120);
    assert_eq!(size_bucket_gb(gb_tenths(5101)), 512);
    assert_eq!(size_bucket_gb(gb_tenths(5040)), 512);
}

#[test]
fn never_undersells_the_card() {
    for tenth in 1..2000 {
        let bytes = gb_tenths(tenth);
        assert!(size_bucket_gb(bytes) * 1_000_000_000 >= bytes);
    }
}

#[test]
fn zero_or_negative_is_zero() {
    assert_eq!(size_bucket_gb(0), 0);
    // A size cannot be negative in bytes; the smallest card is one gigabyte.
    assert_eq!(size_bucket_gb(1), 1);
}

#[test]
fn a_card_is_named_by_its_size_and_the_digest_of_what_identifies_it() {
    let fp = card_fingerprint('E', "NIKON Z 7".into(), 0x88c2_52aa, "exFAT".into(), 63_864_569_856);
    let digest = sha2::Sha256::digest(b"88C252AA|63864569856|exFAT");
    let hex: String = digest.iter().map(|b| format!("{b:02x}")).collect();
    assert_eq!(fp.signature, hex[..16]);
    assert_eq!(fp.friendly_name, format!("64GB_{}", &hex[..6]));
    assert_eq!(fp.drive_letter, 'E');
    assert_eq!(fp.label, "NIKON Z 7");
    assert_eq!(fp.total_bytes, 63_864_569_856);
}

#[test]
fn a_serial_is_written_with_eight_digits() {
    let fp = card_fingerprint('F', String::new(), 0xab, "FAT32".into(), 2_000_000_000);
    let digest = sha2::Sha256::digest(b"000000AB|2000000000|FAT32");
    let hex: String = digest.iter().map(|b| format!("{b:02x}")).collect();
    assert_eq!(fp.signature, hex[..16]);
    assert_eq!(fp.friendly_name, format!("2GB_{}", &hex[..6]));
}
