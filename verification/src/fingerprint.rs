//! What names a memory card: a signature of its volume serial, size and file system, and
//! a label a person can glance at, such as `64GB_88c252`. Reading those from the drive is
//! the caller's.
use vstd::prelude::*;
use crate::auth::{sha256_digest, sha256_of_text};
use crate::ingest::CardFingerprint;
use crate::text::{chars_of, dec, dec_u64, extend, extend_str, string_of};

verus! {

/// A gigabyte as cards are sold: 10^9 bytes.
pub const GB: u64 = 1_000_000_000;

/// The least multiple of 20 GB that holds `bytes`, in GB.
pub open spec fn round20_gb(bytes: nat) -> nat {
    (((bytes + 20 * GB - 1) as nat) / (20 * GB as nat)) * 20
}

/// The least power of two GB, from `p` GB on, that holds `bytes`.
pub open spec fn pow2_gb_from(bytes: nat, p: nat) -> nat
    decreases bytes - p,
{
    if p == 0 || p * GB >= bytes {
        p
    } else {
        pow2_gb_from(bytes, 2 * p)
    }
}

/// The size a card is sold as: whichever of the next multiple of 20 GB and the next power
/// of two GB is smaller, never less than the card holds; nothing for an empty card.
pub open spec fn bucket_gb(bytes: nat) -> nat {
    if bytes == 0 {
        0
    } else {
        let a = round20_gb(bytes);
        let b = pow2_gb_from(bytes, 1);
        if a <= b {
            a
        } else {
            b
        }
    }
}

pub fn size_bucket_gb(total_bytes: u64) -> (r: u64)
    ensures
        r == bucket_gb(total_bytes as nat),
{
    if total_bytes == 0 {
        return 0;
    }
    let a: u128 = (total_bytes as u128 + 20 * GB as u128 - 1) / (20 * GB as u128) * 20;
    let mut p: u64 = 1;
    while (p as u128) * (GB as u128) < total_bytes as u128
        invariant
            p >= 1,
            p == 1 || (p as nat) * GB <= 2 * (total_bytes as nat),
            pow2_gb_from(total_bytes as nat, p as nat) == pow2_gb_from(total_bytes as nat, 1),
        decreases total_bytes - p,
    {
        assert((p as nat) * GB < total_bytes as nat);
        assert((2 * p as nat) * GB <= 2 * (total_bytes as nat)) by (nonlinear_arith)
            requires
                (p as nat) * GB < total_bytes as nat,
        ;
        p = p * 2;
    }
    assert(pow2_gb_from(total_bytes as nat, p as nat) == p);
    assert(a <= 20 * (total_bytes as nat)) by (nonlinear_arith)
        requires
            a == (total_bytes as u128 + 20 * GB as u128 - 1) / (20 * GB as u128) * 20,
            total_bytes >= 1,
    ;
    if a <= p as u128 {
        a as u64
    } else {
        p
    }
}

pub open spec fn hex_digit(d: nat, upper: bool) -> char {
    if d < 10 {
        (('0' as nat) + d) as char
    } else if upper {
        (('A' as nat) + (d - 10)) as char
    } else {
        (('a' as nat) + (d - 10)) as char
    }
}

proof fn lemma_pow2_gb_holds(bytes: nat, p: nat)
    requires
        p >= 1,
    ensures
        pow2_gb_from(bytes, p) * GB >= bytes,
        pow2_gb_from(bytes, p) >= p,
    decreases bytes - p,
{
    if p * GB < bytes {
        lemma_pow2_gb_holds(bytes, 2 * p);
    }
}

/// The size a card is labelled with never undersells it: the card holds no more than that
/// many gigabytes, and only an empty card is labelled 0 GB.
pub proof fn law_bucket_never_undersells(bytes: nat)
    ensures
        bucket_gb(bytes) * GB >= bytes,
        bytes > 0 ==> bucket_gb(bytes) >= 1,
        bytes == 0 ==> bucket_gb(bytes) == 0,
{
    if bytes > 0 {
        lemma_pow2_gb_holds(bytes, 1);
        let q = ((bytes + 20 * GB - 1) as nat) / (20 * GB as nat);
        assert(q * (20 * GB as nat) >= bytes) by (nonlinear_arith)
            requires
                q == ((bytes + 20 * GB - 1) as nat) / (20 * GB as nat),
                bytes > 0,
        ;
        assert(round20_gb(bytes) * GB == q * (20 * GB as nat)) by (nonlinear_arith)
            requires
                round20_gb(bytes) == q * 20,
        ;
        assert(q >= 1) by (nonlinear_arith)
            requires
                q == ((bytes + 20 * GB - 1) as nat) / (20 * GB as nat),
                bytes > 0,
        ;
    }
}

/// `n` in hexadecimal with exactly `digits` digits, most significant first: the low
/// digits of `{n:0digits$X}` (or `x`).
pub open spec fn hex_fixed(n: nat, digits: nat, upper: bool) -> Seq<char>
    decreases digits,
{
    if digits == 0 {
        Seq::empty()
    } else {
        hex_fixed(n / 16, (digits - 1) as nat, upper).push(hex_digit(n % 16, upper))
    }
}

fn hex_char(d: u8, upper: bool) -> (r: char)
    requires
        d < 16,
    ensures
        r == hex_digit(d as nat, upper),
{
    if d < 10 {
        (48u8 + d) as char
    } else if upper {
        (65u8 + (d - 10)) as char
    } else {
        (97u8 + (d - 10)) as char
    }
}

fn hex_fixed_exec(n: u64, digits: u8, upper: bool) -> (r: Vec<char>)
    ensures
        r@ == hex_fixed(n as nat, digits as nat, upper),
    decreases digits,
{
    if digits == 0 {
        Vec::new()
    } else {
        let mut v = hex_fixed_exec(n / 16, digits - 1, upper);
        v.push(hex_char((n % 16) as u8, upper));
        v
    }
}

/// Bytes in lower-case hexadecimal, two digits each.
pub open spec fn hex_bytes(b: Seq<u8>) -> Seq<char>
    decreases b.len(),
{
    if b.len() == 0 {
        Seq::empty()
    } else {
        hex_bytes(b.drop_last()) + hex_fixed(b.last() as nat, 2, false)
    }
}

fn hex_bytes_exec(b: &Vec<u8>, count: usize) -> (r: Vec<char>)
    requires
        count <= b@.len(),
    ensures
        r@ == hex_bytes(b@.take(count as int)),
{
    let mut out: Vec<char> = Vec::new();
    let mut i: usize = 0;
    assert(b@.take(0) =~= Seq::<u8>::empty());
    while i < count
        invariant
            i <= count,
            count <= b@.len(),
            out@ == hex_bytes(b@.take(i as int)),
        decreases count - i,
    {
        let h = hex_fixed_exec(b[i] as u64, 2, false);
        extend(&mut out, &h);
        assert(b@.take(i + 1).drop_last() =~= b@.take(i as int));
        i += 1;
    }
    out
}

/// What a card's signature is a digest of: `{serial:08X}|{total bytes}|{file system}`.
pub open spec fn canonical_text(serial: u32, total_bytes: u64, fs_type: Seq<char>) -> Seq<char> {
    hex_fixed(serial as nat, 8, true) + "|"@ + dec(total_bytes as nat) + "|"@ + fs_type
}

/// The signature: the first 16 hexadecimal digits of the digest of the canonical text.
pub open spec fn signature_text(serial: u32, total_bytes: u64, fs_type: Seq<char>) -> Seq<char> {
    hex_bytes(sha256_of_text(canonical_text(serial, total_bytes, fs_type)).take(8))
}

/// The label: the size the card is sold as and the start of its signature.
pub open spec fn friendly_text(total_bytes: u64, signature: Seq<char>) -> Seq<char> {
    dec(bucket_gb(total_bytes as nat)) + "GB_"@ + signature.take(6)
}

/// A card's fingerprint from what its drive reports.
pub fn card_fingerprint(drive_letter: char, label: String, serial: u32, fs_type: String, total_bytes: u64) -> (r: CardFingerprint)
    ensures
        r.drive_letter == drive_letter,
        r.label@ == label@,
        r.volume_serial == serial,
        r.fs_type@ == fs_type@,
        r.total_bytes == total_bytes,
        r.signature@ == signature_text(serial, total_bytes, fs_type@),
        r.friendly_name@ == friendly_text(total_bytes, signature_text(serial, total_bytes, fs_type@)),
{
    let mut canonical = hex_fixed_exec(serial as u64, 8, true);
    extend_str(&mut canonical, "|");
    let d = dec_u64(total_bytes);
    extend(&mut canonical, &d);
    extend_str(&mut canonical, "|");
    let f = chars_of(fs_type.as_str());
    extend(&mut canonical, &f);
    let text = string_of(&canonical);
    let digest = sha256_digest(text.as_str());
    let sig = hex_bytes_exec(&digest, 8);
    proof {
        lemma_hex_bytes_len(digest@.take(8));
    }
    let mut friendly = dec_u64(size_bucket_gb(total_bytes));
    extend_str(&mut friendly, "GB_");
    let mut k: usize = 0;
    while k < 6
        invariant
            k <= 6,
            sig@.len() == 16,
            friendly@ == dec(bucket_gb(total_bytes as nat)) + "GB_"@ + sig@.take(k as int),
        decreases 6 - k,
    {
        friendly.push(sig[k]);
        k += 1;
        assert(friendly@ =~= dec(bucket_gb(total_bytes as nat)) + "GB_"@ + sig@.take(k as int));
    }
    CardFingerprint {
        drive_letter,
        label,
        volume_serial: serial,
        fs_type,
        total_bytes,
        signature: string_of(&sig),
        friendly_name: string_of(&friendly),
    }
}

proof fn lemma_hex_fixed_len(n: nat, digits: nat, upper: bool)
    ensures
        hex_fixed(n, digits, upper).len() == digits,
    decreases digits,
{
    if digits > 0 {
        lemma_hex_fixed_len(n / 16, (digits - 1) as nat, upper);
    }
}

proof fn lemma_hex_bytes_len(b: Seq<u8>)
    ensures
        hex_bytes(b).len() == 2 * b.len(),
    decreases b.len(),
{
    if b.len() > 0 {
        lemma_hex_bytes_len(b.drop_last());
        lemma_hex_fixed_len(b.last() as nat, 2, false);
    }
}

} // verus!
