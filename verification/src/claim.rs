use vstd::prelude::*;
use vstd::utf8::encode_utf8;

use crate::paths::{join, join_spec};
use crate::text::{ascii_alphanumeric, chars_of, is_ascii_alphanumeric, push_char};

verus! {

/// FNV-1a 64-bit offset basis.
pub const FNV_OFFSET_BASIS: u64 = 0xcbf2_9ce4_8422_2325;

/// FNV-1a 64-bit prime.
pub const FNV_PRIME: u64 = 0x0000_0100_0000_01b3;

/// Longest readable label kept in front of the hash in a claim file name.
pub const CLAIM_LABEL_MAX: usize = 80;

/// Lower-case hexadecimal digits, by value.
pub const HEX_DIGITS: [char; 16] = [
    '0', '1', '2', '3', '4', '5', '6', '7', '8', '9', 'a', 'b', 'c', 'd', 'e', 'f',
];

/// FNV-1a over a byte sequence: xor each byte in, then multiply modulo 2^64.
pub open spec fn fnv1a64_spec(bytes: Seq<u8>) -> u64
    decreases bytes.len(),
{
    if bytes.len() == 0 {
        FNV_OFFSET_BASIS
    } else {
        (fnv1a64_spec(bytes.drop_last()) ^ (bytes.last() as u64)).wrapping_mul(FNV_PRIME)
    }
}

/// The character that stands for `c` in a claim label: ASCII letters, digits,
/// `.` and `-` stay, everything else becomes `_`.
pub open spec fn sanitize_char(c: char) -> char {
    if is_ascii_alphanumeric(c) || c == '.' || c == '-' {
        c
    } else {
        '_'
    }
}

/// The readable part of a claim file name: the checkout path with every
/// character sanitized, cut to its last `CLAIM_LABEL_MAX` characters.
pub open spec fn claim_label(path: Seq<char>) -> Seq<char> {
    let label = path.map_values(|c: char| sanitize_char(c));
    if label.len() > CLAIM_LABEL_MAX {
        label.skip(label.len() - CLAIM_LABEL_MAX)
    } else {
        label
    }
}

/// The `i`-th of the 16 hexadecimal digits of `h`, most significant first.
pub open spec fn nibble(h: u64, i: int) -> u64 {
    (h >> ((60 - 4 * i) as u64)) & 0xf
}

/// `h` written as exactly 16 lower-case hexadecimal digits, most significant first.
pub open spec fn hex16(h: u64) -> Seq<char> {
    Seq::new(16, |i: int| HEX_DIGITS@[nibble(h, i) as int])
}

/// The claim file name of a checkout path: its label, a `-`, and the FNV-1a
/// hash of the path's UTF-8 bytes in 16 hex digits.
pub open spec fn claim_file_name_spec(path: Seq<char>) -> Seq<char> {
    claim_label(path) + seq!['-'] + hex16(fnv1a64_spec(encode_utf8(path)))
}

/// The 64-bit FNV-1a hash of `bytes`.
pub fn fnv1a64(bytes: &[u8]) -> (hash: u64)
    ensures
        hash == fnv1a64_spec(bytes@),
{
    let mut hash: u64 = FNV_OFFSET_BASIS;
    let mut i: usize = 0;
    while i < bytes.len()
        invariant
            i <= bytes@.len(),
            hash == fnv1a64_spec(bytes@.take(i as int)),
        decreases bytes@.len() - i,
    {
        assert(bytes@.take(i + 1).drop_last() =~= bytes@.take(i as int));
        hash = (hash ^ (bytes[i] as u64)).wrapping_mul(FNV_PRIME);
        i = i + 1;
    }
    assert(bytes@.take(i as int) =~= bytes@);
    hash
}

/// Appends `hash` to `out` as 16 lower-case hex digits.
fn push_hex16(out: &mut String, hash: u64)
    ensures
        final(out)@ == old(out)@ + hex16(hash),
{
    let ghost start = out@;
    let mut i: u64 = 0;
    while i < 16
        invariant
            i <= 16,
            out@ == start + hex16(hash).take(i as int),
        decreases 16 - i,
    {
        let shift: u64 = 60 - 4 * i;
        let digit = (hash >> shift) & 0xf;
        assert((hash >> shift) & 0xf < 16) by (bit_vector);
        push_char(out, HEX_DIGITS[digit as usize]);
        assert(hex16(hash).take(i + 1) =~= hex16(hash).take(i as int).push(hex16(hash)[i as int]));
        i = i + 1;
    }
    assert(hex16(hash).take(16) =~= hex16(hash));
}

/// The file name that claims `checkout_path`.
///
/// Distinct checkouts can sanitize to the same label (`/a/b` and `/a_b`), so
/// the hash of the original path keeps them apart; the label is cut so that
/// the name stays within file name limits.
pub fn claim_file_name(checkout_path: &str) -> (name: String)
    ensures
        name@ == claim_file_name_spec(checkout_path@),
        name@.len() <= CLAIM_LABEL_MAX + 17,
{
    let chars = chars_of(checkout_path);
    let n = chars.len();
    let start: usize = if n > CLAIM_LABEL_MAX { n - CLAIM_LABEL_MAX } else { 0 };
    let ghost label = checkout_path@.map_values(|c: char| sanitize_char(c));
    let mut name = String::new();
    let mut i: usize = start;
    while i < n
        invariant
            start <= i <= n,
            n == chars@.len(),
            chars@ == checkout_path@,
            label == checkout_path@.map_values(|c: char| sanitize_char(c)),
            name@ == label.subrange(start as int, i as int),
        decreases n - i,
    {
        let c = chars[i];
        let kept = if ascii_alphanumeric(c) || c == '.' || c == '-' { c } else { '_' };
        push_char(&mut name, kept);
        assert(label.subrange(start as int, i + 1) =~= label.subrange(start as int, i as int).push(label[i as int]));
        i = i + 1;
    }
    assert(name@ =~= claim_label(checkout_path@));
    push_char(&mut name, '-');
    let hash = fnv1a64(checkout_path.as_bytes());
    push_hex16(&mut name, hash);
    assert(name@ =~= claim_file_name_spec(checkout_path@));
    name
}


/// Where the claims live: one file per worktree checkout under `dir`.
///
/// The files are created with `O_EXCL` so that overlapping events race on the
/// filesystem instead of on a lock that would have to be held.
pub struct ClaimStore {
    dir: String,
}

impl View for ClaimStore {
    type V = Seq<char>;

    /// The claims directory.
    closed spec fn view(&self) -> Seq<char> {
        self.dir@
    }
}

impl ClaimStore {
    /// The store kept in the `claims` directory under `state_dir`.
    pub fn new(state_dir: &str) -> (store: ClaimStore)
        ensures
            store@ == join_spec(state_dir@, "claims"@),
    {
        ClaimStore { dir: join(state_dir, "claims") }
    }

    /// The claims directory.
    pub fn dir(&self) -> (dir: &str)
        ensures
            dir@ == self@,
    {
        self.dir.as_str()
    }

    /// The file that claims `checkout_path`.
    pub fn path_for(&self, checkout_path: &str) -> (path: String)
        ensures
            path@ == join_spec(self@, claim_file_name_spec(checkout_path@)),
    {
        let name = claim_file_name(checkout_path);
        join(self.dir.as_str(), name.as_str())
    }
}


proof fn lemma_shift_by_nibble(x: u64, sh: u64)
    requires
        sh <= 56,
    ensures
        x >> sh == ((x >> ((sh + 4) as u64)) << 4u64) | ((x >> sh) & 0xf),
{
    let sh4: u64 = (sh + 4) as u64;
    assert(x >> sh == ((x >> sh4) << 4u64) | ((x >> sh) & 0xf)) by (bit_vector)
        requires
            sh <= 56,
            sh4 == sh + 4,
    ;
}

/// Equal leading digits give equal leading parts: the first `k + 1` hex
/// digits of `x` and `y` agree, so do `x` and `y` shifted right past the rest.
proof fn lemma_leading_digits_determine(x: u64, y: u64, k: int)
    requires
        0 <= k < 16,
        forall|i: int| 0 <= i <= k ==> #[trigger] nibble(x, i) == nibble(y, i),
    ensures
        x >> ((60 - 4 * k) as u64) == y >> ((60 - 4 * k) as u64),
    decreases k,
{
    if k == 0 {
        assert(nibble(x, 0) == nibble(y, 0));
        assert(x >> 60u64 == (x >> 60u64) & 0xf) by (bit_vector);
        assert(y >> 60u64 == (y >> 60u64) & 0xf) by (bit_vector);
    } else {
        lemma_leading_digits_determine(x, y, k - 1);
        let sh: u64 = (60 - 4 * k) as u64;
        assert(nibble(x, k) == nibble(y, k));
        lemma_shift_by_nibble(x, sh);
        lemma_shift_by_nibble(y, sh);
    }
}

/// Sixteen hex digits determine the number they spell.
pub proof fn lemma_hex16_injective(x: u64, y: u64)
    requires
        hex16(x) == hex16(y),
    ensures
        x == y,
{
    assert forall|a: int, b: int| 0 <= a < 16 && 0 <= b < 16 && HEX_DIGITS@[a] == HEX_DIGITS@[b] implies a
        == b by {}
    assert forall|i: int| 0 <= i < 16 implies #[trigger] nibble(x, i) == nibble(y, i) by {
        let sh: u64 = (60 - 4 * i) as u64;
        assert((x >> sh) & 0xf < 16) by (bit_vector);
        assert((y >> sh) & 0xf < 16) by (bit_vector);
        assert(nibble(x, i) == (x >> sh) & 0xf);
        assert(nibble(y, i) == (y >> sh) & 0xf);
        let a = nibble(x, i) as int;
        let b = nibble(y, i) as int;
        assert(hex16(x)[i] == HEX_DIGITS@[a]);
        assert(hex16(y)[i] == HEX_DIGITS@[b]);
        assert(hex16(x)[i] == hex16(y)[i]);
    }
    lemma_leading_digits_determine(x, y, 15);
    assert(x >> 0u64 == x && y >> 0u64 == y) by (bit_vector);
}

/// Distinct checkouts can sanitize to the same label (`/a/b` and `/a_b`);
/// the hash of the original path keeps them apart: two checkouts whose paths
/// hash differently never share a claim file name.
pub proof fn law_claim_names_keep_hashes_apart(a: Seq<char>, b: Seq<char>)
    requires
        fnv1a64_spec(encode_utf8(a)) != fnv1a64_spec(encode_utf8(b)),
    ensures
        claim_file_name_spec(a) != claim_file_name_spec(b),
{
    let ha = fnv1a64_spec(encode_utf8(a));
    let hb = fnv1a64_spec(encode_utf8(b));
    let na = claim_file_name_spec(a);
    let nb = claim_file_name_spec(b);
    if na == nb {
        let la = claim_label(a);
        let lb = claim_label(b);
        assert(na.len() == la.len() + 17);
        assert(nb.len() == lb.len() + 17);
        assert(na.skip(la.len() as int + 1) =~= hex16(ha));
        assert(nb.skip(lb.len() as int + 1) =~= hex16(hb));
        lemma_hex16_injective(ha, hb);
    }
}

/// One FNV-1a step cannot map two different states to the same state: the
/// prime is odd, so multiplying by it modulo 2^64 is undone by multiplying
/// by its inverse `0xce965057aff6957b`.
pub proof fn lemma_fnv_step_injective(x: u64, y: u64)
    requires
        x != y,
    ensures
        x.wrapping_mul(FNV_PRIME) != y.wrapping_mul(FNV_PRIME),
{
    let inv: u64 = 0xce96_5057_aff6_957b;
    assert(x.wrapping_mul(0x0000_0100_0000_01b3).wrapping_mul(inv) == x) by (bit_vector)
        requires
            inv == 0xce96_5057_aff6_957bu64,
    ;
    assert(y.wrapping_mul(0x0000_0100_0000_01b3).wrapping_mul(inv) == y) by (bit_vector)
        requires
            inv == 0xce96_5057_aff6_957bu64,
    ;
}

/// Two byte strings of the same length that differ in exactly one place
/// have different FNV-1a hashes.
pub proof fn law_one_byte_apart_hash_apart(a: Seq<u8>, b: Seq<u8>, i: int)
    requires
        a.len() == b.len(),
        0 <= i < a.len(),
        a[i] != b[i],
        forall|j: int| 0 <= j < a.len() && j != i ==> a[j] == b[j],
    ensures
        fnv1a64_spec(a) != fnv1a64_spec(b),
    decreases a.len(),
{
    let n = a.len() - 1;
    let ha = fnv1a64_spec(a.drop_last());
    let hb = fnv1a64_spec(b.drop_last());
    let ca = a.last() as u64;
    let cb = b.last() as u64;
    if i == n {
        assert(a.drop_last() =~= b.drop_last());
        assert(ca != cb);
        assert(ha ^ ca != ha ^ cb) by (bit_vector)
            requires
                ca != cb,
        ;
    } else {
        law_one_byte_apart_hash_apart(a.drop_last(), b.drop_last(), i);
        assert(ca == cb);
        assert(ha ^ ca != hb ^ cb) by (bit_vector)
            requires
                ha != hb,
                ca == cb,
        ;
    }
    lemma_fnv_step_injective(ha ^ ca, hb ^ cb);
}

/// Two checkout paths whose UTF-8 bytes differ in exactly one place (such as
/// `/a/b` and `/a_b`, which sanitize alike) get different claim file names,
/// so they claim independently.
pub proof fn law_one_byte_apart_claim_apart(p: Seq<char>, q: Seq<char>, i: int)
    requires
        encode_utf8(p).len() == encode_utf8(q).len(),
        0 <= i < encode_utf8(p).len(),
        encode_utf8(p)[i] != encode_utf8(q)[i],
        forall|j: int| 0 <= j < encode_utf8(p).len() && j != i ==> encode_utf8(p)[j] == encode_utf8(q)[j],
    ensures
        claim_file_name_spec(p) != claim_file_name_spec(q),
{
    law_one_byte_apart_hash_apart(encode_utf8(p), encode_utf8(q), i);
    law_claim_names_keep_hashes_apart(p, q);
}

} // verus!
