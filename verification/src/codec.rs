use vstd::prelude::*;
use vstd::slice::slice_subrange;
use vstd::slice::slice_to_vec;
use vstd::utf8::valid_utf8;
use vstd::utf8::encode_utf8;
use vstd::utf8::decode_utf8;
use vstd::utf8::encode_utf8_valid_utf8;
use vstd::utf8::encode_utf8_decode_utf8;

use crate::auth::VaultConfig;
use crate::vault::ManifestV;
use crate::vault::Snapshot;
use crate::vault::SnapshotV;
use crate::vault::VaultFile;
use crate::vault::VaultFileV;
use crate::vault::VaultManifest;
use crate::vault::files_view;
use crate::vault::snapshots_view;

verus! {

// The manifest and config files are written in a fixed, self-describing byte
// format of this library's own: every number is 20 decimal digits, every
// string is its byte length followed by its UTF-8 bytes, every list is its
// element count followed by the elements. Parsing is the exact inverse of
// encoding, which is proved below.

/// Appends the bytes of `src` to `out`.
pub fn extend_bytes(out: &mut Vec<u8>, src: &[u8])
    ensures
        final(out)@ == old(out)@ + src@,
{
    let mut i: usize = 0;
    while i < src.len()
        invariant
            i <= src@.len(),
            out@ == old(out)@ + src@.take(i as int),
        decreases src@.len() - i,
    {
        out.push(src[i]);
        proof {
            assert(src@.take(i + 1) =~= src@.take(i as int).push(src@[i as int]));
            assert(old(out)@ + src@.take(i + 1) =~= (old(out)@ + src@.take(i as int)).push(
                src@[i as int],
            ));
        }
        i = i + 1;
    }
    proof {
        assert(src@.take(src@.len() as int) =~= src@);
    }
}

/// The ASCII byte of a decimal digit.
pub open spec fn digit_byte(d: nat) -> u8 {
    (48 + d) as u8
}

/// Whether a byte is an ASCII decimal digit.
pub open spec fn is_digit_byte(b: u8) -> bool {
    48 <= b <= 57
}

/// The value of an ASCII decimal digit byte.
pub open spec fn digit_val(b: u8) -> nat {
    (b - 48) as nat
}

/// A number encoded as exactly `w` decimal digits, most significant first,
/// zero padded on the left.
pub open spec fn enc_nat(n: nat, w: nat) -> Seq<u8>
    decreases w,
{
    if w == 0 {
        Seq::empty()
    } else {
        enc_nat(n / 10, (w - 1) as nat).push(digit_byte(n % 10))
    }
}

/// Whether every byte of the sequence is a decimal digit.
pub open spec fn all_digits(s: Seq<u8>) -> bool {
    forall|i: int| 0 <= i < s.len() ==> is_digit_byte(#[trigger] s[i])
}

/// The value of a sequence of decimal digit bytes, most significant first.
pub open spec fn dec_val(s: Seq<u8>) -> nat
    decreases s.len(),
{
    if s.len() == 0 {
        0
    } else {
        dec_val(s.drop_last()) * 10 + digit_val(s.last())
    }
}

/// Ten to the `w`.
pub open spec fn pow10(w: nat) -> nat
    decreases w,
{
    if w == 0 {
        1
    } else {
        10 * pow10((w - 1) as nat)
    }
}

/// Reading a number: 20 digit bytes whose value fits a `u64`.
pub open spec fn parse_nat20(s: Seq<u8>, pos: int) -> Option<(u64, int)> {
    if 0 <= pos && pos + 20 <= s.len() && all_digits(s.subrange(pos, pos + 20)) {
        let v = dec_val(s.subrange(pos, pos + 20));
        if v < 0x10000000000000000 {
            Some(((v as u64), pos + 20))
        } else {
            None
        }
    } else {
        None
    }
}

/// A string: its byte length as 20 digits, then its UTF-8 bytes.
pub open spec fn enc_str(t: Seq<char>) -> Seq<u8> {
    enc_nat(encode_utf8(t).len(), 20) + encode_utf8(t)
}

/// Reading a string: a length, then that many bytes of valid UTF-8.
pub open spec fn parse_str(s: Seq<u8>, pos: int) -> Option<(Seq<char>, int)> {
    match parse_nat20(s, pos) {
        Some((n, p)) => {
            if p + n <= s.len() && valid_utf8(s.subrange(p, p + n)) {
                Some((decode_utf8(s.subrange(p, p + n)), p + n))
            } else {
                None
            }
        },
        None => None,
    }
}

/// A string whose byte length can be written as 20 digits read back into a
/// `u64` — true of every string an executable encoder is handed.
pub open spec fn str_bounded(t: Seq<char>) -> bool {
    encode_utf8(t).len() < 0x10000000000000000
}

proof fn lemma_pow10_20()
    ensures
        pow10(20) == 100000000000000000000,
{
    reveal_with_fuel(pow10, 21);
}

/// A `w`-digit encoding has `w` bytes, all digits.
proof fn lemma_enc_nat_shape(n: nat, w: nat)
    ensures
        enc_nat(n, w).len() == w,
        all_digits(enc_nat(n, w)),
    decreases w,
{
    if w > 0 {
        lemma_enc_nat_shape(n / 10, (w - 1) as nat);
        let e = enc_nat(n, w);
        assert(e.last() == digit_byte(n % 10));
        assert(is_digit_byte(digit_byte(n % 10)));
        assert forall|i: int| 0 <= i < e.len() implies is_digit_byte(#[trigger] e[i]) by {
            if i < e.len() - 1 {
                assert(e[i] == enc_nat(n / 10, (w - 1) as nat)[i]);
            }
        }
    }
}

/// Reading back a `w`-digit encoding yields the encoded value.
proof fn lemma_dec_enc(n: nat, w: nat)
    requires
        n < pow10(w),
    ensures
        dec_val(enc_nat(n, w)) == n,
    decreases w,
{
    if w == 0 {
        assert(n == 0);
    } else {
        let rest = enc_nat(n / 10, (w - 1) as nat);
        let e = enc_nat(n, w);
        lemma_enc_nat_shape(n / 10, (w - 1) as nat);
        assert(e.drop_last() =~= rest);
        assert(e.last() == digit_byte(n % 10));
        assert(n / 10 < pow10((w - 1) as nat)) by {
            if n / 10 >= pow10((w - 1) as nat) {
                assert(n >= 10 * pow10((w - 1) as nat)) by (nonlinear_arith)
                    requires
                        n / 10 >= pow10((w - 1) as nat),
                ;
            }
        }
        lemma_dec_enc(n / 10, (w - 1) as nat);
        assert(digit_val(digit_byte(n % 10)) == n % 10);
        assert(dec_val(e) == (n / 10) * 10 + n % 10);
    }
}

/// Where a buffer window holds a 20-digit encoding of `n`, reading a number
/// there yields `n` and stops right after it.
proof fn lemma_parse_nat20_enc(s: Seq<u8>, pos: int, n: u64)
    requires
        0 <= pos,
        pos + 20 <= s.len(),
        s.subrange(pos, pos + 20) == enc_nat(n as nat, 20),
    ensures
        parse_nat20(s, pos) == Some((n, pos + 20)),
{
    lemma_enc_nat_shape(n as nat, 20);
    lemma_pow10_20();
    lemma_dec_enc(n as nat, 20);
}

/// Splitting a window that holds a concatenation into its two halves.
proof fn lemma_subrange_concat(s: Seq<u8>, pos: int, a: Seq<u8>, b: Seq<u8>)
    requires
        0 <= pos,
        pos + a.len() + b.len() <= s.len(),
        s.subrange(pos, pos + a.len() + b.len()) == a + b,
    ensures
        s.subrange(pos, pos + a.len()) == a,
        s.subrange(pos + a.len(), pos + a.len() + b.len()) == b,
{
    let w = s.subrange(pos, pos + a.len() + b.len());
    assert forall|i: int| 0 <= i < a.len() implies s.subrange(pos, pos + a.len())[i] == a[i] by {
        assert(w[i] == (a + b)[i]);
    }
    assert(s.subrange(pos, pos + a.len()) =~= a);
    assert forall|i: int|
        0 <= i < b.len() implies s.subrange(pos + a.len(), pos + a.len() + b.len())[i] == b[i] by {
        assert(w[a.len() + i] == (a + b)[a.len() + i]);
    }
    assert(s.subrange(pos + a.len(), pos + a.len() + b.len()) =~= b);
}

/// Where a buffer window holds the encoding of string `t`, reading a string
/// there yields `t` and stops right after it.
proof fn lemma_parse_str_enc(s: Seq<u8>, pos: int, t: Seq<char>)
    requires
        0 <= pos,
        str_bounded(t),
        pos + enc_str(t).len() <= s.len(),
        s.subrange(pos, pos + enc_str(t).len()) == enc_str(t),
    ensures
        parse_str(s, pos) == Some((t, pos + enc_str(t).len())),
{
    let bytes = encode_utf8(t);
    let lenc = enc_nat(bytes.len(), 20);
    lemma_enc_nat_shape(bytes.len(), 20);
    lemma_subrange_concat(s, pos, lenc, bytes);
    assert(enc_nat((bytes.len() as u64) as nat, 20) == lenc);
    lemma_parse_nat20_enc(s, pos, bytes.len() as u64);
    assert(s.subrange(pos + 20, pos + 20 + bytes.len()) == bytes);
    encode_utf8_valid_utf8(t);
    encode_utf8_decode_utf8(t);
}

/// Relies on String::from_utf8: returns the string whose UTF-8 encoding is
/// exactly the given bytes, and errs exactly when they are not valid UTF-8.
#[verifier::external_body]
fn string_from_utf8(bytes: Vec<u8>) -> (r: Option<String>)
    ensures
        r matches Some(t) ==> encode_utf8(t@) == bytes@ && valid_utf8(bytes@),
        r is None ==> !valid_utf8(bytes@),
{
    String::from_utf8(bytes).ok()
}

/// Writes `n` as exactly `w` decimal digits.
fn encode_nat_width(out: &mut Vec<u8>, n: u64, w: usize)
    ensures
        final(out)@ == old(out)@ + enc_nat(n as nat, w as nat),
    decreases w,
{
    if w == 0 {
        proof {
            assert(old(out)@ + enc_nat(n as nat, 0) =~= old(out)@);
        }
    } else {
        encode_nat_width(out, n / 10, w - 1);
        let d: u8 = (n % 10) as u8 + 48;
        out.push(d);
        proof {
            assert(d == digit_byte(n as nat % 10));
            assert((n / 10) as nat == n as nat / 10);
            assert(old(out)@ + enc_nat(n as nat, w as nat) =~= (old(out)@ + enc_nat(
                n as nat / 10,
                (w - 1) as nat,
            )).push(digit_byte(n as nat % 10)));
        }
    }
}

/// Writes a number field.
fn encode_nat20(out: &mut Vec<u8>, n: u64)
    ensures
        final(out)@ == old(out)@ + enc_nat(n as nat, 20),
{
    encode_nat_width(out, n, 20);
}

/// Writes a string field: its byte length, then its bytes.
fn encode_str_field(out: &mut Vec<u8>, t: &str)
    ensures
        final(out)@ == old(out)@ + enc_str(t@),
        str_bounded(t@),
{
    let bytes = t.as_bytes();
    encode_nat20(out, bytes.len() as u64);
    extend_bytes(out, bytes);
    proof {
        assert(bytes@ == encode_utf8(t@));
        assert((old(out)@ + enc_nat(encode_utf8(t@).len(), 20)) + encode_utf8(t@) =~= old(out)@
            + enc_str(t@));
    }
}

/// Reads a number field.
fn decode_nat20(s: &[u8], pos: usize) -> (r: Option<(u64, usize)>)
    ensures
        r matches Some((v, p)) ==> parse_nat20(s@, pos as int) == Some((v, p as int)) && p == pos
            + 20 && p <= s@.len(),
        r is None ==> parse_nat20(s@, pos as int) is None,
{
    if s.len() < 20 || pos > s.len() - 20 {
        return None;
    }
    let ghost win = s@.subrange(pos as int, pos as int + 20);
    let mut acc: u128 = 0;
    let mut i: usize = 0;
    while i < 20
        invariant
            i <= 20,
            pos + 20 <= s@.len(),
            pos + 20 <= usize::MAX,
            win == s@.subrange(pos as int, pos as int + 20),
            acc == dec_val(win.take(i as int)),
            acc < pow10(i as nat),
            all_digits(win.take(i as int)),
        decreases 20 - i,
    {
        let b = s[pos + i];
        if b < 48 || b > 57 {
            proof {
                assert(win[i as int] == s@[pos + i]);
                assert(!is_digit_byte(win[i as int]));
            }
            return None;
        }
        proof {
            lemma_pow10_20();
            assert(pow10(i as nat) * 10 == pow10((i + 1) as nat)) by (nonlinear_arith);
            assert(acc * 10 + 9 < pow10((i + 1) as nat)) by (nonlinear_arith)
                requires
                    acc < pow10(i as nat),
                    pow10(i as nat) * 10 == pow10((i + 1) as nat),
            ;
            assert(pow10((i + 1) as nat) <= pow10(20)) by {
                lemma_pow10_monotone((i + 1) as nat, 20);
            }
        }
        acc = acc * 10 + (b - 48) as u128;
        proof {
            assert(win.take(i + 1).drop_last() =~= win.take(i as int));
            assert(win.take(i + 1).last() == s@[pos + i]);
            assert(acc == dec_val(win.take(i + 1)));
            assert(all_digits(win.take(i + 1)));
        }
        i = i + 1;
    }
    proof {
        assert(win.take(20) =~= win);
        lemma_pow10_20();
    }
    if acc > 0xffffffffffffffff {
        return None;
    }
    Some((acc as u64, pos + 20))
}

/// Ten to the `w` grows with `w`.
proof fn lemma_pow10_monotone(a: nat, b: nat)
    requires
        a <= b,
    ensures
        pow10(a) <= pow10(b),
    decreases b,
{
    if a < b {
        lemma_pow10_monotone(a, (b - 1) as nat);
        assert(pow10(b) == 10 * pow10((b - 1) as nat));
    }
}

/// The elements of a string list, one after the other.
pub open spec fn enc_strs(l: Seq<Seq<char>>) -> Seq<u8>
    decreases l.len(),
{
    if l.len() == 0 {
        Seq::empty()
    } else {
        enc_str(l.first()) + enc_strs(l.drop_first())
    }
}

/// A string list: its element count, then the elements.
pub open spec fn enc_str_list(l: Seq<Seq<char>>) -> Seq<u8> {
    enc_nat(l.len(), 20) + enc_strs(l)
}

/// Reading `k` strings in a row.
pub open spec fn parse_strs(s: Seq<u8>, pos: int, k: nat) -> Option<(Seq<Seq<char>>, int)>
    decreases k,
{
    if k == 0 {
        Some((Seq::empty(), pos))
    } else {
        match parse_str(s, pos) {
            Some((v, p)) => match parse_strs(s, p, (k - 1) as nat) {
                Some((l, p2)) => Some((seq![v] + l, p2)),
                None => None,
            },
            None => None,
        }
    }
}

/// Reading a string list: a count, then that many strings.
pub open spec fn parse_str_list(s: Seq<u8>, pos: int) -> Option<(Seq<Seq<char>>, int)> {
    match parse_nat20(s, pos) {
        Some((k, p)) => parse_strs(s, p, k as nat),
        None => None,
    }
}

/// One entry: name, digest, source path, size, stored locations.
pub open spec fn enc_file(f: VaultFileV) -> Seq<u8> {
    enc_str(f.file_name) + (enc_str(f.file_hash) + (enc_str(f.file_path) + (enc_nat(
        f.file_size as nat,
        20,
    ) + enc_str_list(f.vault_paths))))
}

/// Reading one entry.
pub open spec fn parse_file(s: Seq<u8>, pos: int) -> Option<(VaultFileV, int)> {
    match parse_str(s, pos) {
        Some((name, p1)) => match parse_str(s, p1) {
            Some((hash, p2)) => match parse_str(s, p2) {
                Some((path, p3)) => match parse_nat20(s, p3) {
                    Some((size, p4)) => match parse_str_list(s, p4) {
                        Some((vps, p5)) => Some(
                            (
                                VaultFileV {
                                    file_name: name,
                                    file_hash: hash,
                                    file_path: path,
                                    file_size: size,
                                    vault_paths: vps,
                                },
                                p5,
                            ),
                        ),
                        None => None,
                    },
                    None => None,
                },
                None => None,
            },
            None => None,
        },
        None => None,
    }
}

/// The elements of an entry list, one after the other.
pub open spec fn enc_files(l: Seq<VaultFileV>) -> Seq<u8>
    decreases l.len(),
{
    if l.len() == 0 {
        Seq::empty()
    } else {
        enc_file(l.first()) + enc_files(l.drop_first())
    }
}

/// An entry list: its element count, then the elements.
pub open spec fn enc_file_list(l: Seq<VaultFileV>) -> Seq<u8> {
    enc_nat(l.len(), 20) + enc_files(l)
}

/// Reading `k` entries in a row.
pub open spec fn parse_files(s: Seq<u8>, pos: int, k: nat) -> Option<(Seq<VaultFileV>, int)>
    decreases k,
{
    if k == 0 {
        Some((Seq::empty(), pos))
    } else {
        match parse_file(s, pos) {
            Some((v, p)) => match parse_files(s, p, (k - 1) as nat) {
                Some((l, p2)) => Some((seq![v] + l, p2)),
                None => None,
            },
            None => None,
        }
    }
}

/// Reading an entry list: a count, then that many entries.
pub open spec fn parse_file_list(s: Seq<u8>, pos: int) -> Option<(Seq<VaultFileV>, int)> {
    match parse_nat20(s, pos) {
        Some((k, p)) => parse_files(s, p, k as nat),
        None => None,
    }
}

/// One snapshot: identifier, creation time, entries.
pub open spec fn enc_snapshot(v: SnapshotV) -> Seq<u8> {
    enc_str(v.snapshot_id) + (enc_str(v.snapshot_time) + enc_file_list(v.snapshot_files))
}

/// Reading one snapshot.
pub open spec fn parse_snapshot(s: Seq<u8>, pos: int) -> Option<(SnapshotV, int)> {
    match parse_str(s, pos) {
        Some((id, p1)) => match parse_str(s, p1) {
            Some((time, p2)) => match parse_file_list(s, p2) {
                Some((fs, p3)) => Some(
                    (SnapshotV { snapshot_id: id, snapshot_time: time, snapshot_files: fs }, p3),
                ),
                None => None,
            },
            None => None,
        },
        None => None,
    }
}

/// The elements of a snapshot list, one after the other.
pub open spec fn enc_snapshots(l: Seq<SnapshotV>) -> Seq<u8>
    decreases l.len(),
{
    if l.len() == 0 {
        Seq::empty()
    } else {
        enc_snapshot(l.first()) + enc_snapshots(l.drop_first())
    }
}

/// A snapshot list: its element count, then the elements.
pub open spec fn enc_snapshot_list(l: Seq<SnapshotV>) -> Seq<u8> {
    enc_nat(l.len(), 20) + enc_snapshots(l)
}

/// Reading `k` snapshots in a row.
pub open spec fn parse_snapshots(s: Seq<u8>, pos: int, k: nat) -> Option<(Seq<SnapshotV>, int)>
    decreases k,
{
    if k == 0 {
        Some((Seq::empty(), pos))
    } else {
        match parse_snapshot(s, pos) {
            Some((v, p)) => match parse_snapshots(s, p, (k - 1) as nat) {
                Some((l, p2)) => Some((seq![v] + l, p2)),
                None => None,
            },
            None => None,
        }
    }
}

/// Reading a snapshot list: a count, then that many snapshots.
pub open spec fn parse_snapshot_list(s: Seq<u8>, pos: int) -> Option<(Seq<SnapshotV>, int)> {
    match parse_nat20(s, pos) {
        Some((k, p)) => parse_snapshots(s, p, k as nat),
        None => None,
    }
}

/// A whole manifest: the snapshot history, then the content index.
pub open spec fn enc_manifest(m: ManifestV) -> Seq<u8> {
    enc_snapshot_list(m.snapshots) + enc_file_list(m.files)
}

/// Reading a whole manifest buffer; trailing bytes are rejected.
pub open spec fn parse_manifest(s: Seq<u8>) -> Option<ManifestV> {
    match parse_snapshot_list(s, 0) {
        Some((snaps, p)) => match parse_file_list(s, p) {
            Some((files, p2)) => {
                if p2 == s.len() {
                    Some(ManifestV { snapshots: snaps, files: files })
                } else {
                    None
                }
            },
            None => None,
        },
        None => None,
    }
}

/// A whole config file: the password hash alone.
pub open spec fn enc_config(hash: Seq<char>) -> Seq<u8> {
    enc_str(hash)
}

/// Reading a whole config buffer; trailing bytes are rejected.
pub open spec fn parse_config(s: Seq<u8>) -> Option<Seq<char>> {
    match parse_str(s, 0) {
        Some((h, p)) => {
            if p == s.len() {
                Some(h)
            } else {
                None
            }
        },
        None => None,
    }
}

/// Bounds that every value handed to an executable encoder meets: list
/// lengths and string byte lengths fit the 20-digit number field.
pub open spec fn strs_bounded(l: Seq<Seq<char>>) -> bool {
    l.len() < 0x10000000000000000 && (forall|i: int|
        0 <= i < l.len() ==> str_bounded(#[trigger] l[i]))
}

pub open spec fn file_bounded(f: VaultFileV) -> bool {
    &&& str_bounded(f.file_name)
    &&& str_bounded(f.file_hash)
    &&& str_bounded(f.file_path)
    &&& strs_bounded(f.vault_paths)
}

pub open spec fn files_bounded(l: Seq<VaultFileV>) -> bool {
    l.len() < 0x10000000000000000 && (forall|i: int|
        0 <= i < l.len() ==> file_bounded(#[trigger] l[i]))
}

pub open spec fn snapshot_bounded(v: SnapshotV) -> bool {
    &&& str_bounded(v.snapshot_id)
    &&& str_bounded(v.snapshot_time)
    &&& files_bounded(v.snapshot_files)
}

pub open spec fn snapshots_bounded(l: Seq<SnapshotV>) -> bool {
    l.len() < 0x10000000000000000 && (forall|i: int|
        0 <= i < l.len() ==> snapshot_bounded(#[trigger] l[i]))
}

pub open spec fn manifest_bounded(m: ManifestV) -> bool {
    snapshots_bounded(m.snapshots) && files_bounded(m.files)
}

/// Encoding a list element by element appends at the tail.
proof fn lemma_enc_strs_push(l: Seq<Seq<char>>, x: Seq<char>)
    ensures
        enc_strs(l.push(x)) == enc_strs(l) + enc_str(x),
    decreases l.len(),
{
    let p = l.push(x);
    if l.len() == 0 {
        assert(p.first() == x);
        assert(p.drop_first() =~= Seq::<Seq<char>>::empty());
        assert(enc_strs(p.drop_first()) == Seq::<u8>::empty());
        assert(enc_strs(p) == enc_str(x) + Seq::<u8>::empty());
        assert(enc_str(x) + Seq::<u8>::empty() =~= enc_str(x));
        assert(enc_strs(l) + enc_str(x) =~= enc_str(x));
    } else {
        assert(p.first() == l.first());
        assert(p.drop_first() =~= l.drop_first().push(x));
        lemma_enc_strs_push(l.drop_first(), x);
        assert(enc_strs(p) == enc_str(l.first()) + (enc_strs(l.drop_first()) + enc_str(x)));
        assert(enc_str(l.first()) + (enc_strs(l.drop_first()) + enc_str(x)) =~= (enc_str(l.first())
            + enc_strs(l.drop_first())) + enc_str(x));
    }
}

#[verifier::rlimit(50)]
proof fn lemma_enc_files_push(l: Seq<VaultFileV>, x: VaultFileV)
    ensures
        enc_files(l.push(x)) == enc_files(l) + enc_file(x),
    decreases l.len(),
{
    let p = l.push(x);
    if l.len() == 0 {
        assert(p.first() == x);
        assert(p.drop_first() =~= Seq::<VaultFileV>::empty());
        assert(enc_files(p.drop_first()) == Seq::<u8>::empty());
        assert(enc_files(p) == enc_file(x) + Seq::<u8>::empty());
        assert(enc_file(x) + Seq::<u8>::empty() =~= enc_file(x));
        assert(enc_files(l) + enc_file(x) =~= enc_file(x));
    } else {
        assert(p.first() == l.first());
        assert(p.drop_first() =~= l.drop_first().push(x));
        lemma_enc_files_push(l.drop_first(), x);
        assert(enc_files(p) == enc_file(l.first()) + (enc_files(l.drop_first()) + enc_file(x)));
        assert(enc_file(l.first()) + (enc_files(l.drop_first()) + enc_file(x)) =~= (enc_file(l.first())
            + enc_files(l.drop_first())) + enc_file(x));
    }
}

#[verifier::rlimit(50)]
proof fn lemma_enc_snapshots_push(l: Seq<SnapshotV>, x: SnapshotV)
    ensures
        enc_snapshots(l.push(x)) == enc_snapshots(l) + enc_snapshot(x),
    decreases l.len(),
{
    let p = l.push(x);
    if l.len() == 0 {
        assert(p.first() == x);
        assert(p.drop_first() =~= Seq::<SnapshotV>::empty());
        assert(enc_snapshots(p.drop_first()) == Seq::<u8>::empty());
        assert(enc_snapshots(p) == enc_snapshot(x) + Seq::<u8>::empty());
        assert(enc_snapshot(x) + Seq::<u8>::empty() =~= enc_snapshot(x));
        assert(enc_snapshots(l) + enc_snapshot(x) =~= enc_snapshot(x));
    } else {
        assert(p.first() == l.first());
        assert(p.drop_first() =~= l.drop_first().push(x));
        lemma_enc_snapshots_push(l.drop_first(), x);
        assert(enc_snapshots(p) == enc_snapshot(l.first()) + (enc_snapshots(l.drop_first()) + enc_snapshot(x)));
        assert(enc_snapshot(l.first()) + (enc_snapshots(l.drop_first()) + enc_snapshot(x)) =~= (enc_snapshot(l.first())
            + enc_snapshots(l.drop_first())) + enc_snapshot(x));
    }
}

/// Where a buffer window holds the element-wise encoding of a string list,
/// reading that many strings yields the list.
proof fn lemma_parse_strs_enc(s: Seq<u8>, pos: int, l: Seq<Seq<char>>)
    requires
        0 <= pos,
        forall|i: int| 0 <= i < l.len() ==> str_bounded(#[trigger] l[i]),
        pos + enc_strs(l).len() <= s.len(),
        s.subrange(pos, pos + enc_strs(l).len()) == enc_strs(l),
    ensures
        parse_strs(s, pos, l.len()) == Some((l, pos + enc_strs(l).len())),
    decreases l.len(),
{
    if l.len() == 0 {
        assert(l =~= Seq::<Seq<char>>::empty());
    } else {
        let a = enc_str(l.first());
        let b = enc_strs(l.drop_first());
        assert(enc_strs(l) == a + b);
        lemma_subrange_concat(s, pos, a, b);
        assert(str_bounded(l[0]));
        lemma_parse_str_enc(s, pos, l.first());
        assert(forall|i: int|
            0 <= i < l.drop_first().len() ==> str_bounded(#[trigger] l.drop_first()[i]));
        lemma_parse_strs_enc(s, pos + a.len(), l.drop_first());
        assert(seq![l.first()] + l.drop_first() =~= l);
    }
}

/// The same for a counted string list.
proof fn lemma_parse_str_list_enc(s: Seq<u8>, pos: int, l: Seq<Seq<char>>)
    requires
        0 <= pos,
        strs_bounded(l),
        pos + enc_str_list(l).len() <= s.len(),
        s.subrange(pos, pos + enc_str_list(l).len()) == enc_str_list(l),
    ensures
        parse_str_list(s, pos) == Some((l, pos + enc_str_list(l).len())),
{
    let a = enc_nat(l.len(), 20);
    let b = enc_strs(l);
    lemma_enc_nat_shape(l.len(), 20);
    lemma_subrange_concat(s, pos, a, b);
    assert(enc_nat((l.len() as u64) as nat, 20) == a);
    lemma_parse_nat20_enc(s, pos, l.len() as u64);
    lemma_parse_strs_enc(s, pos + 20, l);
}

/// Where a buffer window holds the encoding of one entry, reading an entry
/// there yields it.
proof fn lemma_parse_file_enc(s: Seq<u8>, pos: int, f: VaultFileV)
    requires
        0 <= pos,
        file_bounded(f),
        pos + enc_file(f).len() <= s.len(),
        s.subrange(pos, pos + enc_file(f).len()) == enc_file(f),
    ensures
        parse_file(s, pos) == Some((f, pos + enc_file(f).len())),
{
    let a1 = enc_str(f.file_name);
    let a2 = enc_str(f.file_hash);
    let a3 = enc_str(f.file_path);
    let a4 = enc_nat(f.file_size as nat, 20);
    let a5 = enc_str_list(f.vault_paths);
    let r1 = a2 + (a3 + (a4 + a5));
    let r2 = a3 + (a4 + a5);
    let r3 = a4 + a5;
    assert(enc_file(f) == a1 + r1);
    lemma_subrange_concat(s, pos, a1, r1);
    lemma_parse_str_enc(s, pos, f.file_name);
    let p1 = pos + a1.len();
    lemma_subrange_concat(s, p1, a2, r2);
    lemma_parse_str_enc(s, p1, f.file_hash);
    let p2 = p1 + a2.len();
    lemma_subrange_concat(s, p2, a3, r3);
    lemma_parse_str_enc(s, p2, f.file_path);
    let p3 = p2 + a3.len();
    lemma_subrange_concat(s, p3, a4, a5);
    lemma_enc_nat_shape(f.file_size as nat, 20);
    lemma_parse_nat20_enc(s, p3, f.file_size);
    let p4 = p3 + 20;
    lemma_parse_str_list_enc(s, p4, f.vault_paths);
}

/// Element-wise encodings of entry lists, read back.
proof fn lemma_parse_files_enc(s: Seq<u8>, pos: int, l: Seq<VaultFileV>)
    requires
        0 <= pos,
        forall|i: int| 0 <= i < l.len() ==> file_bounded(#[trigger] l[i]),
        pos + enc_files(l).len() <= s.len(),
        s.subrange(pos, pos + enc_files(l).len()) == enc_files(l),
    ensures
        parse_files(s, pos, l.len()) == Some((l, pos + enc_files(l).len())),
    decreases l.len(),
{
    if l.len() == 0 {
        assert(l =~= Seq::<VaultFileV>::empty());
    } else {
        let a = enc_file(l.first());
        let b = enc_files(l.drop_first());
        assert(enc_files(l) == a + b);
        lemma_subrange_concat(s, pos, a, b);
        assert(file_bounded(l[0]));
        lemma_parse_file_enc(s, pos, l.first());
        assert(forall|i: int|
            0 <= i < l.drop_first().len() ==> file_bounded(#[trigger] l.drop_first()[i]));
        lemma_parse_files_enc(s, pos + a.len(), l.drop_first());
        assert(seq![l.first()] + l.drop_first() =~= l);
    }
}

proof fn lemma_parse_file_list_enc(s: Seq<u8>, pos: int, l: Seq<VaultFileV>)
    requires
        0 <= pos,
        files_bounded(l),
        pos + enc_file_list(l).len() <= s.len(),
        s.subrange(pos, pos + enc_file_list(l).len()) == enc_file_list(l),
    ensures
        parse_file_list(s, pos) == Some((l, pos + enc_file_list(l).len())),
{
    let a = enc_nat(l.len(), 20);
    let b = enc_files(l);
    lemma_enc_nat_shape(l.len(), 20);
    lemma_subrange_concat(s, pos, a, b);
    assert(enc_nat((l.len() as u64) as nat, 20) == a);
    lemma_parse_nat20_enc(s, pos, l.len() as u64);
    lemma_parse_files_enc(s, pos + 20, l);
}

/// Where a buffer window holds the encoding of one snapshot, reading a
/// snapshot there yields it.
proof fn lemma_parse_snapshot_enc(s: Seq<u8>, pos: int, v: SnapshotV)
    requires
        0 <= pos,
        snapshot_bounded(v),
        pos + enc_snapshot(v).len() <= s.len(),
        s.subrange(pos, pos + enc_snapshot(v).len()) == enc_snapshot(v),
    ensures
        parse_snapshot(s, pos) == Some((v, pos + enc_snapshot(v).len())),
{
    let a1 = enc_str(v.snapshot_id);
    let a2 = enc_str(v.snapshot_time);
    let a3 = enc_file_list(v.snapshot_files);
    let r1 = a2 + a3;
    assert(enc_snapshot(v) == a1 + r1);
    lemma_subrange_concat(s, pos, a1, r1);
    lemma_parse_str_enc(s, pos, v.snapshot_id);
    let p1 = pos + a1.len();
    lemma_subrange_concat(s, p1, a2, a3);
    lemma_parse_str_enc(s, p1, v.snapshot_time);
    let p2 = p1 + a2.len();
    lemma_parse_file_list_enc(s, p2, v.snapshot_files);
}

proof fn lemma_parse_snapshots_enc(s: Seq<u8>, pos: int, l: Seq<SnapshotV>)
    requires
        0 <= pos,
        forall|i: int| 0 <= i < l.len() ==> snapshot_bounded(#[trigger] l[i]),
        pos + enc_snapshots(l).len() <= s.len(),
        s.subrange(pos, pos + enc_snapshots(l).len()) == enc_snapshots(l),
    ensures
        parse_snapshots(s, pos, l.len()) == Some((l, pos + enc_snapshots(l).len())),
    decreases l.len(),
{
    if l.len() == 0 {
        assert(l =~= Seq::<SnapshotV>::empty());
    } else {
        let a = enc_snapshot(l.first());
        let b = enc_snapshots(l.drop_first());
        assert(enc_snapshots(l) == a + b);
        lemma_subrange_concat(s, pos, a, b);
        assert(snapshot_bounded(l[0]));
        lemma_parse_snapshot_enc(s, pos, l.first());
        assert(forall|i: int|
            0 <= i < l.drop_first().len() ==> snapshot_bounded(#[trigger] l.drop_first()[i]));
        lemma_parse_snapshots_enc(s, pos + a.len(), l.drop_first());
        assert(seq![l.first()] + l.drop_first() =~= l);
    }
}

proof fn lemma_parse_snapshot_list_enc(s: Seq<u8>, pos: int, l: Seq<SnapshotV>)
    requires
        0 <= pos,
        snapshots_bounded(l),
        pos + enc_snapshot_list(l).len() <= s.len(),
        s.subrange(pos, pos + enc_snapshot_list(l).len()) == enc_snapshot_list(l),
    ensures
        parse_snapshot_list(s, pos) == Some((l, pos + enc_snapshot_list(l).len())),
{
    let a = enc_nat(l.len(), 20);
    let b = enc_snapshots(l);
    lemma_enc_nat_shape(l.len(), 20);
    lemma_subrange_concat(s, pos, a, b);
    assert(enc_nat((l.len() as u64) as nat, 20) == a);
    lemma_parse_nat20_enc(s, pos, l.len() as u64);
    lemma_parse_snapshots_enc(s, pos + 20, l);
}

/// Round trip of the manifest format: reading back an encoded manifest yields
/// exactly the encoded value. With the atomic replace of the manifest file,
/// this is what keeps a vault openable with its previous history after a
/// crash: whichever whole manifest the file holds decodes to the history it
/// was written from.
pub proof fn lemma_manifest_round_trip(m: ManifestV)
    requires
        manifest_bounded(m),
    ensures
        parse_manifest(enc_manifest(m)) == Some(m),
{
    let s = enc_manifest(m);
    let a = enc_snapshot_list(m.snapshots);
    let b = enc_file_list(m.files);
    assert(s.subrange(0, s.len() as int) =~= s);
    lemma_subrange_concat(s, 0, a, b);
    lemma_parse_snapshot_list_enc(s, 0, m.snapshots);
    lemma_parse_file_list_enc(s, a.len() as int, m.files);
    assert(ManifestV { snapshots: m.snapshots, files: m.files } == m);
}

/// Round trip of the config format.
pub proof fn lemma_config_round_trip(hash: Seq<char>)
    requires
        str_bounded(hash),
    ensures
        parse_config(enc_config(hash)) == Some(hash),
{
    let s = enc_config(hash);
    assert(s.subrange(0, s.len() as int) =~= s);
    lemma_parse_str_enc(s, 0, hash);
}

/// Writes a string list field: its count, then the strings.
fn encode_str_list_field(out: &mut Vec<u8>, l: &Vec<String>)
    ensures
        final(out)@ == old(out)@ + enc_str_list(l.deep_view()),
        strs_bounded(l.deep_view()),
{
    encode_nat20(out, l.len() as u64);
    proof {
        assert(l.deep_view().len() == l@.len());
        assert(l.deep_view().take(0) =~= Seq::<Seq<char>>::empty());
        assert(enc_strs(l.deep_view().take(0)) == Seq::<u8>::empty());
        assert(out@ + Seq::<u8>::empty() =~= out@);
    }
    let mut i: usize = 0;
    while i < l.len()
        invariant
            i <= l@.len(),
            out@ == old(out)@ + enc_nat(l.deep_view().len(), 20) + enc_strs(
                l.deep_view().take(i as int),
            ),
            forall|j: int| 0 <= j < i ==> str_bounded(#[trigger] l.deep_view()[j]),
        decreases l@.len() - i,
    {
        let ghost pre = out@;
        encode_str_field(out, l[i].as_str());
        proof {
            assert(l.deep_view()[i as int] == l@[i as int]@);
            lemma_enc_strs_push(l.deep_view().take(i as int), l.deep_view()[i as int]);
            assert(l.deep_view().take(i + 1) =~= l.deep_view().take(i as int).push(
                l.deep_view()[i as int],
            ));
            assert(out@ =~= old(out)@ + enc_nat(l.deep_view().len(), 20) + enc_strs(
                l.deep_view().take(i + 1),
            ));
        }
        i = i + 1;
    }
    proof {
        assert(l.deep_view().take(l@.len() as int) =~= l.deep_view());
        assert(old(out)@ + enc_nat(l.deep_view().len(), 20) + enc_strs(l.deep_view()) =~= old(out)@
            + enc_str_list(l.deep_view()));
    }
}

/// Writes one entry.
fn encode_file_field(out: &mut Vec<u8>, f: &VaultFile)
    ensures
        final(out)@ == old(out)@ + enc_file(f@),
        file_bounded(f@),
{
    encode_str_field(out, f.file_name.as_str());
    encode_str_field(out, f.file_hash.as_str());
    encode_str_field(out, f.file_path.as_str());
    encode_nat20(out, f.file_size);
    encode_str_list_field(out, &f.vault_paths);
    proof {
        assert(out@ =~= old(out)@ + enc_file(f@));
    }
}

/// Writes an entry list field: its count, then the entries.
pub(crate) fn encode_files_field(out: &mut Vec<u8>, l: &Vec<VaultFile>)
    ensures
        final(out)@ == old(out)@ + enc_file_list(files_view(l@)),
        files_bounded(files_view(l@)),
{
    encode_nat20(out, l.len() as u64);
    proof {
        assert(files_view(l@).len() == l@.len());
        assert(files_view(l@).take(0) =~= Seq::<VaultFileV>::empty());
        assert(enc_files(files_view(l@).take(0)) == Seq::<u8>::empty());
        assert(out@ + Seq::<u8>::empty() =~= out@);
    }
    let mut i: usize = 0;
    while i < l.len()
        invariant
            i <= l@.len(),
            out@ == old(out)@ + enc_nat(files_view(l@).len(), 20) + enc_files(
                files_view(l@).take(i as int),
            ),
            forall|j: int| 0 <= j < i ==> file_bounded(#[trigger] files_view(l@)[j]),
        decreases l@.len() - i,
    {
        encode_file_field(out, &l[i]);
        proof {
            assert(files_view(l@)[i as int] == l@[i as int]@);
            lemma_enc_files_push(files_view(l@).take(i as int), files_view(l@)[i as int]);
            assert(files_view(l@).take(i + 1) =~= files_view(l@).take(i as int).push(
                files_view(l@)[i as int],
            ));
            assert(out@ =~= old(out)@ + enc_nat(files_view(l@).len(), 20) + enc_files(
                files_view(l@).take(i + 1),
            ));
        }
        i = i + 1;
    }
    proof {
        assert(files_view(l@).take(l@.len() as int) =~= files_view(l@));
        assert(old(out)@ + enc_nat(files_view(l@).len(), 20) + enc_files(files_view(l@)) =~= old(
            out,
        )@ + enc_file_list(files_view(l@)));
    }
}

/// Writes one snapshot.
fn encode_snapshot_field(out: &mut Vec<u8>, v: &Snapshot)
    ensures
        final(out)@ == old(out)@ + enc_snapshot(v@),
        snapshot_bounded(v@),
{
    encode_str_field(out, v.snapshot_id.as_str());
    encode_str_field(out, v.snapshot_time.as_str());
    encode_files_field(out, &v.snapshot_files);
    proof {
        assert(out@ =~= old(out)@ + enc_snapshot(v@));
    }
}

/// Writes a snapshot list field: its count, then the snapshots.
pub(crate) fn encode_snapshots_field(out: &mut Vec<u8>, l: &Vec<Snapshot>)
    ensures
        final(out)@ == old(out)@ + enc_snapshot_list(snapshots_view(l@)),
        snapshots_bounded(snapshots_view(l@)),
{
    encode_nat20(out, l.len() as u64);
    proof {
        assert(snapshots_view(l@).len() == l@.len());
        assert(snapshots_view(l@).take(0) =~= Seq::<SnapshotV>::empty());
        assert(enc_snapshots(snapshots_view(l@).take(0)) == Seq::<u8>::empty());
        assert(out@ + Seq::<u8>::empty() =~= out@);
    }
    let mut i: usize = 0;
    while i < l.len()
        invariant
            i <= l@.len(),
            out@ == old(out)@ + enc_nat(snapshots_view(l@).len(), 20) + enc_snapshots(
                snapshots_view(l@).take(i as int),
            ),
            forall|j: int| 0 <= j < i ==> snapshot_bounded(#[trigger] snapshots_view(l@)[j]),
        decreases l@.len() - i,
    {
        encode_snapshot_field(out, &l[i]);
        proof {
            assert(snapshots_view(l@)[i as int] == l@[i as int]@);
            lemma_enc_snapshots_push(
                snapshots_view(l@).take(i as int),
                snapshots_view(l@)[i as int],
            );
            assert(snapshots_view(l@).take(i + 1) =~= snapshots_view(l@).take(i as int).push(
                snapshots_view(l@)[i as int],
            ));
            assert(out@ =~= old(out)@ + enc_nat(snapshots_view(l@).len(), 20) + enc_snapshots(
                snapshots_view(l@).take(i + 1),
            ));
        }
        i = i + 1;
    }
    proof {
        assert(snapshots_view(l@).take(l@.len() as int) =~= snapshots_view(l@));
        assert(old(out)@ + enc_nat(snapshots_view(l@).len(), 20) + enc_snapshots(snapshots_view(l@))
            =~= old(out)@ + enc_snapshot_list(snapshots_view(l@)));
    }
}

/// Encodes a whole manifest.
pub fn encode_manifest(m: &VaultManifest) -> (r: Vec<u8>)
    ensures
        r@ == enc_manifest(m@),
        manifest_bounded(m@),
        parse_manifest(r@) == Some(m@),
{
    let mut out: Vec<u8> = Vec::new();
    encode_snapshots_field(&mut out, &m.snapshots);
    encode_files_field(&mut out, &m.files);
    proof {
        assert(out@ =~= enc_manifest(m@));
        lemma_manifest_round_trip(m@);
    }
    out
}

/// Encodes a whole config file.
pub fn encode_config(c: &VaultConfig) -> (r: Vec<u8>)
    ensures
        r@ == enc_config(c.password_hash@),
        parse_config(r@) == Some(c.password_hash@),
{
    let mut out: Vec<u8> = Vec::new();
    encode_str_field(&mut out, c.password_hash.as_str());
    proof {
        assert(out@ =~= enc_config(c.password_hash@));
        lemma_config_round_trip(c.password_hash@);
    }
    out
}

/// Reads a string field.
fn decode_str_field(s: &[u8], pos: usize) -> (r: Option<(String, usize)>)
    ensures
        r matches Some((t, p)) ==> parse_str(s@, pos as int) == Some((t@, p as int)) && p
            <= s@.len(),
        r is None ==> parse_str(s@, pos as int) is None,
{
    let (n, p) = match decode_nat20(s, pos) {
        Some(x) => x,
        None => {
            return None;
        },
    };
    if n > (s.len() - p) as u64 {
        return None;
    }
    let end = p + (n as usize);
    let bytes = slice_to_vec(slice_subrange(s, p, end));
    match string_from_utf8(bytes) {
        Some(t) => {
            proof {
                encode_utf8_decode_utf8(t@);
            }
            Some((t, end))
        },
        None => None,
    }
}

/// Reads `k` strings in a row.
fn decode_strs(s: &[u8], pos: usize, k: u64) -> (r: Option<(Vec<String>, usize)>)
    requires
        pos <= s@.len(),
    ensures
        r matches Some((l, p)) ==> parse_strs(s@, pos as int, k as nat) == Some(
            (l.deep_view(), p as int),
        ) && p <= s@.len(),
        r is None ==> parse_strs(s@, pos as int, k as nat) is None,
{
    let mut out: Vec<String> = Vec::new();
    let mut cur: usize = pos;
    let mut i: u64 = 0;
    proof {
        assert(out.deep_view() =~= Seq::<Seq<char>>::empty());
    }
    while i < k
        invariant
            i <= k,
            cur <= s@.len(),
            parse_strs(s@, pos as int, k as nat) == (match parse_strs(
                s@,
                cur as int,
                (k - i) as nat,
            ) {
                Some((l, p)) => Some((out.deep_view() + l, p)),
                None => None::<(Seq<Seq<char>>, int)>,
            }),
        decreases k - i,
    {
        match decode_str_field(s, cur) {
            Some((t, p2)) => {
                let ghost pre_deep = out.deep_view();
                out.push(t);
                cur = p2;
                i = i + 1;
                proof {
                    assert(out.deep_view() =~= pre_deep.push(out@.last()@));
                    let r2 = parse_strs(s@, cur as int, (k - i) as nat);
                    match r2 {
                        Some((l2, q)) => {
                            assert(pre_deep + (seq![out@.last()@] + l2) =~= out.deep_view() + l2);
                        },
                        None => {},
                    }
                }
            },
            None => {
                return None;
            },
        }
    }
    proof {
        assert(parse_strs(s@, cur as int, 0) == Some((Seq::<Seq<char>>::empty(), cur as int)));
        assert(out.deep_view() + Seq::<Seq<char>>::empty() =~= out.deep_view());
    }
    Some((out, cur))
}

/// Reads a string list field.
fn decode_str_list_field(s: &[u8], pos: usize) -> (r: Option<(Vec<String>, usize)>)
    ensures
        r matches Some((l, p)) ==> parse_str_list(s@, pos as int) == Some(
            (l.deep_view(), p as int),
        ) && p <= s@.len(),
        r is None ==> parse_str_list(s@, pos as int) is None,
{
    let (k, p) = match decode_nat20(s, pos) {
        Some(x) => x,
        None => {
            return None;
        },
    };
    decode_strs(s, p, k)
}

/// Reads one entry.
fn decode_file_field(s: &[u8], pos: usize) -> (r: Option<(VaultFile, usize)>)
    ensures
        r matches Some((f, p)) ==> parse_file(s@, pos as int) == Some((f@, p as int)) && p
            <= s@.len(),
        r is None ==> parse_file(s@, pos as int) is None,
{
    let (file_name, p1) = match decode_str_field(s, pos) {
        Some(x) => x,
        None => {
            return None;
        },
    };
    let (file_hash, p2) = match decode_str_field(s, p1) {
        Some(x) => x,
        None => {
            return None;
        },
    };
    let (file_path, p3) = match decode_str_field(s, p2) {
        Some(x) => x,
        None => {
            return None;
        },
    };
    let (file_size, p4) = match decode_nat20(s, p3) {
        Some(x) => x,
        None => {
            return None;
        },
    };
    let (vault_paths, p5) = match decode_str_list_field(s, p4) {
        Some(x) => x,
        None => {
            return None;
        },
    };
    let f = VaultFile { file_name, file_hash, file_path, file_size, vault_paths };
    Some((f, p5))
}

/// Reads `k` entries in a row.
fn decode_files(s: &[u8], pos: usize, k: u64) -> (r: Option<(Vec<VaultFile>, usize)>)
    requires
        pos <= s@.len(),
    ensures
        r matches Some((l, p)) ==> parse_files(s@, pos as int, k as nat) == Some(
            (files_view(l@), p as int),
        ) && p <= s@.len(),
        r is None ==> parse_files(s@, pos as int, k as nat) is None,
{
    let mut out: Vec<VaultFile> = Vec::new();
    let mut cur: usize = pos;
    let mut i: u64 = 0;
    proof {
        assert(files_view(out@) =~= Seq::<VaultFileV>::empty());
    }
    while i < k
        invariant
            i <= k,
            cur <= s@.len(),
            parse_files(s@, pos as int, k as nat) == (match parse_files(
                s@,
                cur as int,
                (k - i) as nat,
            ) {
                Some((l, p)) => Some((files_view(out@) + l, p)),
                None => None::<(Seq<VaultFileV>, int)>,
            }),
        decreases k - i,
    {
        match decode_file_field(s, cur) {
            Some((f, p2)) => {
                let ghost pre_view = files_view(out@);
                out.push(f);
                cur = p2;
                i = i + 1;
                proof {
                    assert(files_view(out@) =~= pre_view.push(out@.last()@));
                    let r2 = parse_files(s@, cur as int, (k - i) as nat);
                    match r2 {
                        Some((l2, q)) => {
                            assert(pre_view + (seq![out@.last()@] + l2) =~= files_view(out@) + l2);
                        },
                        None => {},
                    }
                }
            },
            None => {
                return None;
            },
        }
    }
    proof {
        assert(parse_files(s@, cur as int, 0) == Some((Seq::<VaultFileV>::empty(), cur as int)));
        assert(files_view(out@) + Seq::<VaultFileV>::empty() =~= files_view(out@));
    }
    Some((out, cur))
}

/// Reads an entry list field.
fn decode_file_list_field(s: &[u8], pos: usize) -> (r: Option<(Vec<VaultFile>, usize)>)
    ensures
        r matches Some((l, p)) ==> parse_file_list(s@, pos as int) == Some(
            (files_view(l@), p as int),
        ) && p <= s@.len(),
        r is None ==> parse_file_list(s@, pos as int) is None,
{
    let (k, p) = match decode_nat20(s, pos) {
        Some(x) => x,
        None => {
            return None;
        },
    };
    decode_files(s, p, k)
}

/// Reads one snapshot.
fn decode_snapshot_field(s: &[u8], pos: usize) -> (r: Option<(Snapshot, usize)>)
    ensures
        r matches Some((v, p)) ==> parse_snapshot(s@, pos as int) == Some((v@, p as int)) && p
            <= s@.len(),
        r is None ==> parse_snapshot(s@, pos as int) is None,
{
    let (snapshot_id, p1) = match decode_str_field(s, pos) {
        Some(x) => x,
        None => {
            return None;
        },
    };
    let (snapshot_time, p2) = match decode_str_field(s, p1) {
        Some(x) => x,
        None => {
            return None;
        },
    };
    let (snapshot_files, p3) = match decode_file_list_field(s, p2) {
        Some(x) => x,
        None => {
            return None;
        },
    };
    let v = Snapshot { snapshot_id, snapshot_time, snapshot_files };
    Some((v, p3))
}

/// Reads `k` snapshots in a row.
fn decode_snapshots(s: &[u8], pos: usize, k: u64) -> (r: Option<(Vec<Snapshot>, usize)>)
    requires
        pos <= s@.len(),
    ensures
        r matches Some((l, p)) ==> parse_snapshots(s@, pos as int, k as nat) == Some(
            (snapshots_view(l@), p as int),
        ) && p <= s@.len(),
        r is None ==> parse_snapshots(s@, pos as int, k as nat) is None,
{
    let mut out: Vec<Snapshot> = Vec::new();
    let mut cur: usize = pos;
    let mut i: u64 = 0;
    proof {
        assert(snapshots_view(out@) =~= Seq::<SnapshotV>::empty());
    }
    while i < k
        invariant
            i <= k,
            cur <= s@.len(),
            parse_snapshots(s@, pos as int, k as nat) == (match parse_snapshots(
                s@,
                cur as int,
                (k - i) as nat,
            ) {
                Some((l, p)) => Some((snapshots_view(out@) + l, p)),
                None => None::<(Seq<SnapshotV>, int)>,
            }),
        decreases k - i,
    {
        match decode_snapshot_field(s, cur) {
            Some((v, p2)) => {
                let ghost pre_view = snapshots_view(out@);
                out.push(v);
                cur = p2;
                i = i + 1;
                proof {
                    assert(snapshots_view(out@) =~= pre_view.push(out@.last()@));
                    let r2 = parse_snapshots(s@, cur as int, (k - i) as nat);
                    match r2 {
                        Some((l2, q)) => {
                            assert(pre_view + (seq![out@.last()@] + l2) =~= snapshots_view(out@)
                                + l2);
                        },
                        None => {},
                    }
                }
            },
            None => {
                return None;
            },
        }
    }
    proof {
        assert(parse_snapshots(s@, cur as int, 0) == Some((Seq::<SnapshotV>::empty(), cur as int)));
        assert(snapshots_view(out@) + Seq::<SnapshotV>::empty() =~= snapshots_view(out@));
    }
    Some((out, cur))
}

/// Reads a snapshot list field.
fn decode_snapshot_list_field(s: &[u8], pos: usize) -> (r: Option<(Vec<Snapshot>, usize)>)
    ensures
        r matches Some((l, p)) ==> parse_snapshot_list(s@, pos as int) == Some(
            (snapshots_view(l@), p as int),
        ) && p <= s@.len(),
        r is None ==> parse_snapshot_list(s@, pos as int) is None,
{
    let (k, p) = match decode_nat20(s, pos) {
        Some(x) => x,
        None => {
            return None;
        },
    };
    decode_snapshots(s, p, k)
}

/// Decodes a whole manifest buffer; rejects anything that is not exactly an
/// encoded manifest.
pub fn decode_manifest(s: &[u8]) -> (r: Option<VaultManifest>)
    ensures
        r matches Some(m) ==> parse_manifest(s@) == Some(m@),
        r is None ==> parse_manifest(s@) is None,
{
    let (snapshots, p) = match decode_snapshot_list_field(s, 0) {
        Some(x) => x,
        None => {
            return None;
        },
    };
    let (files, p2) = match decode_file_list_field(s, p) {
        Some(x) => x,
        None => {
            return None;
        },
    };
    if p2 != s.len() {
        return None;
    }
    Some(VaultManifest { snapshots, files })
}

/// Decodes a whole config buffer; rejects anything that is not exactly an
/// encoded config.
pub fn decode_config(s: &[u8]) -> (r: Option<VaultConfig>)
    ensures
        r matches Some(c) ==> parse_config(s@) == Some(c.password_hash@),
        r is None ==> parse_config(s@) is None,
{
    let (password_hash, p) = match decode_str_field(s, 0) {
        Some(x) => x,
        None => {
            return None;
        },
    };
    if p != s.len() {
        return None;
    }
    Some(VaultConfig { password_hash })
}

} // verus!
