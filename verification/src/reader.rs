//! A specification-level reader of the emitted class file, and the round-trip
//! law: the field table of the emitted bytes holds exactly one entry per
//! resolved field, and each field's `ConstantValue` integer constant, read
//! back per the format's own length-prefixed encoding, equals the value it
//! was built from.

use vstd::prelude::*;

use crate::classfile::{
    be16,
    cp_dyn,
    field_entries,
    field_entry,
    fixed_entries,
    header_bytes,
    int_entry,
    method_and_tail,
    spec_class_file,
    two_c32,
    utf8_entry,
};

verus! {

/// The big-endian 16-bit value at `off`.
pub open spec fn read_u16(s: Seq<u8>, off: int) -> int
    recommends
        0 <= off,
        off + 2 <= s.len(),
{
    s[off] * 0x100 + s[off + 1]
}

/// The big-endian 32-bit value at `off`.
pub open spec fn read_u32(s: Seq<u8>, off: int) -> int
    recommends
        0 <= off,
        off + 4 <= s.len(),
{
    s[off] * 0x100_0000 + s[off + 1] * 0x1_0000 + s[off + 2] * 0x100 + s[off + 3]
}

/// The signed value of the `CONSTANT_Integer_info` record whose tag byte is
/// at `off`: four bytes big-endian, two's complement.
pub open spec fn read_integer_entry(s: Seq<u8>, off: int) -> int {
    let u = read_u32(s, off + 1);
    if u >= 0x8000_0000 {
        u - 0x1_0000_0000
    } else {
        u
    }
}

/// The size of the constant-pool record at `off`, per its tag: Utf8 records
/// carry a two-byte length, Integer, NameAndType and Methodref records are
/// five bytes, Class records three.
pub open spec fn cp_entry_size(s: Seq<u8>, off: int) -> int {
    if s[off] == 1 {
        3 + read_u16(s, off + 1)
    } else if s[off] == 3 {
        5
    } else if s[off] == 7 {
        3
    } else if s[off] == 10 {
        5
    } else if s[off] == 12 {
        5
    } else {
        0
    }
}

/// The offset reached after walking `k` constant-pool records from `off`.
pub open spec fn cp_entry_offset(s: Seq<u8>, off: int, k: nat) -> int
    decreases k,
{
    if k == 0 {
        off
    } else {
        cp_entry_offset(s, off + cp_entry_size(s, off), (k - 1) as nat)
    }
}

/// The pool's entry count as written at offset 8.
pub open spec fn read_cp_count(s: Seq<u8>) -> int {
    read_u16(s, 8)
}

/// The offset of the two-byte field count: past the pool's records (count
/// minus one of them, starting at offset 10) and the eight bytes of access
/// flags, this-class, super-class and interface count.
pub open spec fn field_count_offset(s: Seq<u8>) -> int {
    cp_entry_offset(s, 10, (read_cp_count(s) - 1) as nat) + 8
}

/// The number of fields the file declares.
pub open spec fn read_field_count(s: Seq<u8>) -> int {
    read_u16(s, field_count_offset(s))
}

/// The `ConstantValue` of field `i`: the last two bytes of its sixteen-byte
/// record name an Integer constant; the value is read from that record.
pub open spec fn read_field_value(s: Seq<u8>, i: int) -> int {
    let rec = field_count_offset(s) + 2 + 16 * i;
    let vid = read_u16(s, rec + 14);
    read_integer_entry(s, cp_entry_offset(s, 10, (vid - 1) as nat))
}

proof fn lemma_read_be16(s: Seq<u8>, off: int, n: int)
    requires
        0 <= n < 0x10000,
        0 <= off,
        off + 2 <= s.len(),
        s[off] == (n / 0x100) as u8,
        s[off + 1] == (n % 0x100) as u8,
    ensures
        read_u16(s, off) == n,
{
    assert((n / 0x100) * 0x100 + n % 0x100 == n) by (nonlinear_arith)
        requires
            0 <= n < 0x10000,
    ;
}

proof fn lemma_read_be32(s: Seq<u8>, off: int, n: int)
    requires
        0 <= n < 0x1_0000_0000,
        0 <= off,
        off + 4 <= s.len(),
        s[off] == (n / 0x100_0000) as u8,
        s[off + 1] == ((n / 0x1_0000) % 0x100) as u8,
        s[off + 2] == ((n / 0x100) % 0x100) as u8,
        s[off + 3] == (n % 0x100) as u8,
    ensures
        read_u32(s, off) == n,
{
    assert((n / 0x100_0000) * 0x100_0000 + ((n / 0x1_0000) % 0x100) * 0x1_0000 + ((n / 0x100)
        % 0x100) * 0x100 + n % 0x100 == n) by (nonlinear_arith)
        requires
            0 <= n < 0x1_0000_0000,
    ;
}

/// Decoding inverts encoding for one Integer record.
proof fn lemma_integer_entry_roundtrip(s: Seq<u8>, off: int, v: i32)
    requires
        0 <= off,
        off + 5 <= s.len(),
        s.subrange(off, off + 5) == int_entry(v),
    ensures
        read_integer_entry(s, off) == v as int,
{
    let n = two_c32(v);
    assert(s[off + 1] == int_entry(v)[1]);
    assert(s[off + 2] == int_entry(v)[2]);
    assert(s[off + 3] == int_entry(v)[3]);
    assert(s[off + 4] == int_entry(v)[4]);
    lemma_read_be32(s, off + 1, n);
}

/// The bytes of the pool record with 0-based index `j` as the writer emits
/// them: the class name, the ten well-known records, then alternating Utf8
/// and Integer records for the fields.
pub open spec fn pool_entry_bytes(name_b: Seq<u8>, fs: Seq<(Seq<u8>, i32)>, j: int) -> Seq<u8> {
    if j == 0 {
        utf8_entry(name_b)
    } else if j == 1 {
        seq![7u8, 0, 1]
    } else if j == 2 {
        seq![1u8, 0, 1, 73]
    } else if j == 3 {
        seq![1u8, 0, 13, 67, 111, 110, 115, 116, 97, 110, 116, 86, 97, 108, 117, 101]
    } else if j == 4 {
        seq![1u8, 0, 16, 106, 97, 118, 97, 47, 108, 97, 110, 103, 47, 79, 98, 106, 101, 99, 116]
    } else if j == 5 {
        seq![7u8, 0, 5]
    } else if j == 6 {
        seq![1u8, 0, 6, 60, 105, 110, 105, 116, 62]
    } else if j == 7 {
        seq![1u8, 0, 3, 40, 41, 86]
    } else if j == 8 {
        seq![1u8, 0, 4, 67, 111, 100, 101]
    } else if j == 9 {
        seq![12u8, 0, 7, 0, 8]
    } else if j == 10 {
        seq![10u8, 0, 6, 0, 10]
    } else if (j - 11) % 2 == 0 {
        utf8_entry(fs[(j - 11) / 2].0)
    } else {
        int_entry(fs[(j - 11) / 2].1)
    }
}

/// The first `k` pool records, concatenated.
pub open spec fn pool_concat(name_b: Seq<u8>, fs: Seq<(Seq<u8>, i32)>, k: nat) -> Seq<u8>
    decreases k,
{
    if k == 0 {
        Seq::empty()
    } else {
        pool_concat(name_b, fs, (k - 1) as nat) + pool_entry_bytes(name_b, fs, k as int - 1)
    }
}

/// The eleven leading records are the class name followed by the well-known
/// block.
proof fn lemma_pool_concat_11(name_b: Seq<u8>, fs: Seq<(Seq<u8>, i32)>)
    ensures
        pool_concat(name_b, fs, 11) == utf8_entry(name_b) + fixed_entries(),
{
    assert(pool_concat(name_b, fs, 0) =~= Seq::<u8>::empty());
    assert(pool_concat(name_b, fs, 1) =~= pool_entry_bytes(name_b, fs, 0));
    assert(pool_concat(name_b, fs, 2) == pool_concat(name_b, fs, 1) + pool_entry_bytes(
        name_b,
        fs,
        1,
    ));
    assert(pool_concat(name_b, fs, 3) == pool_concat(name_b, fs, 2) + pool_entry_bytes(
        name_b,
        fs,
        2,
    ));
    assert(pool_concat(name_b, fs, 4) == pool_concat(name_b, fs, 3) + pool_entry_bytes(
        name_b,
        fs,
        3,
    ));
    assert(pool_concat(name_b, fs, 5) == pool_concat(name_b, fs, 4) + pool_entry_bytes(
        name_b,
        fs,
        4,
    ));
    assert(pool_concat(name_b, fs, 6) == pool_concat(name_b, fs, 5) + pool_entry_bytes(
        name_b,
        fs,
        5,
    ));
    assert(pool_concat(name_b, fs, 7) == pool_concat(name_b, fs, 6) + pool_entry_bytes(
        name_b,
        fs,
        6,
    ));
    assert(pool_concat(name_b, fs, 8) == pool_concat(name_b, fs, 7) + pool_entry_bytes(
        name_b,
        fs,
        7,
    ));
    assert(pool_concat(name_b, fs, 9) == pool_concat(name_b, fs, 8) + pool_entry_bytes(
        name_b,
        fs,
        8,
    ));
    assert(pool_concat(name_b, fs, 10) == pool_concat(name_b, fs, 9) + pool_entry_bytes(
        name_b,
        fs,
        9,
    ));
    assert(pool_concat(name_b, fs, 11) == pool_concat(name_b, fs, 10) + pool_entry_bytes(
        name_b,
        fs,
        10,
    ));
    assert(pool_concat(name_b, fs, 11) =~= utf8_entry(name_b) + fixed_entries());
}

/// The records past the eleventh are the dynamic region.
proof fn lemma_pool_concat_dyn(name_b: Seq<u8>, fs: Seq<(Seq<u8>, i32)>, m: int)
    requires
        0 <= m <= fs.len(),
    ensures
        pool_concat(name_b, fs, (11 + 2 * m) as nat) == pool_concat(name_b, fs, 11) + cp_dyn(
            fs.take(m),
        ),
    decreases m,
{
    if m == 0 {
        assert(fs.take(0) =~= Seq::<(Seq<u8>, i32)>::empty());
        assert(cp_dyn(fs.take(0)) =~= Seq::<u8>::empty());
        assert(pool_concat(name_b, fs, 11) + Seq::<u8>::empty() =~= pool_concat(name_b, fs, 11));
    } else {
        lemma_pool_concat_dyn(name_b, fs, m - 1);
        let ju = 11 + 2 * (m - 1);
        let ji = 12 + 2 * (m - 1);
        assert(pool_entry_bytes(name_b, fs, ju) == utf8_entry(fs[m - 1].0)) by {
            assert((ju - 11) % 2 == 0);
            assert((ju - 11) / 2 == m - 1);
        }
        assert(pool_entry_bytes(name_b, fs, ji) == int_entry(fs[m - 1].1)) by {
            assert((ji - 11) % 2 == 1);
            assert((ji - 11) / 2 == m - 1);
        }
        assert(pool_concat(name_b, fs, (11 + 2 * m) as nat) == pool_concat(
            name_b,
            fs,
            (12 + 2 * (m - 1)) as nat,
        ) + pool_entry_bytes(name_b, fs, ji));
        assert(pool_concat(name_b, fs, (12 + 2 * (m - 1)) as nat) == pool_concat(
            name_b,
            fs,
            (11 + 2 * (m - 1)) as nat,
        ) + pool_entry_bytes(name_b, fs, ju));
        assert(fs.take(m).drop_last() =~= fs.take(m - 1));
        assert(fs.take(m).last() == fs[m - 1]);
        assert(cp_dyn(fs.take(m)) == cp_dyn(fs.take(m - 1)) + utf8_entry(fs[m - 1].0) + int_entry(
            fs[m - 1].1,
        ));
        assert(pool_concat(name_b, fs, (11 + 2 * m) as nat) =~= pool_concat(name_b, fs, 11)
            + cp_dyn(fs.take(m)));
    }
}

/// The whole pool region is the concatenation of all its records.
proof fn lemma_pool_concat_all(name_b: Seq<u8>, fs: Seq<(Seq<u8>, i32)>)
    ensures
        pool_concat(name_b, fs, (11 + 2 * fs.len()) as nat) == utf8_entry(name_b)
            + fixed_entries() + cp_dyn(fs),
{
    lemma_pool_concat_11(name_b, fs);
    lemma_pool_concat_dyn(name_b, fs, fs.len() as int);
    assert(fs.take(fs.len() as int) =~= fs);
    assert(pool_concat(name_b, fs, 11) + cp_dyn(fs) =~= utf8_entry(name_b) + fixed_entries()
        + cp_dyn(fs));
}

/// A longer concatenation extends a shorter one.
proof fn lemma_pool_concat_prefix(name_b: Seq<u8>, fs: Seq<(Seq<u8>, i32)>, k: nat, m: nat)
    requires
        k <= m,
    ensures
        pool_concat(name_b, fs, k).len() <= pool_concat(name_b, fs, m).len(),
        forall|i: int|
            0 <= i < pool_concat(name_b, fs, k).len() ==> pool_concat(name_b, fs, m)[i]
                == pool_concat(name_b, fs, k)[i],
    decreases m,
{
    if m > k {
        lemma_pool_concat_prefix(name_b, fs, k, (m - 1) as nat);
    }
}

/// Whether `s` holds the whole pool region starting at offset 10.
pub open spec fn pool_placed(s: Seq<u8>, name_b: Seq<u8>, fs: Seq<(Seq<u8>, i32)>) -> bool {
    let pool = pool_concat(name_b, fs, (11 + 2 * fs.len()) as nat);
    10 + pool.len() <= s.len() && s.subrange(10, 10 + pool.len() as int) == pool
}

/// The bytes of record `j` stand in `s` right after the first `j` records.
proof fn lemma_entry_at(s: Seq<u8>, name_b: Seq<u8>, fs: Seq<(Seq<u8>, i32)>, j: int)
    requires
        pool_placed(s, name_b, fs),
        0 <= j < 11 + 2 * fs.len(),
    ensures
        forall|t: int|
            0 <= t < pool_entry_bytes(name_b, fs, j).len() ==> s[10 + pool_concat(
                name_b,
                fs,
                j as nat,
            ).len() as int + t] == pool_entry_bytes(name_b, fs, j)[t],
        pool_concat(name_b, fs, (j + 1) as nat).len() == pool_concat(name_b, fs, j as nat).len()
            + pool_entry_bytes(name_b, fs, j).len(),
        pool_concat(name_b, fs, (j + 1) as nat).len() <= pool_concat(
            name_b,
            fs,
            (11 + 2 * fs.len()) as nat,
        ).len(),
{
    let nn = (11 + 2 * fs.len()) as nat;
    let pool = pool_concat(name_b, fs, nn);
    let before = pool_concat(name_b, fs, j as nat).len();
    let entry = pool_entry_bytes(name_b, fs, j);
    lemma_pool_concat_prefix(name_b, fs, (j + 1) as nat, nn);
    assert(pool_concat(name_b, fs, (j + 1) as nat) == pool_concat(name_b, fs, j as nat) + entry);
    assert forall|t: int| 0 <= t < entry.len() implies s[10 + before + t] == entry[t] by {
        assert(pool_concat(name_b, fs, (j + 1) as nat)[before + t] == entry[t]);
        assert(pool[before + t] == pool_concat(name_b, fs, (j + 1) as nat)[before + t]);
        assert(s.subrange(10, 10 + pool.len() as int)[before + t] == pool[before + t]);
    }
}

/// The reader's record size agrees with the writer's record at each index.
proof fn lemma_entry_size_at(s: Seq<u8>, name_b: Seq<u8>, fs: Seq<(Seq<u8>, i32)>, j: int)
    requires
        pool_placed(s, name_b, fs),
        0 <= j < 11 + 2 * fs.len(),
        name_b.len() <= 0xffff,
        forall|i: int| 0 <= i < fs.len() ==> #[trigger] fs[i].0.len() <= 0xffff,
    ensures
        cp_entry_size(s, 10 + pool_concat(name_b, fs, j as nat).len() as int) == pool_entry_bytes(
            name_b,
            fs,
            j,
        ).len(),
{
    let off = 10 + pool_concat(name_b, fs, j as nat).len() as int;
    let entry = pool_entry_bytes(name_b, fs, j);
    lemma_entry_at(s, name_b, fs, j);
    let pool = pool_concat(name_b, fs, (11 + 2 * fs.len()) as nat);
    assert(off + entry.len() <= s.len());
    if j == 0 {
        assert(s[off] == pool_entry_bytes(name_b, fs, 0)[0]);
        assert(s[off + 1] == pool_entry_bytes(name_b, fs, 0)[1]);
        assert(s[off + 2] == pool_entry_bytes(name_b, fs, 0)[2]);
        assert(pool_entry_bytes(name_b, fs, 0)[0] == 1);
        assert(pool_entry_bytes(name_b, fs, 0)[1] == (name_b.len() as int / 0x100) as u8);
        assert(pool_entry_bytes(name_b, fs, 0)[2] == (name_b.len() as int % 0x100) as u8);
        lemma_read_be16(s, off + 1, name_b.len() as int);
    } else if j <= 10 {
        assert(s[off] == entry[0]);
        if entry[0] == 1 {
            assert(read_u16(s, off + 1) == entry[1] * 0x100 + entry[2]);
        }
    } else if (j - 11) % 2 == 0 {
        let x = fs[(j - 11) / 2].0;
        assert(0 <= (j - 11) / 2 < fs.len());
        assert(s[off] == pool_entry_bytes(name_b, fs, j)[0]);
        assert(s[off + 1] == pool_entry_bytes(name_b, fs, j)[1]);
        assert(s[off + 2] == pool_entry_bytes(name_b, fs, j)[2]);
        assert(pool_entry_bytes(name_b, fs, j)[0] == 1);
        assert(pool_entry_bytes(name_b, fs, j)[1] == (x.len() as int / 0x100) as u8);
        assert(pool_entry_bytes(name_b, fs, j)[2] == (x.len() as int % 0x100) as u8);
        lemma_read_be16(s, off + 1, x.len() as int);
    } else {
        assert(s[off] == pool_entry_bytes(name_b, fs, j)[0]);
        assert(pool_entry_bytes(name_b, fs, j)[0] == 3);
    }
}

/// Walking `k` records from the end of the first `j` lands at the end of the
/// first `j + k`.
proof fn lemma_offset_walk(s: Seq<u8>, name_b: Seq<u8>, fs: Seq<(Seq<u8>, i32)>, j: int, k: int)
    requires
        pool_placed(s, name_b, fs),
        name_b.len() <= 0xffff,
        forall|i: int| 0 <= i < fs.len() ==> #[trigger] fs[i].0.len() <= 0xffff,
        0 <= j,
        0 <= k,
        j + k <= 11 + 2 * fs.len(),
    ensures
        cp_entry_offset(s, 10 + pool_concat(name_b, fs, j as nat).len() as int, k as nat) == 10
            + pool_concat(name_b, fs, (j + k) as nat).len(),
    decreases k,
{
    if k > 0 {
        lemma_entry_size_at(s, name_b, fs, j);
        lemma_entry_at(s, name_b, fs, j);
        lemma_offset_walk(s, name_b, fs, j + 1, k - 1);
    }
}

proof fn lemma_field_entries_len(fs: Seq<(Seq<u8>, i32)>)
    ensures
        field_entries(fs).len() == 16 * fs.len(),
    decreases fs.len(),
{
    if fs.len() > 0 {
        lemma_field_entries_len(fs.drop_last());
    }
}

proof fn lemma_field_entries_index(fs: Seq<(Seq<u8>, i32)>, i: int)
    requires
        0 <= i < fs.len(),
    ensures
        field_entries(fs).subrange(16 * i, 16 * i + 16) == field_entry(12 + 2 * i, 13 + 2 * i),
    decreases fs.len(),
{
    lemma_field_entries_len(fs);
    lemma_field_entries_len(fs.drop_last());
    if i == fs.len() - 1 {
        assert(field_entries(fs) == field_entries(fs.drop_last()) + field_entry(
            12 + 2 * i,
            13 + 2 * i,
        ));
        assert(field_entries(fs).subrange(16 * i, 16 * i + 16) =~= field_entry(
            12 + 2 * i,
            13 + 2 * i,
        ));
    } else {
        lemma_field_entries_index(fs.drop_last(), i);
        assert(field_entries(fs) == field_entries(fs.drop_last()) + field_entry(
            12 + 2 * (fs.len() - 1),
            13 + 2 * (fs.len() - 1),
        ));
        assert(field_entries(fs).subrange(16 * i, 16 * i + 16) =~= field_entries(
            fs.drop_last(),
        ).subrange(16 * i, 16 * i + 16));
    }
}

/// Law: round trip. For every resolved-field table the writer can emit, the
/// emitted file declares exactly one field per entry, and the Integer
/// constant named by each field's `ConstantValue` attribute, read back per
/// the format's own length-prefixed record encoding, equals the value the
/// field was built from.
#[verifier::rlimit(100)]
pub proof fn lemma_class_file_round_trip(
    version: (u16, u16),
    name_b: Seq<u8>,
    fs: Seq<(Seq<u8>, i32)>,
)
    requires
        fs.len() <= 32761,
        name_b.len() <= 0xffff,
        forall|i: int| 0 <= i < fs.len() ==> #[trigger] fs[i].0.len() <= 0xffff,
    ensures
        read_field_count(spec_class_file(version, name_b, fs)) == fs.len(),
        forall|i: int|
            0 <= i < fs.len() ==> #[trigger] read_field_value(spec_class_file(version, name_b, fs), i)
                == fs[i].1 as int,
{
    let s = spec_class_file(version, name_b, fs);
    let n = fs.len() as int;
    let cnt = 12 + 2 * n;
    let nn = (11 + 2 * fs.len()) as nat;
    let pool = pool_concat(name_b, fs, nn);
    lemma_pool_concat_all(name_b, fs);
    lemma_field_entries_len(fs);
    let rest = be16(0x1031) + be16(2) + be16(6) + be16(0) + be16(n) + field_entries(fs)
        + method_and_tail();
    assert(header_bytes(version).len() == 8);
    assert(s =~= header_bytes(version) + be16(cnt) + pool + rest);
    assert(s.subrange(10, 10 + pool.len() as int) =~= pool);
    assert(pool_placed(s, name_b, fs));

    // the pool's record count
    assert(s[8] == be16(cnt)[0]);
    assert(s[9] == be16(cnt)[1]);
    lemma_read_be16(s, 8, cnt);
    assert(read_cp_count(s) == cnt);
    assert((read_cp_count(s) - 1) as nat == nn);

    // the field count stands right after the pool and the class references
    assert(pool_concat(name_b, fs, 0).len() == 0);
    lemma_offset_walk(s, name_b, fs, 0, 11 + 2 * n);
    let fco = 10 + pool.len() as int + 8;
    assert(field_count_offset(s) == fco);
    assert(s[fco] == be16(n)[0]);
    assert(s[fco + 1] == be16(n)[1]);
    lemma_read_be16(s, fco, n);
    assert(read_field_count(s) == n);

    // each field record names the Integer constant it was written with
    assert forall|i: int| 0 <= i < fs.len() implies #[trigger] read_field_value(s, i) == fs[i].1
        as int by {
        let rec = fco + 2 + 16 * i;
        lemma_field_entries_index(fs, i);
        let fe = field_entries(fs).subrange(16 * i, 16 * i + 16);
        let vid = 13 + 2 * i;
        assert(s[rec + 14] == field_entries(fs)[16 * i + 14]);
        assert(field_entries(fs)[16 * i + 14] == fe[14]);
        assert(fe[14] == be16(vid)[0]);
        assert(s[rec + 15] == field_entries(fs)[16 * i + 15]);
        assert(field_entries(fs)[16 * i + 15] == fe[15]);
        assert(fe[15] == be16(vid)[1]);
        lemma_read_be16(s, rec + 14, vid);
        assert(read_u16(s, rec + 14) == vid);

        lemma_offset_walk(s, name_b, fs, 0, vid - 1);
        let ioff = 10 + pool_concat(name_b, fs, (vid - 1) as nat).len() as int;
        assert(cp_entry_offset(s, 10, (vid - 1) as nat) == ioff);
        lemma_entry_at(s, name_b, fs, vid - 1);
        assert((vid - 1 - 11) % 2 == 1);
        assert((vid - 1 - 11) / 2 == i);
        assert(pool_entry_bytes(name_b, fs, vid - 1) == int_entry(fs[i].1));
        lemma_pool_concat_prefix(name_b, fs, (vid) as nat, nn);
        assert(ioff + 5 <= s.len());
        assert(s.subrange(ioff, ioff + 5) =~= int_entry(fs[i].1));
        lemma_integer_entry_roundtrip(s, ioff, fs[i].1);
    }
}

} // verus!
