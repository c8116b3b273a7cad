//! Constant-pool and field-table builders, and the class-file writer.
//!
//! Every byte of the output is pinned down by spec functions: `spec_class_file`
//! gives the exact byte sequence emitted for a `(version, class name,
//! resolved fields)` triple.

use vstd::prelude::*;

use crate::FormatLimitError;

verus! {

/// Big-endian bytes of a 16-bit value, stated over `int` for use in specs.
pub open spec fn be16(n: int) -> Seq<u8>
    recommends
        0 <= n < 0x10000,
{
    seq![(n / 0x100) as u8, (n % 0x100) as u8]
}

/// Big-endian bytes of a 32-bit value.
pub open spec fn be32(n: int) -> Seq<u8>
    recommends
        0 <= n < 0x1_0000_0000,
{
    seq![
        (n / 0x100_0000) as u8,
        ((n / 0x1_0000) % 0x100) as u8,
        ((n / 0x100) % 0x100) as u8,
        (n % 0x100) as u8,
    ]
}

/// The two's-complement 32-bit image of a signed value.
pub open spec fn two_c32(v: i32) -> int {
    if v >= 0 {
        v as int
    } else {
        v + 0x1_0000_0000
    }
}

/// A `CONSTANT_Integer_info` record: tag 3, then the value big-endian.
pub open spec fn int_entry(v: i32) -> Seq<u8> {
    seq![3u8] + be32(two_c32(v))
}

/// A `CONSTANT_Utf8_info` record: tag 1, a two-byte length, then the payload.
pub open spec fn utf8_entry(b: Seq<u8>) -> Seq<u8>
    recommends
        b.len() <= 0xffff,
{
    seq![1u8] + be16(b.len() as int) + b
}

/// Java's "modified UTF-8" encoding of a string, as the class-file format
/// requires it. The encoding depends on the characters alone.
pub uninterp spec fn java_cesu8_of(s: Seq<char>) -> Seq<u8>;

/// Relies on `cesu8::to_java_cesu8`: the Java modified UTF-8 bytes of the
/// string, a pure function of its characters.
#[verifier::external_body]
fn java_cesu8(s: &str) -> (r: Vec<u8>)
    ensures
        r@ == java_cesu8_of(s@),
{
    cesu8::to_java_cesu8(s).into_owned()
}

/// The constant pool of dynamically inserted constants.
pub struct ConstPool {
    data: Vec<u8>,
    prev_id: u16,
}

impl ConstPool {
    /// The raw bytes of the inserted entries, in insertion order.
    pub closed spec fn bytes(&self) -> Seq<u8> {
        self.data@
    }

    /// The ID handed out by the most recent insertion (11 before any).
    pub closed spec fn id(&self) -> u16 {
        self.prev_id
    }

    /// The pool starts after the 11 well-known entries and never passes 0xFFFE.
    pub closed spec fn wf(&self) -> bool {
        11 <= self.prev_id <= 0xfffe
    }

    pub fn new() -> (r: ConstPool)
        ensures
            r.wf(),
            r.id() == 11,
            r.bytes() == Seq::<u8>::empty(),
    {
        let pool = ConstPool { data: Vec::new(), prev_id: 11 };
        proof {
            assert(pool.data@ =~= Seq::<u8>::empty());
        }
        pool
    }

    /// Appends an Integer constant, allocating the next sequential ID.
    pub fn insert_integer(&mut self, n: i32) -> (r: Result<u16, FormatLimitError>)
        requires
            old(self).wf(),
        ensures
            final(self).wf(),
            old(self).id() == 0xfffe ==> (r == Result::<u16, FormatLimitError>::Err(
                FormatLimitError::TooManyConstants,
            ) && *final(self) == *old(self)),
            old(self).id() != 0xfffe ==> (r == Result::<u16, FormatLimitError>::Ok(
                (old(self).id() + 1) as u16,
            ) && final(self).id() == old(self).id() + 1 && final(self).bytes() == old(
                self,
            ).bytes() + int_entry(n)),
    {
        if self.prev_id == 0xfffe {
            return Err(FormatLimitError::TooManyConstants);
        }
        let u: u32 = if n >= 0 {
            n as u32
        } else {
            ((n as i64) + 0x1_0000_0000i64) as u32
        };
        self.data.push(3u8);
        self.data.push((u / 0x100_0000) as u8);
        self.data.push(((u / 0x1_0000) % 0x100) as u8);
        self.data.push(((u / 0x100) % 0x100) as u8);
        self.data.push((u % 0x100) as u8);
        proof {
            assert(self.data@ =~= old(self).data@ + int_entry(n));
        }
        self.prev_id = self.prev_id + 1;
        Ok(self.prev_id)
    }

    /// Appends a Utf8 constant holding the modified UTF-8 encoding of `s`,
    /// allocating the next sequential ID.
    pub fn insert_utf8(&mut self, s: &str) -> (r: Result<u16, FormatLimitError>)
        requires
            old(self).wf(),
        ensures
            final(self).wf(),
            old(self).id() == 0xfffe ==> r == Result::<u16, FormatLimitError>::Err(
                FormatLimitError::TooManyConstants,
            ) && *final(self) == *old(self),
            old(self).id() != 0xfffe && java_cesu8_of(s@).len() > 0xffff ==> r == Result::<
                u16,
                FormatLimitError,
            >::Err(FormatLimitError::Utf8TooLong) && *final(self) == *old(self),
            old(self).id() != 0xfffe && java_cesu8_of(s@).len() <= 0xffff ==> r == Result::<
                u16,
                FormatLimitError,
            >::Ok((old(self).id() + 1) as u16) && final(self).id() == old(self).id() + 1
                && final(self).bytes() == old(self).bytes() + utf8_entry(java_cesu8_of(s@)),
    {
        if self.prev_id == 0xfffe {
            return Err(FormatLimitError::TooManyConstants);
        }
        let mut d = java_cesu8(s);
        if d.len() > 0xffff {
            return Err(FormatLimitError::Utf8TooLong);
        }
        let len = d.len();
        self.data.push(1u8);
        self.data.push((len / 0x100) as u8);
        self.data.push((len % 0x100) as u8);
        self.data.append(&mut d);
        proof {
            assert(self.data@ =~= old(self).data@ + utf8_entry(java_cesu8_of(s@)));
        }
        self.prev_id = self.prev_id + 1;
        Ok(self.prev_id)
    }

    /// Emits the pool: its entry count (allocated IDs + 1, per the format's
    /// off-by-one convention), the class-name entry, the ten remaining
    /// well-known entries, then every dynamically inserted entry.
    pub fn write_out(self, class_name: &str, out: &mut Vec<u8>) -> (r: Result<
        (),
        FormatLimitError,
    >)
        requires
            self.wf(),
        ensures
            java_cesu8_of(class_name@).len() > 0xffff ==> r == Result::<(), FormatLimitError>::Err(
                FormatLimitError::Utf8TooLong,
            ) && *final(out) == *old(out),
            java_cesu8_of(class_name@).len() <= 0xffff ==> r == Result::<(), FormatLimitError>::Ok(
                (),
            ) && final(out)@ == old(out)@ + be16(self.id() + 1) + utf8_entry(
                java_cesu8_of(class_name@),
            ) + fixed_entries() + self.bytes(),
    {
        let mut enc = java_cesu8(class_name);
        if enc.len() > 0xffff {
            return Err(FormatLimitError::Utf8TooLong);
        }
        let ghost out0 = out@;
        let count = self.id_count();
        out.push((count / 0x100) as u8);
        out.push((count % 0x100) as u8);
        let len = enc.len();
        out.push(1u8);
        out.push((len / 0x100) as u8);
        out.push((len % 0x100) as u8);
        out.append(&mut enc);
        proof {
            assert(out@ =~= out0 + be16(self.id() + 1) + utf8_entry(java_cesu8_of(class_name@)));
        }
        push_fixed_entries(out);
        let mut data = self.data;
        out.append(&mut data);
        proof {
            assert(out@ =~= out0 + be16(self.id() + 1) + utf8_entry(java_cesu8_of(class_name@))
                + fixed_entries() + self.bytes());
        }
        Ok(())
    }

    /// The pool's entry count as written in the file: allocated IDs plus one.
    fn id_count(&self) -> (r: u16)
        requires
            self.wf(),
        ensures
            r == self.id() + 1,
    {
        self.prev_id + 1
    }
}

/// The bytes of the ten well-known constant-pool entries with IDs 2 through
/// 11: the self-class reference, the `I` and `()V` descriptors, the
/// `ConstantValue` and `Code` attribute names, `java/lang/Object` with its
/// class reference, `<init>`, and the superclass constructor's NameAndType
/// and Methodref.
pub open spec fn fixed_entries() -> Seq<u8> {
    seq![
        // 2: Class, name at 1
        7u8, 0, 1,
        // 3: Utf8 "I"
        1, 0, 1, 73,
        // 4: Utf8 "ConstantValue"
        1, 0, 13, 67, 111, 110, 115, 116, 97, 110, 116, 86, 97, 108, 117, 101,
        // 5: Utf8 "java/lang/Object"
        1, 0, 16, 106, 97, 118, 97, 47, 108, 97, 110, 103, 47, 79, 98, 106, 101, 99, 116,
        // 6: Class, name at 5
        7, 0, 5,
        // 7: Utf8 "<init>"
        1, 0, 6, 60, 105, 110, 105, 116, 62,
        // 8: Utf8 "()V"
        1, 0, 3, 40, 41, 86,
        // 9: Utf8 "Code"
        1, 0, 4, 67, 111, 100, 101,
        // 10: NameAndType, name at 7, descriptor at 8
        12, 0, 7, 0, 8,
        // 11: Methodref, class at 6, NameAndType at 10
        10, 0, 6, 0, 10,
    ]
}

/// Appends the well-known entries to `out`.
fn push_fixed_entries(out: &mut Vec<u8>)
    ensures
        final(out)@ == old(out)@ + fixed_entries(),
{
    let more: [u8; 77] = [7u8, 0, 1, 1, 0, 1, 73, 1, 0, 13, 67, 111, 110, 115, 116, 97, 110, 116,
        86, 97, 108, 117, 101, 1, 0, 16, 106, 97, 118, 97, 47, 108, 97, 110, 103, 47, 79, 98, 106,
        101, 99, 116, 7, 0, 5, 1, 0, 6, 60, 105, 110, 105, 116, 62, 1, 0, 3, 40, 41, 86, 1, 0, 4,
        67, 111, 100, 101, 12, 0, 7, 0, 8, 10, 0, 6, 0, 10];
    let mut i: usize = 0;
    while i < 77
        invariant
            i <= 77,
            more@ =~= fixed_entries(),
            out@ == old(out)@ + fixed_entries().take(i as int),
        decreases 77 - i,
    {
        out.push(more[i]);
        proof {
            assert(out@ =~= old(out)@ + fixed_entries().take(i + 1));
        }
        i = i + 1;
    }
    proof {
        assert(out@ =~= old(out)@ + fixed_entries());
    }
}

/// Appends one `CONSTANT_Utf8_info` record holding the modified UTF-8
/// encoding of `s`.
pub fn write_utf8_const(s: &str, out: &mut Vec<u8>) -> (r: Result<(), FormatLimitError>)
    ensures
        java_cesu8_of(s@).len() > 0xffff ==> r == Result::<(), FormatLimitError>::Err(
            FormatLimitError::Utf8TooLong,
        ) && *final(out) == *old(out),
        java_cesu8_of(s@).len() <= 0xffff ==> r == Result::<(), FormatLimitError>::Ok(())
            && final(out)@ == old(out)@ + utf8_entry(java_cesu8_of(s@)),
{
    let mut d = java_cesu8(s);
    if d.len() > 0xffff {
        return Err(FormatLimitError::Utf8TooLong);
    }
    let len = d.len();
    out.push(1u8);
    out.push((len / 0x100) as u8);
    out.push((len % 0x100) as u8);
    out.append(&mut d);
    proof {
        assert(out@ =~= old(out)@ + utf8_entry(java_cesu8_of(s@)));
    }
    Ok(())
}

/// One field record: flags `public | static | final | synthetic` (0x1019),
/// the name constant's ID, the shared `I` descriptor (ID 3), and a single
/// `ConstantValue` attribute (name ID 4, length 2) holding the value
/// constant's ID.
pub open spec fn field_entry(name_id: int, value_id: int) -> Seq<u8>
    recommends
        0 <= name_id < 0x10000,
        0 <= value_id < 0x10000,
{
    be16(0x1019) + be16(name_id) + be16(3) + be16(1) + be16(4) + be32(2) + be16(value_id)
}

/// The field table under construction.
pub struct Fields {
    data: Vec<u8>,
    len: u16,
}

impl Fields {
    /// The raw bytes of the inserted field records, in insertion order.
    pub closed spec fn bytes(&self) -> Seq<u8> {
        self.data@
    }

    /// How many fields were inserted.
    pub closed spec fn count(&self) -> u16 {
        self.len
    }

    pub fn new() -> (r: Fields)
        ensures
            r.count() == 0,
            r.bytes() == Seq::<u8>::empty(),
    {
        let f = Fields { data: Vec::new(), len: 0 };
        proof {
            assert(f.data@ =~= Seq::<u8>::empty());
        }
        f
    }

    /// Registers a name constant and a value constant in `pool` and appends a
    /// `public static final int` field named `k` with constant value `v`.
    pub fn insert_int_field(&mut self, pool: &mut ConstPool, k: &str, v: i32) -> (r: Result<
        (),
        FormatLimitError,
    >)
        requires
            old(pool).wf(),
        ensures
            final(pool).wf(),
            old(self).count() == 0xffff ==> r == Result::<(), FormatLimitError>::Err(
                FormatLimitError::TooManyFields,
            ) && *final(self) == *old(self) && *final(pool) == *old(pool),
            old(self).count() != 0xffff && old(pool).id() == 0xfffe ==> r == Result::<
                (),
                FormatLimitError,
            >::Err(FormatLimitError::TooManyConstants) && *final(self) == *old(self)
                && *final(pool) == *old(pool),
            old(self).count() != 0xffff && old(pool).id() != 0xfffe && java_cesu8_of(k@).len()
                > 0xffff ==> r == Result::<(), FormatLimitError>::Err(FormatLimitError::Utf8TooLong)
                && *final(self) == *old(self) && *final(pool) == *old(pool),
            old(self).count() != 0xffff && old(pool).id() != 0xfffe && java_cesu8_of(k@).len()
                <= 0xffff && old(pool).id() + 1 == 0xfffe ==> r == Result::<
                (),
                FormatLimitError,
            >::Err(FormatLimitError::TooManyConstants) && *final(self) == *old(self)
                && final(pool).id() == old(pool).id() + 1,
            old(self).count() != 0xffff && old(pool).id() != 0xfffe && java_cesu8_of(k@).len()
                <= 0xffff && old(pool).id() + 1 != 0xfffe ==> r == Result::<
                (),
                FormatLimitError,
            >::Ok(()) && final(pool).id() == old(pool).id() + 2
                && final(pool).bytes() == old(pool).bytes() + utf8_entry(java_cesu8_of(k@))
                + int_entry(v) && final(self).count() == old(self).count() + 1
                && final(self).bytes() == old(self).bytes() + field_entry(
                old(pool).id() + 1,
                old(pool).id() + 2,
            ),
    {
        if self.len == 0xffff {
            return Err(FormatLimitError::TooManyFields);
        }
        let k_id = match pool.insert_utf8(k) {
            Ok(id) => id,
            Err(e) => {
                return Err(e);
            },
        };
        let v_id = match pool.insert_integer(v) {
            Ok(id) => id,
            Err(e) => {
                return Err(e);
            },
        };
        let ghost data0 = self.data@;
        self.data.push(0x10u8);
        self.data.push(0x19u8);
        self.data.push((k_id / 0x100) as u8);
        self.data.push((k_id % 0x100) as u8);
        self.data.push(0u8);
        self.data.push(3u8);
        self.data.push(0u8);
        self.data.push(1u8);
        self.data.push(0u8);
        self.data.push(4u8);
        self.data.push(0u8);
        self.data.push(0u8);
        self.data.push(0u8);
        self.data.push(2u8);
        self.data.push((v_id / 0x100) as u8);
        self.data.push((v_id % 0x100) as u8);
        proof {
            assert(self.data@ =~= data0 + field_entry(k_id as int, v_id as int));
        }
        self.len = self.len + 1;
        Ok(())
    }

    /// Emits the table: a two-byte field count, then every field record.
    pub fn write_out(self, out: &mut Vec<u8>)
        ensures
            final(out)@ == old(out)@ + be16(self.count() as int) + self.bytes(),
    {
        out.push((self.len / 0x100) as u8);
        out.push((self.len % 0x100) as u8);
        let mut data = self.data;
        out.append(&mut data);
        proof {
            assert(out@ =~= old(out)@ + be16(self.count() as int) + self.bytes());
        }
    }
}

/// The resolved constants to emit: one `(field name, value)` pair per entry,
/// in emission order.
pub type ResolvedFields = Vec<(String, i32)>;

/// The resolved fields with each name replaced by its modified UTF-8 bytes.
pub open spec fn fields_enc(fs: Seq<(Seq<char>, i32)>) -> Seq<(Seq<u8>, i32)> {
    fs.map_values(|p: (Seq<char>, i32)| (java_cesu8_of(p.0), p.1))
}

/// The view of a resolved-fields vector: each name as its characters.
pub open spec fn fields_view(fs: Seq<(String, i32)>) -> Seq<(Seq<char>, i32)> {
    fs.map_values(|p: (String, i32)| (p.0@, p.1))
}

/// The dynamic constant-pool region: for each field, a Utf8 entry for its
/// name followed by an Integer entry for its value.
pub open spec fn cp_dyn(fs: Seq<(Seq<u8>, i32)>) -> Seq<u8>
    decreases fs.len(),
{
    if fs.len() == 0 {
        Seq::empty()
    } else {
        cp_dyn(fs.drop_last()) + utf8_entry(fs.last().0) + int_entry(fs.last().1)
    }
}

/// The field-table region: field `i` points at name constant `12 + 2i` and
/// value constant `13 + 2i`.
pub open spec fn field_entries(fs: Seq<(Seq<u8>, i32)>) -> Seq<u8>
    decreases fs.len(),
{
    if fs.len() == 0 {
        Seq::empty()
    } else {
        field_entries(fs.drop_last()) + field_entry(
            12 + 2 * (fs.len() - 1),
            13 + 2 * (fs.len() - 1),
        )
    }
}

/// The one-method method table — a default constructor with flags
/// `public | synthetic` (0x1001), descriptor `()V`, and a `Code` attribute
/// with bytecode `aload_0; invokespecial #11; return` — followed by the
/// empty class-attribute table.
pub open spec fn method_and_tail() -> Seq<u8> {
    seq![
        // one method
        0u8, 1,
        // access flags 0x1001
        0x10, 0x01,
        // name "<init>" (7), descriptor "()V" (8)
        0, 7, 0, 8,
        // one attribute: "Code" (9), length 17
        0, 1, 0, 9, 0, 0, 0, 17,
        // max_stack 1, max_locals 1, code length 5
        0, 1, 0, 1, 0, 0, 0, 5,
        // aload_0; invokespecial #11; return
        0x2a, 0xb7, 0, 11, 0xb1,
        // no exceptions, no code attributes
        0, 0, 0, 0,
        // no class attributes
        0, 0,
    ]
}

/// The magic number and the minor, then major, version.
pub open spec fn header_bytes(version: (u16, u16)) -> Seq<u8> {
    seq![0xcau8, 0xfe, 0xba, 0xbe] + be16(version.1 as int) + be16(version.0 as int)
}

/// Every byte of the class file emitted for `(version, class name, fields)`,
/// with the class name and the field names already encoded.
pub open spec fn spec_class_file(version: (u16, u16), name_b: Seq<u8>, fs: Seq<(Seq<u8>, i32)>) -> Seq<
    u8,
> {
    header_bytes(version)
    // constant pool: count = 11 fixed IDs + 2 per field + 1
     + be16(12 + 2 * fs.len() as int) + utf8_entry(name_b) + fixed_entries() + cp_dyn(fs)
    // access flags public|final|super|synthetic, this-class 2, super-class 6,
    // no interfaces
     + be16(0x1031) + be16(2) + be16(6) + be16(0)
    // field table
     + be16(fs.len() as int) + field_entries(fs)
    // method table and class attributes
     + method_and_tail()
}

/// Whether assembling the class file runs into a format limit, and which
/// error is reported first: the field inserts in order (each checks the
/// field count, then the pool ID for the name, the encoded name's length,
/// and the pool ID for the value), then the class-name entry.
pub open spec fn insert_fields_outcome(fs: Seq<(Seq<u8>, i32)>, i: int) -> Result<
    (),
    FormatLimitError,
>
    decreases fs.len() - i,
    when 0 <= i <= fs.len()
{
    if i == fs.len() {
        Ok(())
    } else if i == 0xffff {
        Err(FormatLimitError::TooManyFields)
    } else if fs[i].0.len() > 0xffff {
        Err(FormatLimitError::Utf8TooLong)
    } else if 12 + 2 * i == 0xfffe {
        Err(FormatLimitError::TooManyConstants)
    } else {
        insert_fields_outcome(fs, i + 1)
    }
}

/// The overall outcome of `gen_class_file`.
pub open spec fn gen_outcome(name_b: Seq<u8>, fs: Seq<(Seq<u8>, i32)>) -> Result<
    (),
    FormatLimitError,
> {
    match insert_fields_outcome(fs, 0) {
        Err(e) => Err(e),
        Ok(_) => if name_b.len() > 0xffff {
            Err(FormatLimitError::Utf8TooLong)
        } else {
            Ok(())
        },
    }
}

/// Assembles the complete class file for the given version, class name and
/// resolved fields, or reports the first format limit hit.
pub fn gen_class_file(version: (u16, u16), class_name: &str, fields: &ResolvedFields) -> (r: Result<
    Vec<u8>,
    FormatLimitError,
>)
    ensures
        match r {
            Ok(bytes) => gen_outcome(java_cesu8_of(class_name@), fields_enc(fields_view(fields@)))
                == Result::<(), FormatLimitError>::Ok(()) && bytes@ == spec_class_file(
                version,
                java_cesu8_of(class_name@),
                fields_enc(fields_view(fields@)),
            ),
            Err(e) => gen_outcome(java_cesu8_of(class_name@), fields_enc(fields_view(fields@)))
                == Result::<(), FormatLimitError>::Err(e),
        },
{
    let ghost fse = fields_enc(fields_view(fields@));
    let mut out: Vec<u8> = Vec::new();
    out.push(0xcau8);
    out.push(0xfeu8);
    out.push(0xbau8);
    out.push(0xbeu8);
    out.push((version.1 / 0x100) as u8);
    out.push((version.1 % 0x100) as u8);
    out.push((version.0 / 0x100) as u8);
    out.push((version.0 % 0x100) as u8);
    proof {
        assert(out@ =~= header_bytes(version));
    }

    let mut c_pool = ConstPool::new();
    let mut f_pool = Fields::new();
    let mut i: usize = 0;
    while i < fields.len()
        invariant
            fields_enc(fields_view(fields@)) == fse,
            fse.len() == fields@.len(),
            i <= fields@.len(),
            insert_fields_outcome(fse, 0) == insert_fields_outcome(fse, i as int),
            c_pool.wf(),
            c_pool.id() == 11 + 2 * i,
            c_pool.bytes() == cp_dyn(fse.take(i as int)),
            f_pool.count() == i,
            f_pool.bytes() == field_entries(fse.take(i as int)),
        decreases fields@.len() - i,
    {
        let pair = &fields[i];
        proof {
            assert(fse[i as int] == (java_cesu8_of(pair.0@), pair.1));
        }
        match f_pool.insert_int_field(&mut c_pool, pair.0.as_str(), pair.1) {
            Ok(_) => {},
            Err(e) => {
                proof {
                    assert(insert_fields_outcome(fse, i as int) == Result::<
                        (),
                        FormatLimitError,
                    >::Err(e));
                }
                return Err(e);
            },
        }
        proof {
            let j = i as int;
            assert(fse.take(j + 1).drop_last() =~= fse.take(j));
            assert(fse.take(j + 1).last() == fse[j]);
            assert(c_pool.bytes() =~= cp_dyn(fse.take(j + 1)));
            assert(f_pool.bytes() =~= field_entries(fse.take(j + 1)));
        }
        i = i + 1;
    }
    proof {
        assert(fse.take(fse.len() as int) =~= fse);
    }

    let ghost before_pool = out@;
    match c_pool.write_out(class_name, &mut out) {
        Ok(_) => {},
        Err(e) => {
            return Err(e);
        },
    }

    out.push(0x10u8);
    out.push(0x31u8);
    out.push(0u8);
    out.push(2u8);
    out.push(0u8);
    out.push(6u8);
    out.push(0u8);
    out.push(0u8);

    f_pool.write_out(&mut out);

    let tail: [u8; 35] = [0u8, 1, 0x10, 0x01, 0, 7, 0, 8, 0, 1, 0, 9, 0, 0, 0, 17, 0, 1, 0, 1, 0,
        0, 0, 5, 0x2a, 0xb7, 0, 11, 0xb1, 0, 0, 0, 0, 0, 0];
    let ghost before_tail = out@;
    let mut t: usize = 0;
    while t < 35
        invariant
            t <= 35,
            tail@ =~= method_and_tail(),
            out@ == before_tail + method_and_tail().take(t as int),
        decreases 35 - t,
    {
        out.push(tail[t]);
        proof {
            assert(out@ =~= before_tail + method_and_tail().take(t + 1));
        }
        t = t + 1;
    }

    proof {
        assert(out@ =~= spec_class_file(version, java_cesu8_of(class_name@), fse));
    }
    Ok(out)
}

/// Law: the writer is deterministic. Two successful runs of `gen_class_file`
/// on identical `(version, class name, resolved fields)` input produce
/// byte-identical output, since each equals `spec_class_file` exactly.
pub proof fn lemma_writer_deterministic(
    r1: Seq<u8>,
    r2: Seq<u8>,
    version: (u16, u16),
    name_b: Seq<u8>,
    fs: Seq<(Seq<u8>, i32)>,
)
    requires
        r1 == spec_class_file(version, name_b, fs),
        r2 == spec_class_file(version, name_b, fs),
    ensures
        r1 == r2,
{
}

/// Law: exactly when `gen_class_file` succeeds. The pool holds at most
/// 0xFFFE IDs and every field takes two, so at most 32761 fields fit after
/// the 11 well-known entries; every encoded name, and the class name, must
/// stay within 0xFFFF bytes.
pub proof fn lemma_gen_outcome_ok(name_b: Seq<u8>, fs: Seq<(Seq<u8>, i32)>)
    ensures
        gen_outcome(name_b, fs) is Ok <==> (fs.len() <= 32761
            && name_b.len() <= 0xffff && (forall|i: int|
            0 <= i < fs.len() ==> #[trigger] fs[i].0.len() <= 0xffff)),
{
    lemma_insert_fields_outcome_ok(fs, 0);
}

proof fn lemma_insert_fields_outcome_ok(fs: Seq<(Seq<u8>, i32)>, i: int)
    requires
        0 <= i <= fs.len(),
        i <= 32761,
    ensures
        insert_fields_outcome(fs, i) is Ok <==> (fs.len() <= 32761 && (forall|j: int|
            i <= j < fs.len() ==> #[trigger] fs[j].0.len() <= 0xffff)),
    decreases fs.len() - i,
{
    if i < fs.len() && fs[i].0.len() <= 0xffff && 12 + 2 * i != 0xfffe {
        lemma_insert_fields_outcome_ok(fs, i + 1);
    }
}

} // verus!
