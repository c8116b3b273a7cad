//! Compiler for two small text formats — a *template* (a class name plus
//! named-constant mappings) and a *driver data* file (name → integer
//! bindings) — into a minimal JVM class file holding one
//! `public static final int` field per resolved constant.

use vstd::prelude::*;

pub mod classfile;
pub mod parser;
pub mod reader;
pub mod reconcile;

use crate::classfile::{
    ResolvedFields,
    fields_enc,
    fields_view,
    gen_class_file,
    gen_outcome,
    java_cesu8_of,
    spec_class_file,
};
use crate::reconcile::{
    Diagnostic,
    DriverDataFile,
    TemplateFile,
    diags_view,
    resolved_view,
    spec_build,
    spec_sketch,
};

verus! {

/// A structural limit of the class-file format was hit; fatal, the caller
/// discards the attempt.
#[derive(Clone, Copy, Debug, PartialEq, Eq, Structural)]
pub enum FormatLimitError {
    /// The constant pool would need an ID past 0xFFFE.
    TooManyConstants,
    /// An encoded UTF-8 payload is longer than 0xFFFF bytes.
    Utf8TooLong,
    /// The field table would hold more than 0xFFFF entries.
    TooManyFields,
}

/// Reconciled fields in their emitted form: each name as its modified UTF-8
/// bytes, each value as a 32-bit constant.
pub open spec fn enc_resolved(fs: Seq<(Seq<char>, int)>) -> Seq<(Seq<u8>, i32)> {
    fs.map_values(|p: (Seq<char>, int)| (java_cesu8_of(p.0), p.1 as i32))
}

/// Build mode: reconciles the template against the driver data and emits the
/// class file, returning the bytes and the reconciliation diagnostics.
pub fn build(version: (u16, u16), template: TemplateFile, driver_data: DriverDataFile) -> (r:
    Result<(Vec<u8>, Vec<Diagnostic>), FormatLimitError>)
    ensures
        match r {
            Ok(p) => {
                &&& diags_view(p.1@) == spec_build(template@.maps, driver_data@).1
                &&& gen_outcome(
                    java_cesu8_of(template@.class_name),
                    enc_resolved(spec_build(template@.maps, driver_data@).0),
                ) is Ok
                &&& p.0@ == spec_class_file(
                    version,
                    java_cesu8_of(template@.class_name),
                    enc_resolved(spec_build(template@.maps, driver_data@).0),
                )
            },
            Err(e) => gen_outcome(
                java_cesu8_of(template@.class_name),
                enc_resolved(spec_build(template@.maps, driver_data@).0),
            ) == Result::<(), FormatLimitError>::Err(e),
        },
{
    let class_name = template.class_name.clone();
    let (fields, diags) = crate::reconcile::reconcile_build(template, driver_data);
    proof {
        assert(fields_enc(fields_view(fields@)) =~= enc_resolved(resolved_view(fields@)));
    }
    match gen_class_file(version, class_name.as_str(), &fields) {
        Ok(bytes) => Ok((bytes, diags)),
        Err(e) => Err(e),
    }
}

/// Sketch mode: every constant of the template resolves to -1, no driver
/// data is consulted and no diagnostics arise.
pub fn sketch(version: (u16, u16), template: TemplateFile) -> (r: Result<
    Vec<u8>,
    FormatLimitError,
>)
    ensures
        match r {
            Ok(bytes) => {
                &&& gen_outcome(
                    java_cesu8_of(template@.class_name),
                    enc_resolved(spec_sketch(template@.maps)),
                ) is Ok
                &&& bytes@ == spec_class_file(
                    version,
                    java_cesu8_of(template@.class_name),
                    enc_resolved(spec_sketch(template@.maps)),
                )
            },
            Err(e) => gen_outcome(
                java_cesu8_of(template@.class_name),
                enc_resolved(spec_sketch(template@.maps)),
            ) == Result::<(), FormatLimitError>::Err(e),
        },
{
    let class_name = template.class_name.clone();
    let fields: ResolvedFields = crate::reconcile::reconcile_sketch(template);
    proof {
        assert(fields_enc(fields_view(fields@)) =~= enc_resolved(resolved_view(fields@)));
    }
    gen_class_file(version, class_name.as_str(), &fields)
}

} // verus!
