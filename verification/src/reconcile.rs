//! Reconciliation of template mappings with driver-data bindings.
//!
//! A template's mapping statements form a bidirectional association: driver
//! data names and constant names are each unique, and a later statement that
//! collides on either side wins, displacing what it collides with. Bindings
//! are unique by name, later wins. Every displacement is reported as an
//! advisory diagnostic; none is fatal.

use vstd::prelude::*;

use crate::parser::{
    DefV,
    DefineStatement,
    MapStatement,
    MapV,
    ParseError,
    Template,
    TemplateV,
    parse_driver_data,
    parse_template,
    spec_driver_data,
    spec_template,
};

verus! {

/// An advisory finding of the reconciler; processing always continues.
#[derive(Debug)]
pub enum Diagnostic {
    /// A later mapping re-used a driver data name (TEMPLATE category).
    DuplicateMappingDriver { driver_data_name: String, old_const_name: String, new_const_name: String },
    /// A later mapping re-used a constant name (TEMPLATE category).
    DuplicateMappingConst { new_driver_data_name: String, old_driver_data_name: String, const_name: String },
    /// A later binding re-used a name (DRIVER DATA category).
    DuplicateBinding { name: String, old_value: i32, new_value: i32 },
    /// A binding matched no mapping (BUILD category).
    UnusedDriverData { name: String },
    /// A non-optional mapping got no binding (BUILD category).
    UnusedNonOptTemplate { driver_data_name: String, const_name: String },
}

/// The mathematical content of a `Diagnostic`.
pub ghost enum DiagV {
    DuplicateMappingDriver { driver_data_name: Seq<char>, old_const_name: Seq<char>, new_const_name: Seq<char> },
    DuplicateMappingConst { new_driver_data_name: Seq<char>, old_driver_data_name: Seq<char>, const_name: Seq<char> },
    DuplicateBinding { name: Seq<char>, old_value: int, new_value: int },
    UnusedDriverData { name: Seq<char> },
    UnusedNonOptTemplate { driver_data_name: Seq<char>, const_name: Seq<char> },
}

impl View for Diagnostic {
    type V = DiagV;

    open spec fn view(&self) -> DiagV {
        match self {
            Diagnostic::DuplicateMappingDriver { driver_data_name, old_const_name, new_const_name } => DiagV::DuplicateMappingDriver {
                driver_data_name: driver_data_name@,
                old_const_name: old_const_name@,
                new_const_name: new_const_name@,
            },
            Diagnostic::DuplicateMappingConst { new_driver_data_name, old_driver_data_name, const_name } => DiagV::DuplicateMappingConst {
                new_driver_data_name: new_driver_data_name@,
                old_driver_data_name: old_driver_data_name@,
                const_name: const_name@,
            },
            Diagnostic::DuplicateBinding { name, old_value, new_value } => DiagV::DuplicateBinding {
                name: name@,
                old_value: *old_value as int,
                new_value: *new_value as int,
            },
            Diagnostic::UnusedDriverData { name } => DiagV::UnusedDriverData { name: name@ },
            Diagnostic::UnusedNonOptTemplate { driver_data_name, const_name } => DiagV::UnusedNonOptTemplate {
                driver_data_name: driver_data_name@,
                const_name: const_name@,
            },
        }
    }
}

/// The view of a vector of diagnostics.
pub open spec fn diags_view(ds: Seq<Diagnostic>) -> Seq<DiagV> {
    ds.map_values(|d: Diagnostic| d@)
}

/// The view of a vector of mapping statements.
pub open spec fn maps_view(ms: Seq<MapStatement>) -> Seq<MapV> {
    ms.map_values(|m: MapStatement| m@)
}

/// The view of a vector of binding statements.
pub open spec fn defs_view(ds: Seq<DefineStatement>) -> Seq<DefV> {
    ds.map_values(|d: DefineStatement| d@)
}

/// The first mapping whose driver data name is `d`.
pub open spec fn find_by_driver(ms: Seq<MapV>, d: Seq<char>) -> Option<MapV>
    decreases ms.len(),
{
    if ms.len() == 0 {
        None
    } else if ms[0].driver_data_name == d {
        Some(ms[0])
    } else {
        find_by_driver(ms.drop_first(), d)
    }
}

/// The first mapping whose constant name is `c`.
pub open spec fn find_by_const(ms: Seq<MapV>, c: Seq<char>) -> Option<MapV>
    decreases ms.len(),
{
    if ms.len() == 0 {
        None
    } else if ms[0].const_name == c {
        Some(ms[0])
    } else {
        find_by_const(ms.drop_first(), c)
    }
}

/// The mappings that collide with neither `d` nor `c`, in order.
pub open spec fn remove_conflicts(ms: Seq<MapV>, d: Seq<char>, c: Seq<char>) -> Seq<MapV>
    decreases ms.len(),
{
    if ms.len() == 0 {
        Seq::empty()
    } else {
        let rest = remove_conflicts(ms.drop_first(), d, c);
        if ms[0].driver_data_name == d || ms[0].const_name == c {
            rest
        } else {
            seq![ms[0]] + rest
        }
    }
}

/// Inserting the template's mapping statements in order, later statements
/// displacing earlier ones that re-use their driver data name or constant
/// name, with one diagnostic per displacing statement.
pub open spec fn dedup_maps(ms: Seq<MapV>) -> (Seq<MapV>, Seq<DiagV>)
    decreases ms.len(),
{
    if ms.len() == 0 {
        (Seq::empty(), Seq::empty())
    } else {
        let prev = dedup_maps(ms.drop_last());
        let acc = prev.0;
        let e = ms.last();
        let dg = match find_by_driver(acc, e.driver_data_name) {
            Some(x) => prev.1.push(
                DiagV::DuplicateMappingDriver {
                    driver_data_name: e.driver_data_name,
                    old_const_name: x.const_name,
                    new_const_name: e.const_name,
                },
            ),
            None => match find_by_const(acc, e.const_name) {
                Some(x) => prev.1.push(
                    DiagV::DuplicateMappingConst {
                        new_driver_data_name: e.driver_data_name,
                        old_driver_data_name: x.driver_data_name,
                        const_name: e.const_name,
                    },
                ),
                None => prev.1,
            },
        };
        (remove_conflicts(acc, e.driver_data_name, e.const_name).push(e), dg)
    }
}

/// The first binding named `name`.
pub open spec fn find_def(ds: Seq<DefV>, name: Seq<char>) -> Option<DefV>
    decreases ds.len(),
{
    if ds.len() == 0 {
        None
    } else if ds[0].name == name {
        Some(ds[0])
    } else {
        find_def(ds.drop_first(), name)
    }
}

/// The bindings not named `name`, in order.
pub open spec fn remove_def(ds: Seq<DefV>, name: Seq<char>) -> Seq<DefV>
    decreases ds.len(),
{
    if ds.len() == 0 {
        Seq::empty()
    } else {
        let rest = remove_def(ds.drop_first(), name);
        if ds[0].name == name {
            rest
        } else {
            seq![ds[0]] + rest
        }
    }
}

/// Inserting the bindings in order, a later binding displacing an earlier
/// one of the same name, with one diagnostic per displacing binding.
pub open spec fn dedup_defs(ds: Seq<DefV>) -> (Seq<DefV>, Seq<DiagV>)
    decreases ds.len(),
{
    if ds.len() == 0 {
        (Seq::empty(), Seq::empty())
    } else {
        let prev = dedup_defs(ds.drop_last());
        let acc = prev.0;
        let e = ds.last();
        match find_def(acc, e.name) {
            Some(x) => (
                remove_def(acc, e.name).push(e),
                prev.1.push(
                    DiagV::DuplicateBinding { name: e.name, old_value: x.id, new_value: e.id },
                ),
            ),
            None => (acc.push(e), prev.1),
        }
    }
}

fn find_driver_index(ms: &Vec<MapStatement>, name: &String) -> (r: Option<usize>)
    ensures
        r matches Some(j) ==> j < ms@.len() && find_by_driver(maps_view(ms@), name@) == Some(
            ms@[j as int]@,
        ),
        r is None ==> find_by_driver(maps_view(ms@), name@) is None,
{
    let ghost full = maps_view(ms@);
    proof {
        assert(full.skip(0) =~= full);
    }
    let mut i: usize = 0;
    while i < ms.len()
        invariant
            i <= ms@.len(),
            full == maps_view(ms@),
            find_by_driver(full, name@) == find_by_driver(full.skip(i as int), name@),
        decreases ms@.len() - i,
    {
        proof {
            assert(full[i as int] == ms@[i as int]@);
            assert(full.skip(i as int)[0] == full[i as int]);
            assert(full.skip(i as int).drop_first() =~= full.skip(i + 1));
        }
        if ms[i].driver_data_name == *name {
            return Some(i);
        }
        i = i + 1;
    }
    proof {
        assert(full.skip(ms@.len() as int) =~= Seq::<MapV>::empty());
    }
    None
}

fn find_const_index(ms: &Vec<MapStatement>, name: &String) -> (r: Option<usize>)
    ensures
        r matches Some(j) ==> j < ms@.len() && find_by_const(maps_view(ms@), name@) == Some(
            ms@[j as int]@,
        ),
        r is None ==> find_by_const(maps_view(ms@), name@) is None,
{
    let ghost full = maps_view(ms@);
    proof {
        assert(full.skip(0) =~= full);
    }
    let mut i: usize = 0;
    while i < ms.len()
        invariant
            i <= ms@.len(),
            full == maps_view(ms@),
            find_by_const(full, name@) == find_by_const(full.skip(i as int), name@),
        decreases ms@.len() - i,
    {
        proof {
            assert(full[i as int] == ms@[i as int]@);
            assert(full.skip(i as int)[0] == full[i as int]);
            assert(full.skip(i as int).drop_first() =~= full.skip(i + 1));
        }
        if ms[i].const_name == *name {
            return Some(i);
        }
        i = i + 1;
    }
    proof {
        assert(full.skip(ms@.len() as int) =~= Seq::<MapV>::empty());
    }
    None
}

fn remove_conflicting(ms: Vec<MapStatement>, driver: &String, konst: &String) -> (r: Vec<
    MapStatement,
>)
    ensures
        maps_view(r@) == remove_conflicts(maps_view(ms@), driver@, konst@),
{
    let ghost full = maps_view(ms@);
    let mut src = ms;
    let mut out: Vec<MapStatement> = Vec::new();
    proof {
        assert(maps_view(out@) =~= Seq::<MapV>::empty());
        assert(maps_view(src@) == full);
        assert(maps_view(out@) + remove_conflicts(maps_view(src@), driver@, konst@)
            =~= remove_conflicts(full, driver@, konst@));
    }
    while src.len() > 0
        invariant
            remove_conflicts(full, driver@, konst@) == maps_view(out@) + remove_conflicts(
                maps_view(src@),
                driver@,
                konst@,
            ),
        decreases src@.len(),
    {
        let ghost sv = maps_view(src@);
        let x = src.remove(0);
        proof {
            assert(maps_view(src@) =~= sv.drop_first());
            assert(sv[0] == x@);
        }
        if !(x.driver_data_name == *driver) && !(x.const_name == *konst) {
            let ghost ov = maps_view(out@);
            out.push(x);
            proof {
                assert(maps_view(out@) =~= ov + seq![x@]);
                assert(ov + (seq![x@] + remove_conflicts(maps_view(src@), driver@, konst@)) =~= (ov
                    + seq![x@]) + remove_conflicts(maps_view(src@), driver@, konst@));
            }
        }
    }
    proof {
        assert(maps_view(src@) =~= Seq::<MapV>::empty());
        assert(remove_conflicts(Seq::<MapV>::empty(), driver@, konst@) =~= Seq::<MapV>::empty());
        assert(maps_view(out@) + Seq::<MapV>::empty() =~= maps_view(out@));
    }
    out
}

fn dedup_mappings(maps: Vec<MapStatement>) -> (r: (Vec<MapStatement>, Vec<Diagnostic>))
    ensures
        maps_view(r.0@) == dedup_maps(maps_view(maps@)).0,
        diags_view(r.1@) == dedup_maps(maps_view(maps@)).1,
{
    let ghost full = maps_view(maps@);
    let mut src = maps;
    let mut acc: Vec<MapStatement> = Vec::new();
    let mut diags: Vec<Diagnostic> = Vec::new();
    let ghost mut i: int = 0;
    proof {
        assert(maps_view(src@) =~= full.skip(0));
        assert(maps_view(acc@) =~= dedup_maps(full.take(0)).0);
        assert(diags_view(diags@) =~= dedup_maps(full.take(0)).1);
    }
    while src.len() > 0
        invariant
            0 <= i <= full.len(),
            maps_view(src@) == full.skip(i),
            maps_view(acc@) == dedup_maps(full.take(i)).0,
            diags_view(diags@) == dedup_maps(full.take(i)).1,
        decreases src@.len(),
    {
        let ghost sv = maps_view(src@);
        proof {
            assert(sv.len() == src@.len());
            assert(i < full.len());
        }
        let e = src.remove(0);
        proof {
            assert(sv[0] == e@);
            assert(maps_view(src@) =~= sv.drop_first());
            assert(sv.drop_first() =~= full.skip(i + 1));
            assert(full.take(i + 1).drop_last() =~= full.take(i));
            assert(full.take(i + 1).last() == full[i]);
            assert(full[i] == e@);
        }
        let ghost dv0 = diags_view(diags@);
        match find_driver_index(&acc, &e.driver_data_name) {
            Some(j) => {
                let old_const = acc[j].const_name.clone();
                diags.push(
                    Diagnostic::DuplicateMappingDriver {
                        driver_data_name: e.driver_data_name.clone(),
                        old_const_name: old_const,
                        new_const_name: e.const_name.clone(),
                    },
                );
            },
            None => {
                match find_const_index(&acc, &e.const_name) {
                    Some(j) => {
                        let old_driver = acc[j].driver_data_name.clone();
                        diags.push(
                            Diagnostic::DuplicateMappingConst {
                                new_driver_data_name: e.driver_data_name.clone(),
                                old_driver_data_name: old_driver,
                                const_name: e.const_name.clone(),
                            },
                        );
                    },
                    None => {},
                }
            },
        }
        proof {
            assert(diags_view(diags@) =~= dedup_maps(full.take(i + 1)).1);
        }
        acc = remove_conflicting(acc, &e.driver_data_name, &e.const_name);
        acc.push(e);
        proof {
            assert(maps_view(acc@) =~= dedup_maps(full.take(i + 1)).0);
            i = i + 1;
        }
    }
    proof {
        assert(full.take(i) =~= full);
    }
    (acc, diags)
}

/// A parsed, reconciled template: the class name and its surviving mappings,
/// driver data names and constant names each unique, in statement order.
#[derive(Debug)]
pub struct TemplateFile {
    pub class_name: String,
    pub mappings: Vec<MapStatement>,
}

impl View for TemplateFile {
    type V = TemplateV;

    open spec fn view(&self) -> TemplateV {
        TemplateV { class_name: self.class_name@, maps: maps_view(self.mappings@) }
    }
}

impl TemplateFile {
    /// Parses a template and resolves duplicate mappings, later statements
    /// winning; each displacement yields a diagnostic.
    pub fn parse(s: &str) -> (r: Result<(TemplateFile, Vec<Diagnostic>), ParseError>)
        ensures
            match spec_template(s@) {
                Ok(tv) => r matches Ok(p) && p.0@.class_name == tv.class_name && p.0@.maps
                    == dedup_maps(tv.maps).0 && diags_view(p.1@) == dedup_maps(tv.maps).1
                    && bimap_unique(p.0@.maps),
                Err(pp) => r matches Err(e) && e.remainder@ == s@.subrange(pp, s@.len() as int),
            },
    {
        proof {
            if spec_template(s@) is Ok {
                lemma_dedup_maps_unique(spec_template(s@)->Ok_0.maps);
            }
        }
        let t = match parse_template(s) {
            Ok(t) => t,
            Err(e) => {
                return Err(e);
            },
        };
        let Template { class_name, maps } = t;
        let (mappings, diags) = dedup_mappings(maps);
        Ok((TemplateFile { class_name, mappings }, diags))
    }
}

fn find_def_index(ds: &Vec<DefineStatement>, name: &String) -> (r: Option<usize>)
    ensures
        r matches Some(j) ==> j < ds@.len() && find_def(defs_view(ds@), name@) == Some(
            ds@[j as int]@,
        ),
        r is None ==> find_def(defs_view(ds@), name@) is None,
{
    let ghost full = defs_view(ds@);
    proof {
        assert(full.skip(0) =~= full);
    }
    let mut i: usize = 0;
    while i < ds.len()
        invariant
            i <= ds@.len(),
            full == defs_view(ds@),
            find_def(full, name@) == find_def(full.skip(i as int), name@),
        decreases ds@.len() - i,
    {
        proof {
            assert(full[i as int] == ds@[i as int]@);
            assert(full.skip(i as int)[0] == full[i as int]);
            assert(full.skip(i as int).drop_first() =~= full.skip(i + 1));
        }
        if ds[i].name == *name {
            return Some(i);
        }
        i = i + 1;
    }
    proof {
        assert(full.skip(ds@.len() as int) =~= Seq::<DefV>::empty());
    }
    None
}

fn remove_def_named(ds: Vec<DefineStatement>, name: &String) -> (r: Vec<DefineStatement>)
    ensures
        defs_view(r@) == remove_def(defs_view(ds@), name@),
{
    let ghost full = defs_view(ds@);
    let mut src = ds;
    let mut out: Vec<DefineStatement> = Vec::new();
    proof {
        assert(defs_view(out@) =~= Seq::<DefV>::empty());
        assert(defs_view(src@) == full);
        assert(defs_view(out@) + remove_def(defs_view(src@), name@) =~= remove_def(full, name@));
    }
    while src.len() > 0
        invariant
            remove_def(full, name@) == defs_view(out@) + remove_def(defs_view(src@), name@),
        decreases src@.len(),
    {
        let ghost sv = defs_view(src@);
        let x = src.remove(0);
        proof {
            assert(defs_view(src@) =~= sv.drop_first());
            assert(sv[0] == x@);
        }
        if !(x.name == *name) {
            let ghost ov = defs_view(out@);
            out.push(x);
            proof {
                assert(defs_view(out@) =~= ov + seq![x@]);
                assert(ov + (seq![x@] + remove_def(defs_view(src@), name@)) =~= (ov + seq![x@])
                    + remove_def(defs_view(src@), name@));
            }
        }
    }
    proof {
        assert(defs_view(src@) =~= Seq::<DefV>::empty());
        assert(remove_def(Seq::<DefV>::empty(), name@) =~= Seq::<DefV>::empty());
        assert(defs_view(out@) + Seq::<DefV>::empty() =~= defs_view(out@));
    }
    out
}

fn dedup_bindings(defs: Vec<DefineStatement>) -> (r: (Vec<DefineStatement>, Vec<Diagnostic>))
    ensures
        defs_view(r.0@) == dedup_defs(defs_view(defs@)).0,
        diags_view(r.1@) == dedup_defs(defs_view(defs@)).1,
{
    let ghost full = defs_view(defs@);
    let mut src = defs;
    let mut acc: Vec<DefineStatement> = Vec::new();
    let mut diags: Vec<Diagnostic> = Vec::new();
    let ghost mut i: int = 0;
    proof {
        assert(defs_view(src@) =~= full.skip(0));
        assert(defs_view(acc@) =~= dedup_defs(full.take(0)).0);
        assert(diags_view(diags@) =~= dedup_defs(full.take(0)).1);
    }
    while src.len() > 0
        invariant
            0 <= i <= full.len(),
            defs_view(src@) == full.skip(i),
            defs_view(acc@) == dedup_defs(full.take(i)).0,
            diags_view(diags@) == dedup_defs(full.take(i)).1,
        decreases src@.len(),
    {
        let ghost sv = defs_view(src@);
        proof {
            assert(sv.len() == src@.len());
            assert(i < full.len());
        }
        let e = src.remove(0);
        proof {
            assert(sv[0] == e@);
            assert(defs_view(src@) =~= sv.drop_first());
            assert(sv.drop_first() =~= full.skip(i + 1));
            assert(full.take(i + 1).drop_last() =~= full.take(i));
            assert(full.take(i + 1).last() == full[i]);
            assert(full[i] == e@);
        }
        match find_def_index(&acc, &e.name) {
            Some(j) => {
                let old_value = acc[j].id;
                diags.push(
                    Diagnostic::DuplicateBinding {
                        name: e.name.clone(),
                        old_value,
                        new_value: e.id,
                    },
                );
                acc = remove_def_named(acc, &e.name);
                acc.push(e);
            },
            None => {
                acc.push(e);
                proof {
                    assert(defs_view(acc@) =~= dedup_defs(full.take(i)).0.push(sv[0]));
                }
            },
        }
        proof {
            assert(defs_view(acc@) =~= dedup_defs(full.take(i + 1)).0);
            assert(diags_view(diags@) =~= dedup_defs(full.take(i + 1)).1);
            i = i + 1;
        }
    }
    proof {
        assert(full.take(i) =~= full);
    }
    (acc, diags)
}

/// A parsed, reconciled driver-data file: its bindings, names unique, in
/// statement order.
#[derive(Debug)]
pub struct DriverDataFile {
    pub inner: Vec<DefineStatement>,
}

impl View for DriverDataFile {
    type V = Seq<DefV>;

    open spec fn view(&self) -> Seq<DefV> {
        defs_view(self.inner@)
    }
}

impl DriverDataFile {
    /// Parses a driver-data file and resolves duplicate bindings, later
    /// bindings winning; each displacement yields a diagnostic.
    pub fn parse(s: &str) -> (r: Result<(DriverDataFile, Vec<Diagnostic>), ParseError>)
        ensures
            match spec_driver_data(s@) {
                Ok(dv) => r matches Ok(p) && p.0@ == dedup_defs(dv).0 && diags_view(p.1@)
                    == dedup_defs(dv).1 && defs_unique(p.0@),
                Err(pp) => r matches Err(e) && e.remainder@ == s@.subrange(pp, s@.len() as int),
            },
    {
        proof {
            if spec_driver_data(s@) is Ok {
                lemma_dedup_defs_unique(spec_driver_data(s@)->Ok_0);
            }
        }
        let defs = match parse_driver_data(s) {
            Ok(d) => d,
            Err(e) => {
                return Err(e);
            },
        };
        let (inner, diags) = dedup_bindings(defs);
        Ok((DriverDataFile { inner }, diags))
    }
}

/// The view of a resolved-fields vector: each name as its characters, each
/// value as a mathematical integer.
pub open spec fn resolved_view(fs: Seq<(String, i32)>) -> Seq<(Seq<char>, int)> {
    fs.map_values(|p: (String, i32)| (p.0@, p.1 as int))
}

/// The mappings whose driver data name is not `d`, in order.
pub open spec fn remove_by_driver(ms: Seq<MapV>, d: Seq<char>) -> Seq<MapV>
    decreases ms.len(),
{
    if ms.len() == 0 {
        Seq::empty()
    } else {
        let rest = remove_by_driver(ms.drop_first(), d);
        if ms[0].driver_data_name == d {
            rest
        } else {
            seq![ms[0]] + rest
        }
    }
}

/// Consuming the bindings in order against the mappings: a binding that
/// matches a mapping's driver data name resolves that mapping's constant to
/// the binding's value and retires the mapping; a binding that matches
/// nothing is diagnosed as unused driver data. Returns the resolved fields,
/// the mappings left over, and the diagnostics.
pub open spec fn consume_defs(ms: Seq<MapV>, ds: Seq<DefV>) -> (
    Seq<(Seq<char>, int)>,
    Seq<MapV>,
    Seq<DiagV>,
)
    decreases ds.len(),
{
    if ds.len() == 0 {
        (Seq::empty(), ms, Seq::empty())
    } else {
        let d = ds[0];
        match find_by_driver(ms, d.name) {
            Some(m) => {
                let rest = consume_defs(remove_by_driver(ms, d.name), ds.drop_first());
                (seq![(m.const_name, d.id)] + rest.0, rest.1, rest.2)
            },
            None => {
                let rest = consume_defs(ms, ds.drop_first());
                (rest.0, rest.1, seq![DiagV::UnusedDriverData { name: d.name }] + rest.2)
            },
        }
    }
}

/// Every mapping left over resolves its constant to -1; a non-optional one
/// is diagnosed, naming the driver data name and constant name it expected.
pub open spec fn default_rest(ms: Seq<MapV>) -> (Seq<(Seq<char>, int)>, Seq<DiagV>)
    decreases ms.len(),
{
    if ms.len() == 0 {
        (Seq::empty(), Seq::empty())
    } else {
        let rest = default_rest(ms.drop_first());
        let fs = seq![(ms[0].const_name, -1int)] + rest.0;
        let dg = if ms[0].opt {
            rest.1
        } else {
            seq![
                DiagV::UnusedNonOptTemplate {
                    driver_data_name: ms[0].driver_data_name,
                    const_name: ms[0].const_name,
                },
            ] + rest.1
        };
        (fs, dg)
    }
}

/// Build mode: bindings are consumed in order, then every unresolved
/// mapping defaults to -1.
pub open spec fn spec_build(ms: Seq<MapV>, ds: Seq<DefV>) -> (Seq<(Seq<char>, int)>, Seq<DiagV>) {
    let c = consume_defs(ms, ds);
    let t = default_rest(c.1);
    (c.0 + t.0, c.2 + t.1)
}

/// Sketch mode: every mapping's constant resolves to -1, no diagnostics.
pub open spec fn spec_sketch(ms: Seq<MapV>) -> Seq<(Seq<char>, int)> {
    ms.map_values(|m: MapV| (m.const_name, -1int))
}

fn remove_driver_named(ms: Vec<MapStatement>, name: &String) -> (r: Vec<MapStatement>)
    ensures
        maps_view(r@) == remove_by_driver(maps_view(ms@), name@),
{
    let ghost full = maps_view(ms@);
    let mut src = ms;
    let mut out: Vec<MapStatement> = Vec::new();
    proof {
        assert(maps_view(out@) =~= Seq::<MapV>::empty());
        assert(maps_view(src@) == full);
        assert(maps_view(out@) + remove_by_driver(maps_view(src@), name@) =~= remove_by_driver(
            full,
            name@,
        ));
    }
    while src.len() > 0
        invariant
            remove_by_driver(full, name@) == maps_view(out@) + remove_by_driver(
                maps_view(src@),
                name@,
            ),
        decreases src@.len(),
    {
        let ghost sv = maps_view(src@);
        let x = src.remove(0);
        proof {
            assert(maps_view(src@) =~= sv.drop_first());
            assert(sv[0] == x@);
        }
        if !(x.driver_data_name == *name) {
            let ghost ov = maps_view(out@);
            out.push(x);
            proof {
                assert(maps_view(out@) =~= ov + seq![x@]);
                assert(ov + (seq![x@] + remove_by_driver(maps_view(src@), name@)) =~= (ov
                    + seq![x@]) + remove_by_driver(maps_view(src@), name@));
            }
        }
    }
    proof {
        assert(maps_view(src@) =~= Seq::<MapV>::empty());
        assert(remove_by_driver(Seq::<MapV>::empty(), name@) =~= Seq::<MapV>::empty());
        assert(maps_view(out@) + Seq::<MapV>::empty() =~= maps_view(out@));
    }
    out
}

fn consume_defs_exec(assoc: Vec<MapStatement>, defs: Vec<DefineStatement>) -> (r: (
    Vec<(String, i32)>,
    Vec<MapStatement>,
    Vec<Diagnostic>,
))
    ensures
        resolved_view(r.0@) == consume_defs(maps_view(assoc@), defs_view(defs@)).0,
        maps_view(r.1@) == consume_defs(maps_view(assoc@), defs_view(defs@)).1,
        diags_view(r.2@) == consume_defs(maps_view(assoc@), defs_view(defs@)).2,
    decreases defs@.len(),
{
    let ghost av = maps_view(assoc@);
    let ghost dv = defs_view(defs@);
    let mut defs = defs;
    if defs.len() == 0 {
        proof {
            assert(resolved_view(Seq::<(String, i32)>::empty()) =~= Seq::<(Seq<char>, int)>::empty());
            assert(diags_view(Seq::<Diagnostic>::empty()) =~= Seq::<DiagV>::empty());
        }
        return (Vec::new(), assoc, Vec::new());
    }
    let d = defs.remove(0);
    proof {
        assert(dv[0] == d@);
        assert(defs_view(defs@) =~= dv.drop_first());
    }
    match find_driver_index(&assoc, &d.name) {
        Some(j) => {
            let konst = assoc[j].const_name.clone();
            let assoc2 = remove_driver_named(assoc, &d.name);
            let (mut fs, rest_assoc, dgs) = consume_defs_exec(assoc2, defs);
            let ghost fv = resolved_view(fs@);
            fs.insert(0, (konst, d.id));
            proof {
                assert(resolved_view(fs@) =~= seq![(konst@, d.id as int)] + fv);
            }
            (fs, rest_assoc, dgs)
        },
        None => {
            let (fs, rest_assoc, mut dgs) = consume_defs_exec(assoc, defs);
            let ghost gv = diags_view(dgs@);
            let diag = Diagnostic::UnusedDriverData { name: d.name };
            proof {
                assert(diag@ == DiagV::UnusedDriverData { name: d@.name });
            }
            dgs.insert(0, diag);
            proof {
                assert(diags_view(dgs@) =~= seq![DiagV::UnusedDriverData { name: d@.name }] + gv);
            }
            (fs, rest_assoc, dgs)
        },
    }
}

fn default_rest_exec(assoc: Vec<MapStatement>) -> (r: (Vec<(String, i32)>, Vec<Diagnostic>))
    ensures
        resolved_view(r.0@) == default_rest(maps_view(assoc@)).0,
        diags_view(r.1@) == default_rest(maps_view(assoc@)).1,
    decreases assoc@.len(),
{
    let ghost av = maps_view(assoc@);
    let mut assoc = assoc;
    if assoc.len() == 0 {
        proof {
            assert(resolved_view(Seq::<(String, i32)>::empty()) =~= Seq::<(Seq<char>, int)>::empty());
            assert(diags_view(Seq::<Diagnostic>::empty()) =~= Seq::<DiagV>::empty());
        }
        return (Vec::new(), Vec::new());
    }
    let m = assoc.remove(0);
    proof {
        assert(av[0] == m@);
        assert(maps_view(assoc@) =~= av.drop_first());
    }
    let (mut fs, mut dgs) = default_rest_exec(assoc);
    let ghost fv = resolved_view(fs@);
    let ghost gv = diags_view(dgs@);
    if !m.opt {
        let diag = Diagnostic::UnusedNonOptTemplate {
            driver_data_name: m.driver_data_name,
            const_name: m.const_name.clone(),
        };
        dgs.insert(0, diag);
        proof {
            assert(diags_view(dgs@) =~= seq![
                DiagV::UnusedNonOptTemplate {
                    driver_data_name: av[0].driver_data_name,
                    const_name: av[0].const_name,
                },
            ] + gv);
        }
    }
    fs.insert(0, (m.const_name, -1));
    proof {
        assert(resolved_view(fs@) =~= seq![(av[0].const_name, -1int)] + fv);
    }
    (fs, dgs)
}

/// Build mode. Consumes the template and the driver data; returns the
/// resolved fields and the reconciliation diagnostics.
pub fn reconcile_build(template: TemplateFile, driver_data: DriverDataFile) -> (r: (
    crate::classfile::ResolvedFields,
    Vec<Diagnostic>,
))
    ensures
        resolved_view(r.0@) == spec_build(template@.maps, driver_data@).0,
        diags_view(r.1@) == spec_build(template@.maps, driver_data@).1,
{
    let (mut fs, rest, mut dgs) = consume_defs_exec(template.mappings, driver_data.inner);
    let ghost fv = resolved_view(fs@);
    let ghost gv = diags_view(dgs@);
    let (mut fs2, mut dgs2) = default_rest_exec(rest);
    let ghost fv2 = resolved_view(fs2@);
    let ghost gv2 = diags_view(dgs2@);
    fs.append(&mut fs2);
    dgs.append(&mut dgs2);
    proof {
        assert(resolved_view(fs@) =~= fv + fv2);
        assert(diags_view(dgs@) =~= gv + gv2);
    }
    (fs, dgs)
}

/// Sketch mode. Every constant of the template resolves to -1; no
/// diagnostics arise.
pub fn reconcile_sketch(template: TemplateFile) -> (r: crate::classfile::ResolvedFields)
    ensures
        resolved_view(r@) == spec_sketch(template@.maps),
{
    let ghost full = maps_view(template.mappings@);
    let mut src = template.mappings;
    let mut out: Vec<(String, i32)> = Vec::new();
    let ghost mut i: int = 0;
    proof {
        assert(resolved_view(out@) =~= spec_sketch(full).take(0));
        assert(maps_view(src@) =~= full.skip(0));
    }
    while src.len() > 0
        invariant
            0 <= i <= full.len(),
            maps_view(src@) == full.skip(i),
            resolved_view(out@) == spec_sketch(full).take(i),
        decreases src@.len(),
    {
        let ghost sv = maps_view(src@);
        proof {
            assert(sv.len() == src@.len());
            assert(i < full.len());
        }
        let m = src.remove(0);
        proof {
            assert(sv[0] == m@);
            assert(maps_view(src@) =~= sv.drop_first());
            assert(sv.drop_first() =~= full.skip(i + 1));
        }
        let ghost ov = resolved_view(out@);
        out.push((m.const_name, -1));
        proof {
            assert(spec_sketch(full)[i] == (full[i].const_name, -1int));
            assert(resolved_view(out@) =~= ov.push((full[i].const_name, -1int)));
            assert(resolved_view(out@) =~= spec_sketch(full).take(i + 1));
            i = i + 1;
        }
    }
    proof {
        assert(spec_sketch(full).take(i) =~= spec_sketch(full));
    }
    out
}


/// The bidirectional-association invariant: driver data names unique, and
/// constant names unique.
pub open spec fn bimap_unique(ms: Seq<MapV>) -> bool {
    forall|i: int, j: int|
        0 <= i < j < ms.len() ==> #[trigger] ms[i].driver_data_name != #[trigger] ms[j].driver_data_name
            && ms[i].const_name != ms[j].const_name
}

/// Binding names are unique.
pub open spec fn defs_unique(ds: Seq<DefV>) -> bool {
    forall|i: int, j: int|
        0 <= i < j < ds.len() ==> #[trigger] ds[i].name != #[trigger] ds[j].name
}

proof fn lemma_remove_conflicts_props(ms: Seq<MapV>, d: Seq<char>, c: Seq<char>)
    ensures
        forall|k: int|
            0 <= k < remove_conflicts(ms, d, c).len() ==> ms.contains(
                #[trigger] remove_conflicts(ms, d, c)[k],
            ) && remove_conflicts(ms, d, c)[k].driver_data_name != d && remove_conflicts(
                ms,
                d,
                c,
            )[k].const_name != c,
    decreases ms.len(),
{
    if ms.len() > 0 {
        lemma_remove_conflicts_props(ms.drop_first(), d, c);
        let rc = remove_conflicts(ms, d, c);
        let rest = remove_conflicts(ms.drop_first(), d, c);
        assert forall|k: int| 0 <= k < rc.len() implies ms.contains(#[trigger] rc[k])
            && rc[k].driver_data_name != d && rc[k].const_name != c by {
            if ms[0].driver_data_name == d || ms[0].const_name == c {
                assert(rc[k] == rest[k]);
                let k0 = choose|k0: int| 0 <= k0 < ms.drop_first().len() && ms.drop_first()[k0]
                    == rest[k];
                assert(ms[k0 + 1] == rest[k]);
            } else {
                if k == 0 {
                    assert(rc[0] == ms[0]);
                } else {
                    assert(rc[k] == rest[k - 1]);
                    let k0 = choose|k0: int| 0 <= k0 < ms.drop_first().len() && ms.drop_first()[k0]
                        == rest[k - 1];
                    assert(ms[k0 + 1] == rest[k - 1]);
                }
            }
        }
    }
}

proof fn lemma_remove_conflicts_unique(ms: Seq<MapV>, d: Seq<char>, c: Seq<char>)
    requires
        bimap_unique(ms),
    ensures
        bimap_unique(remove_conflicts(ms, d, c)),
    decreases ms.len(),
{
    if ms.len() > 0 {
        assert(bimap_unique(ms.drop_first())) by {
            assert forall|i: int, j: int|
                0 <= i < j < ms.drop_first().len() implies #[trigger] ms.drop_first()[i].driver_data_name
                != #[trigger] ms.drop_first()[j].driver_data_name && ms.drop_first()[i].const_name
                != ms.drop_first()[j].const_name by {
                assert(ms[i + 1].driver_data_name != ms[j + 1].driver_data_name);
            }
        }
        lemma_remove_conflicts_unique(ms.drop_first(), d, c);
        lemma_remove_conflicts_props(ms.drop_first(), d, c);
        let rc = remove_conflicts(ms, d, c);
        let rest = remove_conflicts(ms.drop_first(), d, c);
        if !(ms[0].driver_data_name == d || ms[0].const_name == c) {
            assert forall|i: int, j: int|
                0 <= i < j < rc.len() implies #[trigger] rc[i].driver_data_name
                != #[trigger] rc[j].driver_data_name && rc[i].const_name != rc[j].const_name by {
                if i == 0 {
                    assert(rc[0] == ms[0]);
                    assert(rc[j] == rest[j - 1]);
                    let k0 = choose|k0: int| 0 <= k0 < ms.drop_first().len() && ms.drop_first()[k0]
                        == rest[j - 1];
                    assert(ms[k0 + 1] == rest[j - 1]);
                    assert(ms[0].driver_data_name != ms[k0 + 1].driver_data_name);
                    assert(ms[0].const_name != ms[k0 + 1].const_name);
                } else {
                    assert(rc[i] == rest[i - 1]);
                    assert(rc[j] == rest[j - 1]);
                }
            }
        }
    }
}

/// Law: reconciling a template's mappings restores the bidirectional
/// invariant — after deduplication, driver data names are unique and
/// constant names are unique.
pub proof fn lemma_dedup_maps_unique(ms: Seq<MapV>)
    ensures
        bimap_unique(dedup_maps(ms).0),
    decreases ms.len(),
{
    if ms.len() > 0 {
        lemma_dedup_maps_unique(ms.drop_last());
        let acc = dedup_maps(ms.drop_last()).0;
        let e = ms.last();
        lemma_remove_conflicts_unique(acc, e.driver_data_name, e.const_name);
        lemma_remove_conflicts_props(acc, e.driver_data_name, e.const_name);
        let rc = remove_conflicts(acc, e.driver_data_name, e.const_name);
        let out = dedup_maps(ms).0;
        assert(out == rc.push(e));
        assert forall|i: int, j: int|
            0 <= i < j < out.len() implies #[trigger] out[i].driver_data_name
            != #[trigger] out[j].driver_data_name && out[i].const_name != out[j].const_name by {
            if j == out.len() - 1 {
                assert(out[j] == e);
                assert(out[i] == rc[i]);
            } else {
                assert(out[i] == rc[i]);
                assert(out[j] == rc[j]);
            }
        }
    }
}

proof fn lemma_remove_def_props(ds: Seq<DefV>, name: Seq<char>)
    ensures
        forall|k: int|
            0 <= k < remove_def(ds, name).len() ==> ds.contains(#[trigger] remove_def(ds, name)[k])
                && remove_def(ds, name)[k].name != name,
    decreases ds.len(),
{
    if ds.len() > 0 {
        lemma_remove_def_props(ds.drop_first(), name);
        let rc = remove_def(ds, name);
        let rest = remove_def(ds.drop_first(), name);
        assert forall|k: int| 0 <= k < rc.len() implies ds.contains(#[trigger] rc[k]) && rc[k].name
            != name by {
            if ds[0].name == name {
                assert(rc[k] == rest[k]);
                let k0 = choose|k0: int| 0 <= k0 < ds.drop_first().len() && ds.drop_first()[k0]
                    == rest[k];
                assert(ds[k0 + 1] == rest[k]);
            } else {
                if k == 0 {
                    assert(rc[0] == ds[0]);
                } else {
                    assert(rc[k] == rest[k - 1]);
                    let k0 = choose|k0: int| 0 <= k0 < ds.drop_first().len() && ds.drop_first()[k0]
                        == rest[k - 1];
                    assert(ds[k0 + 1] == rest[k - 1]);
                }
            }
        }
    }
}

proof fn lemma_remove_def_unique(ds: Seq<DefV>, name: Seq<char>)
    requires
        defs_unique(ds),
    ensures
        defs_unique(remove_def(ds, name)),
    decreases ds.len(),
{
    if ds.len() > 0 {
        assert(defs_unique(ds.drop_first())) by {
            assert forall|i: int, j: int|
                0 <= i < j < ds.drop_first().len() implies #[trigger] ds.drop_first()[i].name
                != #[trigger] ds.drop_first()[j].name by {
                assert(ds[i + 1].name != ds[j + 1].name);
            }
        }
        lemma_remove_def_unique(ds.drop_first(), name);
        lemma_remove_def_props(ds.drop_first(), name);
        let rc = remove_def(ds, name);
        let rest = remove_def(ds.drop_first(), name);
        if ds[0].name != name {
            assert forall|i: int, j: int|
                0 <= i < j < rc.len() implies #[trigger] rc[i].name != #[trigger] rc[j].name by {
                if i == 0 {
                    assert(rc[0] == ds[0]);
                    assert(rc[j] == rest[j - 1]);
                    let k0 = choose|k0: int| 0 <= k0 < ds.drop_first().len() && ds.drop_first()[k0]
                        == rest[j - 1];
                    assert(ds[k0 + 1] == rest[j - 1]);
                    assert(ds[0].name != ds[k0 + 1].name);
                } else {
                    assert(rc[i] == rest[i - 1]);
                    assert(rc[j] == rest[j - 1]);
                }
            }
        }
    }
}

/// Law: reconciling a driver-data file's bindings leaves the names unique.
pub proof fn lemma_dedup_defs_unique(ds: Seq<DefV>)
    ensures
        defs_unique(dedup_defs(ds).0),
    decreases ds.len(),
{
    if ds.len() > 0 {
        lemma_dedup_defs_unique(ds.drop_last());
        let acc = dedup_defs(ds.drop_last()).0;
        let e = ds.last();
        let out = dedup_defs(ds).0;
        match find_def(acc, e.name) {
            Some(_) => {
                lemma_remove_def_unique(acc, e.name);
                lemma_remove_def_props(acc, e.name);
                let rc = remove_def(acc, e.name);
                assert(out == rc.push(e));
                assert forall|i: int, j: int|
                    0 <= i < j < out.len() implies #[trigger] out[i].name
                    != #[trigger] out[j].name by {
                    if j == out.len() - 1 {
                        assert(out[j] == e);
                        assert(out[i] == rc[i]);
                    } else {
                        assert(out[i] == rc[i]);
                        assert(out[j] == rc[j]);
                    }
                }
            },
            None => {
                assert(out == acc.push(e));
                lemma_find_def_none(acc, e.name);
                assert forall|i: int, j: int|
                    0 <= i < j < out.len() implies #[trigger] out[i].name
                    != #[trigger] out[j].name by {
                    if j == out.len() - 1 {
                        assert(out[j] == e);
                        assert(out[i] == acc[i]);
                    } else {
                        assert(out[i] == acc[i]);
                        assert(out[j] == acc[j]);
                    }
                }
            },
        }
    }
}

/// A failed lookup means no binding bears the name.
proof fn lemma_find_def_none(ds: Seq<DefV>, name: Seq<char>)
    requires
        find_def(ds, name) is None,
    ensures
        forall|k: int| 0 <= k < ds.len() ==> (#[trigger] ds[k]).name != name,
    decreases ds.len(),
{
    if ds.len() > 0 {
        lemma_find_def_none(ds.drop_first(), name);
        assert forall|k: int| 0 <= k < ds.len() implies (#[trigger] ds[k]).name != name by {
            if k > 0 {
                assert(ds.drop_first()[k - 1] == ds[k]);
            }
        }
    }
}


/// The constant names of a mapping sequence, in order.
pub open spec fn const_names(ms: Seq<MapV>) -> Seq<Seq<char>> {
    ms.map_values(|m: MapV| m.const_name)
}

/// The field names of a resolved sequence, in order.
pub open spec fn keys_of(fs: Seq<(Seq<char>, int)>) -> Seq<Seq<char>> {
    fs.map_values(|p: (Seq<char>, int)| p.0)
}

/// Key names are pairwise distinct.
pub open spec fn unique_keys(fs: Seq<(Seq<char>, int)>) -> bool {
    forall|i: int, j: int| 0 <= i < j < fs.len() ==> (#[trigger] fs[i]).0 != (#[trigger] fs[j]).0
}

/// Law: sketch mode resolves exactly the template's constant names, in
/// order.
pub proof fn lemma_sketch_keys(ms: Seq<MapV>)
    ensures
        keys_of(spec_sketch(ms)) == const_names(ms),
{
    assert(keys_of(spec_sketch(ms)) =~= const_names(ms));
}

proof fn lemma_default_rest_keys(ms: Seq<MapV>)
    ensures
        keys_of(default_rest(ms).0) == const_names(ms),
    decreases ms.len(),
{
    if ms.len() > 0 {
        lemma_default_rest_keys(ms.drop_first());
        assert(keys_of(default_rest(ms).0) =~= const_names(ms)) by {
            assert(keys_of(default_rest(ms).0) =~= seq![ms[0].const_name] + keys_of(
                default_rest(ms.drop_first()).0,
            ));
            assert(const_names(ms) =~= seq![ms[0].const_name] + const_names(ms.drop_first()));
        }
    } else {
        assert(keys_of(default_rest(ms).0) =~= const_names(ms));
    }
}

proof fn lemma_remove_by_driver_props(ms: Seq<MapV>, d: Seq<char>)
    ensures
        forall|k: int|
            0 <= k < remove_by_driver(ms, d).len() ==> ms.contains(
                #[trigger] remove_by_driver(ms, d)[k],
            ) && remove_by_driver(ms, d)[k].driver_data_name != d,
    decreases ms.len(),
{
    if ms.len() > 0 {
        lemma_remove_by_driver_props(ms.drop_first(), d);
        let rc = remove_by_driver(ms, d);
        let rest = remove_by_driver(ms.drop_first(), d);
        assert forall|k: int| 0 <= k < rc.len() implies ms.contains(#[trigger] rc[k])
            && rc[k].driver_data_name != d by {
            if ms[0].driver_data_name == d {
                assert(rc[k] == rest[k]);
                let k0 = choose|k0: int| 0 <= k0 < ms.drop_first().len() && ms.drop_first()[k0]
                    == rest[k];
                assert(ms[k0 + 1] == rest[k]);
            } else {
                if k == 0 {
                    assert(rc[0] == ms[0]);
                } else {
                    assert(rc[k] == rest[k - 1]);
                    let k0 = choose|k0: int| 0 <= k0 < ms.drop_first().len() && ms.drop_first()[k0]
                        == rest[k - 1];
                    assert(ms[k0 + 1] == rest[k - 1]);
                }
            }
        }
    }
}

proof fn lemma_remove_by_driver_unique(ms: Seq<MapV>, d: Seq<char>)
    requires
        bimap_unique(ms),
    ensures
        bimap_unique(remove_by_driver(ms, d)),
    decreases ms.len(),
{
    if ms.len() > 0 {
        assert(bimap_unique(ms.drop_first())) by {
            assert forall|i: int, j: int|
                0 <= i < j < ms.drop_first().len() implies #[trigger] ms.drop_first()[i].driver_data_name
                != #[trigger] ms.drop_first()[j].driver_data_name && ms.drop_first()[i].const_name
                != ms.drop_first()[j].const_name by {
                assert(ms[i + 1].driver_data_name != ms[j + 1].driver_data_name);
            }
        }
        lemma_remove_by_driver_unique(ms.drop_first(), d);
        lemma_remove_by_driver_props(ms.drop_first(), d);
        let rc = remove_by_driver(ms, d);
        let rest = remove_by_driver(ms.drop_first(), d);
        if ms[0].driver_data_name != d {
            assert forall|i: int, j: int|
                0 <= i < j < rc.len() implies #[trigger] rc[i].driver_data_name
                != #[trigger] rc[j].driver_data_name && rc[i].const_name != rc[j].const_name by {
                if i == 0 {
                    assert(rc[0] == ms[0]);
                    assert(rc[j] == rest[j - 1]);
                    let k0 = choose|k0: int| 0 <= k0 < ms.drop_first().len() && ms.drop_first()[k0]
                        == rest[j - 1];
                    assert(ms[k0 + 1] == rest[j - 1]);
                    assert(ms[0].driver_data_name != ms[k0 + 1].driver_data_name);
                    assert(ms[0].const_name != ms[k0 + 1].const_name);
                } else {
                    assert(rc[i] == rest[i - 1]);
                    assert(rc[j] == rest[j - 1]);
                }
            }
        }
    }
}

/// Retiring the matched mapping takes exactly its constant name out of the
/// name pool, when the association invariant holds.
proof fn lemma_remove_by_driver_consts(ms: Seq<MapV>, d: Seq<char>)
    requires
        bimap_unique(ms),
        find_by_driver(ms, d) is Some,
    ensures
        const_names(ms).to_multiset() == const_names(remove_by_driver(ms, d)).to_multiset().insert(
            find_by_driver(ms, d)->Some_0.const_name,
        ),
    decreases ms.len(),
{
    broadcast use vstd::seq_lib::group_to_multiset_ensures;

    let m = find_by_driver(ms, d)->Some_0;
    let rc = remove_by_driver(ms, d);
    assert(bimap_unique(ms.drop_first())) by {
        assert forall|i: int, j: int|
            0 <= i < j < ms.drop_first().len() implies #[trigger] ms.drop_first()[i].driver_data_name
            != #[trigger] ms.drop_first()[j].driver_data_name && ms.drop_first()[i].const_name
            != ms.drop_first()[j].const_name by {
            assert(ms[i + 1].driver_data_name != ms[j + 1].driver_data_name);
        }
    }
    // dropping the head takes its constant name out of the multiset
    assert(ms.remove(0) =~= ms.drop_first());
    assert(const_names(ms).remove(0) =~= const_names(ms.drop_first()));
    assert(const_names(ms).remove(0).to_multiset() =~= const_names(ms).to_multiset().remove(
        const_names(ms)[0],
    ));
    assert(const_names(ms)[0] == ms[0].const_name);
    assert(const_names(ms).to_multiset().count(ms[0].const_name) > 0) by {
        assert(const_names(ms).contains(ms[0].const_name));
    }
    if ms[0].driver_data_name == d {
        assert(m == ms[0]);
        lemma_remove_by_driver_id(ms.drop_first(), d, ms);
        assert(rc == ms.drop_first());
        assert(const_names(ms).to_multiset() =~= const_names(rc).to_multiset().insert(
            m.const_name,
        ));
    } else {
        lemma_remove_by_driver_consts(ms.drop_first(), d);
        let rc2 = remove_by_driver(ms.drop_first(), d);
        assert(rc == seq![ms[0]] + rc2);
        assert(rc.remove(0) =~= rc2);
        assert(const_names(rc).remove(0) =~= const_names(rc2));
        assert(const_names(rc).remove(0).to_multiset() =~= const_names(rc).to_multiset().remove(
            const_names(rc)[0],
        ));
        assert(const_names(rc)[0] == ms[0].const_name);
        assert(const_names(rc).to_multiset().count(ms[0].const_name) > 0) by {
            assert(const_names(rc).contains(ms[0].const_name)) by {
                assert(const_names(rc)[0] == ms[0].const_name);
            }
        }
        // both sides are the tail's names plus the two removed heads
        assert(const_names(ms).to_multiset() =~= const_names(ms.drop_first()).to_multiset().insert(
            ms[0].const_name,
        ));
        assert(const_names(rc).to_multiset() =~= const_names(rc2).to_multiset().insert(
            ms[0].const_name,
        ));
        assert(const_names(ms).to_multiset() =~= const_names(rc).to_multiset().insert(
            m.const_name,
        ));
    }
}

/// Removal by a driver name that matches nothing changes nothing. The third
/// parameter only carries the enclosing sequence whose uniqueness rules the
/// match out.
proof fn lemma_remove_by_driver_id(ms: Seq<MapV>, d: Seq<char>, outer: Seq<MapV>)
    requires
        bimap_unique(outer),
        outer.len() > 0,
        outer[0].driver_data_name == d,
        ms == outer.drop_first(),
    ensures
        remove_by_driver(ms, d) == ms,
{
    assert forall|k: int| 0 <= k < ms.len() implies (#[trigger] ms[k]).driver_data_name != d by {
        assert(outer[0].driver_data_name != outer[k + 1].driver_data_name);
        assert(outer[k + 1] == ms[k]);
    }
    lemma_remove_by_driver_absent(ms, d);
}

proof fn lemma_remove_by_driver_absent(ms: Seq<MapV>, d: Seq<char>)
    requires
        forall|k: int| 0 <= k < ms.len() ==> (#[trigger] ms[k]).driver_data_name != d,
    ensures
        remove_by_driver(ms, d) == ms,
    decreases ms.len(),
{
    if ms.len() > 0 {
        assert forall|k: int|
            0 <= k < ms.drop_first().len() implies (#[trigger] ms.drop_first()[k]).driver_data_name
            != d by {
            assert(ms[k + 1].driver_data_name != d);
        }
        lemma_remove_by_driver_absent(ms.drop_first(), d);
        assert(remove_by_driver(ms, d) =~= ms);
    } else {
        assert(remove_by_driver(ms, d) =~= ms);
    }
}

/// Law: build mode resolves exactly the template's constant names — the
/// keys of the resolved fields are a permutation of the reconciled
/// template's constant names, each appearing exactly once — whatever the
/// driver data holds.
pub proof fn lemma_build_keys(ms: Seq<MapV>, ds: Seq<DefV>)
    requires
        bimap_unique(ms),
    ensures
        keys_of(spec_build(ms, ds).0).to_multiset() == const_names(ms).to_multiset(),
        keys_of(spec_build(ms, ds).0).no_duplicates(),
{
    broadcast use vstd::seq_lib::group_to_multiset_ensures;

    lemma_build_keys_multiset(ms, ds);
    let keys = keys_of(spec_build(ms, ds).0);
    assert(const_names(ms).no_duplicates()) by {
        assert forall|i: int, j: int|
            0 <= i < j < const_names(ms).len() implies const_names(ms)[i] != const_names(
            ms,
        )[j] by {
            assert(ms[i].driver_data_name != ms[j].driver_data_name && ms[i].const_name
                != ms[j].const_name);
        }
    }
    const_names(ms).lemma_multiset_has_no_duplicates();
    assert(forall|x: Seq<char>|
        keys.to_multiset().contains(x) ==> keys.to_multiset().count(x) == 1);
    keys.lemma_multiset_has_no_duplicates_conv();
}

proof fn lemma_build_keys_multiset(ms: Seq<MapV>, ds: Seq<DefV>)
    requires
        bimap_unique(ms),
    ensures
        keys_of(spec_build(ms, ds).0).to_multiset() == const_names(ms).to_multiset(),
    decreases ds.len(),
{
    broadcast use vstd::seq_lib::group_to_multiset_ensures;

    if ds.len() == 0 {
        lemma_default_rest_keys(ms);
        assert(spec_build(ms, ds).0 =~= default_rest(ms).0);
    } else {
        let d = ds[0];
        match find_by_driver(ms, d.name) {
            Some(m) => {
                let ms2 = remove_by_driver(ms, d.name);
                lemma_remove_by_driver_unique(ms, d.name);
                lemma_remove_by_driver_consts(ms, d.name);
                lemma_build_keys_multiset(ms2, ds.drop_first());
                let tail = spec_build(ms2, ds.drop_first()).0;
                let out = spec_build(ms, ds).0;
                assert(out =~= seq![(m.const_name, d.id)] + tail);
                assert(out.remove(0) =~= tail);
                assert(keys_of(out).remove(0) =~= keys_of(tail));
                assert(keys_of(out).remove(0).to_multiset() =~= keys_of(out).to_multiset().remove(
                    keys_of(out)[0],
                ));
                assert(keys_of(out)[0] == m.const_name);
                assert(keys_of(out).to_multiset().count(m.const_name) > 0) by {
                    assert(keys_of(out).contains(m.const_name)) by {
                        assert(keys_of(out)[0] == m.const_name);
                    }
                }
                assert(keys_of(out).to_multiset() =~= keys_of(tail).to_multiset().insert(
                    m.const_name,
                ));
                assert(keys_of(out).to_multiset() =~= const_names(ms).to_multiset());
            },
            None => {
                lemma_build_keys_multiset(ms, ds.drop_first());
                assert(spec_build(ms, ds).0 =~= spec_build(ms, ds.drop_first()).0);
            },
        }
    }
}

} // verus!
