use mkprop::reconcile::{Diagnostic, DriverDataFile, TemplateFile, reconcile_build, reconcile_sketch};

#[test]
fn test_build_optional_mapping_stays_quiet() {
    let (template, tdiags) =
        TemplateFile::parse("@CLASS BR . MAP LO-2O 3bar_3 . MAP HIGH BAR OPT .").unwrap();
    assert_eq!(tdiags.len(), 0);
    let (driver, ddiags) = DriverDataFile::parse("DEF LO-2O -12 .").unwrap();
    assert_eq!(ddiags.len(), 0);
    let (fields, diags) = reconcile_build(template, driver);
    assert_eq!(fields.len(), 2);
    assert_eq!(fields[0].0, "3bar_3");
    assert_eq!(fields[0].1, -12);
    assert_eq!(fields[1].0, "BAR");
    assert_eq!(fields[1].1, -1);
    assert_eq!(diags.len(), 0);
}

#[test]
fn test_build_non_optional_mapping_is_diagnosed() {
    let (template, _) = TemplateFile::parse("@CLASS BR . MAP HIGH BAR .").unwrap();
    let (driver, _) = DriverDataFile::parse("").unwrap();
    let (fields, diags) = reconcile_build(template, driver);
    assert_eq!(fields.len(), 1);
    assert_eq!(fields[0].0, "BAR");
    assert_eq!(fields[0].1, -1);
    assert_eq!(diags.len(), 1);
    match &diags[0] {
        Diagnostic::UnusedNonOptTemplate { driver_data_name, const_name } => {
            assert_eq!(driver_data_name, "HIGH");
            assert_eq!(const_name, "BAR");
        },
        _ => panic!("expected an unused non-opt template diagnostic"),
    }
}

#[test]
fn test_sketch_defaults_every_field() {
    let (template, _) =
        TemplateFile::parse("@CLASS BR . MAP X A . MAP Y B . MAP Z C .").unwrap();
    let fields = reconcile_sketch(template);
    assert_eq!(fields.len(), 3);
    assert_eq!(fields[0].0, "A");
    assert_eq!(fields[0].1, -1);
    assert_eq!(fields[1].0, "B");
    assert_eq!(fields[1].1, -1);
    assert_eq!(fields[2].0, "C");
    assert_eq!(fields[2].1, -1);
}

#[test]
fn test_duplicate_binding_later_wins() {
    let (driver, diags) = DriverDataFile::parse("DEF HIGH 12 . DEF HIGH 3000 .").unwrap();
    assert_eq!(diags.len(), 1);
    match &diags[0] {
        Diagnostic::DuplicateBinding { name, old_value, new_value } => {
            assert_eq!(name, "HIGH");
            assert_eq!(*old_value, 12);
            assert_eq!(*new_value, 3000);
        },
        _ => panic!("expected a duplicate binding diagnostic"),
    }
    assert_eq!(driver.inner.len(), 1);
    assert_eq!(driver.inner[0].name, "HIGH");
    assert_eq!(driver.inner[0].id, 3000);
    // The surviving value is the one a template consumes.
    let (template, _) = TemplateFile::parse("@CLASS BR . MAP HIGH BAR .").unwrap();
    let (fields, bdiags) = reconcile_build(template, driver);
    assert_eq!(fields.len(), 1);
    assert_eq!(fields[0].1, 3000);
    assert_eq!(bdiags.len(), 0);
}

#[test]
fn test_duplicate_mapping_driver_name_later_wins() {
    let (template, diags) =
        TemplateFile::parse("@CLASS BR . MAP HIGH BAR OPT . MAP HIGH BAZ .").unwrap();
    assert_eq!(diags.len(), 1);
    match &diags[0] {
        Diagnostic::DuplicateMappingDriver { driver_data_name, old_const_name, new_const_name } => {
            assert_eq!(driver_data_name, "HIGH");
            assert_eq!(old_const_name, "BAR");
            assert_eq!(new_const_name, "BAZ");
        },
        _ => panic!("expected a duplicate mapping diagnostic"),
    }
    assert_eq!(template.mappings.len(), 1);
    assert_eq!(template.mappings[0].const_name, "BAZ");
    assert!(!template.mappings[0].opt);
}

#[test]
fn test_duplicate_mapping_const_name_later_wins() {
    let (template, diags) =
        TemplateFile::parse("@CLASS BR . MAP X BAR . MAP Y BAR OPT .").unwrap();
    assert_eq!(diags.len(), 1);
    match &diags[0] {
        Diagnostic::DuplicateMappingConst { new_driver_data_name, old_driver_data_name, const_name } => {
            assert_eq!(new_driver_data_name, "Y");
            assert_eq!(old_driver_data_name, "X");
            assert_eq!(const_name, "BAR");
        },
        _ => panic!("expected a duplicate mapping diagnostic"),
    }
    assert_eq!(template.mappings.len(), 1);
    assert_eq!(template.mappings[0].driver_data_name, "Y");
    assert!(template.mappings[0].opt);
}

#[test]
fn test_unused_driver_data_is_diagnosed() {
    let (template, _) = TemplateFile::parse("@CLASS BR . MAP A K .").unwrap();
    let (driver, _) = DriverDataFile::parse("DEF A 1 . DEF B 2 .").unwrap();
    let (fields, diags) = reconcile_build(template, driver);
    assert_eq!(fields.len(), 1);
    assert_eq!(fields[0].0, "K");
    assert_eq!(fields[0].1, 1);
    assert_eq!(diags.len(), 1);
    match &diags[0] {
        Diagnostic::UnusedDriverData { name } => assert_eq!(name, "B"),
        _ => panic!("expected an unused driver data diagnostic"),
    }
}

#[test]
fn test_template_parse_error_carries_remainder() {
    let e = TemplateFile::parse("@CLASS BR . MAP A").unwrap_err();
    assert_eq!(e.remainder, "MAP A");
}
