use mkprop::parser::{parse_driver_data, parse_template};

#[test]
fn test_template() {
    let test = "\n@CLASS  BR . MAP LO-2O 3bar_3 .MAP HIGH BAR OPT .\nMAP HIGH BAR. ";
    let t = parse_template(test).unwrap();
    assert_eq!(t.class_name, "BR");
    assert_eq!(t.maps.len(), 3);
    assert_eq!(t.maps[0].driver_data_name, "LO-2O");
    assert_eq!(t.maps[0].const_name, "3bar_3");
    assert!(!t.maps[0].opt);
    assert_eq!(t.maps[1].driver_data_name, "HIGH");
    assert_eq!(t.maps[1].const_name, "BAR");
    assert!(t.maps[1].opt);
    assert_eq!(t.maps[2].driver_data_name, "HIGH");
    assert_eq!(t.maps[2].const_name, "BAR");
    assert!(!t.maps[2].opt);
}

#[test]
fn test_template_failure() {
    let test = "\n@CLASS  BR . MAP LO-2O 3bar_3 .MAP HIGH BAR OPT\nMAP HIGH BAR. ";
    let e = parse_template(test).unwrap_err();
    assert_eq!(e.remainder, "MAP HIGH BAR OPT\nMAP HIGH BAR. ");
}

#[test]
fn test_driver_data() {
    let test = "\n DEF 3LO-2O- -12.DEF HIGH 12 .\nDEF HIGH 3000. ";
    let d = parse_driver_data(test).unwrap();
    assert_eq!(d.len(), 3);
    assert_eq!(d[0].name, "3LO-2O-");
    assert_eq!(d[0].id, -12);
    assert_eq!(d[1].name, "HIGH");
    assert_eq!(d[1].id, 12);
    assert_eq!(d[2].name, "HIGH");
    assert_eq!(d[2].id, 3000);
}

#[test]
fn test_driver_data_failure() {
    let test = " DEF 3LO-2O- -12.DEF HIGH 12 .\nDEF HIGH 3900000000. ";
    let e = parse_driver_data(test).unwrap_err();
    assert_eq!(e.remainder, "DEF HIGH 3900000000. ");
}

#[test]
fn test_int_literal_out_of_range_is_unconsumed() {
    // A signed literal past the 32-bit range fails the statement; the
    // remainder starts at that statement.
    let e = parse_driver_data("DEF HIGH 3900000000 .").unwrap_err();
    assert_eq!(e.remainder, "DEF HIGH 3900000000 .");
    // The extreme in-range values parse.
    let d = parse_driver_data("DEF A 2147483647 . DEF B -2147483648 .").unwrap();
    assert_eq!(d[0].id, i32::MAX);
    assert_eq!(d[1].id, i32::MIN);
    // One past either end fails.
    assert!(parse_driver_data("DEF A 2147483648 .").is_err());
    assert!(parse_driver_data("DEF A -2147483649 .").is_err());
}

#[test]
fn test_template_trailing_text_rejected() {
    let e = parse_template("@CLASS BR . MAP A B . garbage").unwrap_err();
    assert_eq!(e.remainder, "garbage");
    let e = parse_template("@CLASS BR ").unwrap_err();
    assert_eq!(e.remainder, "@CLASS BR ");
}

#[test]
fn test_empty_driver_data() {
    let d = parse_driver_data("").unwrap();
    assert_eq!(d.len(), 0);
    let d = parse_driver_data(" \n\t ").unwrap();
    assert_eq!(d.len(), 0);
}

#[test]
fn test_opt_flag_needs_following_dot() {
    // OPT must still be followed by its statement's closing dot.
    let t = parse_template("@CLASS C . MAP A B OPT .").unwrap();
    assert!(t.maps[0].opt);
    // An identifier that merely starts with OPT belongs to the next token.
    let e = parse_template("@CLASS C . MAP A B OPTX .").unwrap_err();
    assert_eq!(e.remainder, "MAP A B OPTX .");
}

#[test]
fn test_negative_zero_and_leading_zeros() {
    let d = parse_driver_data("DEF A -0 . DEF B 007 .").unwrap();
    assert_eq!(d[0].id, 0);
    assert_eq!(d[1].id, 7);
    // A dash inside the digits fails the statement.
    assert!(parse_driver_data("DEF A 1-2 .").is_err());
    // A bare dash is no integer.
    assert!(parse_driver_data("DEF A - .").is_err());
}
