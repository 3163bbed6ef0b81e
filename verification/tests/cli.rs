use sxt_pallets::cli::{parse_key_val, ParseKeyValError};

#[test]
fn we_can_parse_key_val() {
    assert_eq!(
        parse_key_val("cfg"),
        Err(ParseKeyValError {
            s: "cfg".to_owned()
        })
    );
    assert_eq!(parse_key_val("cfg="), Ok(("cfg".to_owned(), "".to_owned())));
    assert_eq!(
        parse_key_val("cfg=foo"),
        Ok(("cfg".to_owned(), "foo".to_owned()))
    );
    assert_eq!(
        parse_key_val("cfg=foo=bar"),
        Ok(("cfg".to_owned(), "foo=bar".to_owned()))
    );
}

#[test]
fn parse_key_val_keeps_unicode_values() {
    assert_eq!(
        parse_key_val("clé=välue"),
        Ok(("clé".to_owned(), "välue".to_owned()))
    );
    assert_eq!(parse_key_val("=x"), Ok(("".to_owned(), "x".to_owned())));
}

#[test]
fn parse_key_val_error_message() {
    let e = parse_key_val("cfg").unwrap_err();
    assert_eq!(e.message(), "expected 'KEY=VALUE', got 'cfg'");
}
