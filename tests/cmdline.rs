use bootc::cmdline::{Cmdline, Parameter, ParameterKeyStr, ParameterStr};

#[test]
fn kernel_test_parameter_simple() {
    let switch = Parameter::from(b"foo");
    assert_eq!(switch.key.0, b"foo");
    assert_eq!(switch.value, None);

    let kv = Parameter::from(b"bar=baz");
    assert_eq!(kv.key.0, b"bar");
    assert_eq!(kv.value.as_deref(), Some(b"baz".as_slice()));
}

#[test]
fn kernel_test_parameter_quoted() {
    let p = Parameter::from(b"foo=\"quoted value\"");
    assert_eq!(p.value.as_deref(), Some(b"quoted value".as_slice()));
}

#[test]
fn kernel_test_parameter_pathological() {
    let p = Parameter::from(b"\"\"\"");
    assert_eq!(p.key.0, b"\"\"\"");

    let p = Parameter::from(b"foo=\"internal \" quotes \" are ok\"");
    assert_eq!(
        p.value.as_deref(),
        Some(b"internal \" quotes \" are ok".as_slice())
    );

    let non_utf8_byte = b"\xff";
    let failed_conversion = std::str::from_utf8(non_utf8_byte);
    assert!(failed_conversion.is_err());
    let mut p = b"foo=".to_vec();
    p.push(non_utf8_byte[0]);
    let p = Parameter::from(&p);
    assert_eq!(p.value.as_deref(), Some(non_utf8_byte.as_slice()));

    assert_eq!(p.value_lossy(), char::REPLACEMENT_CHARACTER.to_string());
}

#[test]
fn kernel_test_parameter_equality() {
    let foo = Parameter::from(b"foo");
    let bar = Parameter::from(b"foobar");
    assert_ne!(foo, bar);
    assert_ne!(bar, foo);

    let dashes = Parameter::from(b"a-delimited-param");
    let underscores = Parameter::from(b"a_delimited_param");
    assert_eq!(dashes, underscores);

    let dashes = Parameter::from(b"a-delimited-param=same_values");
    let underscores = Parameter::from(b"a_delimited_param=same_values");
    assert_eq!(dashes, underscores);

    let dashes = Parameter::from(b"a-delimited-param=different_values");
    let underscores = Parameter::from(b"a_delimited_param=DiFfErEnT_valUEZ");
    assert_ne!(dashes, underscores);

    let switch = Parameter::from(b"same_key");
    let keyvalue = Parameter::from(b"same_key=but_with_a_value");
    assert_ne!(switch, keyvalue);
}

#[test]
fn kernel_test_kargs_simple() {
    let kargs = Cmdline::from(b"foo=bar,bar2 baz=fuz wiz".as_slice());
    let mut iter = kargs.iter().into_iter();

    assert_eq!(iter.next(), Some(Parameter::new_kv(b"foo", b"bar,bar2")));
    assert_eq!(iter.next(), Some(Parameter::new_kv(b"baz", b"fuz".as_slice())));
    assert_eq!(iter.next(), Some(Parameter::new_key(b"wiz")));
    assert_eq!(iter.next(), None);

    assert_eq!(kargs.find(b"foo").unwrap().value.unwrap(), b"bar,bar2");
    assert!(kargs.find(b"nothing").is_none());
}

fn check_find_dash_hyphen() {
    let kargs = Cmdline::from(b"a-b=1 a_b=2".as_slice());
    let p = kargs.find(b"a_b").unwrap();
    assert_eq!(p.key.0, b"a-b");
    assert_eq!(p.value.unwrap(), b"1");
    let p = kargs.find(b"a-b").unwrap();
    assert_eq!(p.key.0, b"a-b");
    assert_eq!(p.value.unwrap(), b"1");

    let kargs = Cmdline::from(b"a_b=2 a-b=1".as_slice());
    let p = kargs.find(b"a_b").unwrap();
    assert_eq!(p.key.0, b"a_b");
    assert_eq!(p.value.unwrap(), b"2");
    let p = kargs.find(b"a-b").unwrap();
    assert_eq!(p.key.0, b"a_b");
    assert_eq!(p.value.unwrap(), b"2");
}

#[test]
fn kernel_test_kargs_find_dash_hyphen() {
    check_find_dash_hyphen();
}

fn check_value_of() {
    let kargs = Cmdline::from(b"foo=bar baz=qux switch".as_slice());
    assert_eq!(kargs.value_of(b"foo").as_deref(), Some(b"bar".as_slice()));
    assert_eq!(kargs.value_of(b"baz").as_deref(), Some(b"qux".as_slice()));
    assert_eq!(kargs.value_of(b"switch"), None);
    assert_eq!(kargs.value_of(b"missing"), None);

    let kargs = Cmdline::from(b"dash-key=value1 under_key=value2".as_slice());
    assert_eq!(
        kargs.value_of(b"dash_key").as_deref(),
        Some(b"value1".as_slice())
    );
    assert_eq!(
        kargs.value_of(b"under-key").as_deref(),
        Some(b"value2".as_slice())
    );
}

#[test]
fn kernel_test_value_of() {
    check_value_of();
}

fn check_value_of_utf8() {
    let kargs = Cmdline::from(b"foo=bar baz=qux switch".as_slice());
    assert_eq!(kargs.value_of_utf8("foo").unwrap().as_deref(), Some("bar"));
    assert_eq!(kargs.value_of_utf8("baz").unwrap().as_deref(), Some("qux"));
    assert_eq!(kargs.value_of_utf8("switch").unwrap(), None);
    assert_eq!(kargs.value_of_utf8("missing").unwrap(), None);

    let kargs = Cmdline::from(b"dash-key=value1 under_key=value2".as_slice());
    assert_eq!(
        kargs.value_of_utf8("dash_key").unwrap().as_deref(),
        Some("value1")
    );
    assert_eq!(
        kargs.value_of_utf8("under-key").unwrap().as_deref(),
        Some("value2")
    );

    let mut invalid_utf8 = b"invalid=".to_vec();
    invalid_utf8.push(0xff);
    let kargs = Cmdline::from(&invalid_utf8);
    assert!(kargs.value_of_utf8("invalid").is_err());
}

#[test]
fn kernel_test_value_of_utf8() {
    check_value_of_utf8();
}

fn check_require_value_of() {
    let kargs = Cmdline::from(b"foo=bar baz=qux switch".as_slice());
    assert_eq!(kargs.require_value_of(b"foo").unwrap(), b"bar");
    assert_eq!(kargs.require_value_of(b"baz").unwrap(), b"qux");

    let err = kargs.require_value_of(b"switch").unwrap_err();
    assert!(err
        .to_string()
        .contains("Failed to find kernel argument 'switch'"));

    let err = kargs.require_value_of(b"missing").unwrap_err();
    assert!(err
        .to_string()
        .contains("Failed to find kernel argument 'missing'"));

    let kargs = Cmdline::from(b"dash-key=value1 under_key=value2".as_slice());
    assert_eq!(kargs.require_value_of(b"dash_key").unwrap(), b"value1");
    assert_eq!(kargs.require_value_of(b"under-key").unwrap(), b"value2");
}

#[test]
fn kernel_test_require_value_of() {
    check_require_value_of();
}

fn check_require_value_of_utf8() {
    let kargs = Cmdline::from(b"foo=bar baz=qux switch".as_slice());
    assert_eq!(kargs.require_value_of_utf8("foo").unwrap(), "bar");
    assert_eq!(kargs.require_value_of_utf8("baz").unwrap(), "qux");

    let err = kargs.require_value_of_utf8("switch").unwrap_err();
    assert!(err
        .to_string()
        .contains("Failed to find kernel argument 'switch'"));

    let err = kargs.require_value_of_utf8("missing").unwrap_err();
    assert!(err
        .to_string()
        .contains("Failed to find kernel argument 'missing'"));

    let kargs = Cmdline::from(b"dash-key=value1 under_key=value2".as_slice());
    assert_eq!(kargs.require_value_of_utf8("dash_key").unwrap(), "value1");
    assert_eq!(kargs.require_value_of_utf8("under-key").unwrap(), "value2");

    let mut invalid_utf8 = b"invalid=".to_vec();
    invalid_utf8.push(0xff);
    let kargs = Cmdline::from(&invalid_utf8);
    assert!(kargs.require_value_of_utf8("invalid").is_err());
}

#[test]
fn kernel_test_require_value_of_utf8() {
    check_require_value_of_utf8();
}

#[test]
fn kernel_cmdline_test_parameter_simple() {
    let switch = Parameter::from(b"foo");
    assert_eq!(switch.key.0, b"foo");
    assert_eq!(switch.value, None);

    let kv = Parameter::from(b"bar=baz");
    assert_eq!(kv.key.0, b"bar");
    assert_eq!(kv.value.as_deref(), Some(b"baz".as_slice()));
}

#[test]
fn kernel_cmdline_test_parameter_quoted() {
    let p = Parameter::from(b"foo=\"quoted value\"");
    assert_eq!(p.value.as_deref(), Some(b"quoted value".as_slice()));
}

#[test]
fn kernel_cmdline_test_parameter_pathological() {
    let p = Parameter::from(b"\"\"\"");
    assert_eq!(p.key.0, b"\"\"\"");

    let p = Parameter::from(b"foo=\"internal \" quotes \" are ok\"");
    assert_eq!(
        p.value.as_deref(),
        Some(b"internal \" quotes \" are ok".as_slice())
    );

    let non_utf8_byte = b"\xff";
    let failed_conversion = std::str::from_utf8(non_utf8_byte);
    assert!(failed_conversion.is_err());
    let mut p = b"foo=".to_vec();
    p.push(non_utf8_byte[0]);
    let p = Parameter::from(&p);
    assert_eq!(p.value.as_deref(), Some(non_utf8_byte.as_slice()));
}

#[test]
fn kernel_cmdline_test_parameter_equality() {
    let foo = Parameter::from(b"foo");
    let bar = Parameter::from(b"foobar");
    assert_ne!(foo, bar);
    assert_ne!(bar, foo);

    let dashes = Parameter::from(b"a-delimited-param");
    let underscores = Parameter::from(b"a_delimited_param");
    assert_eq!(dashes, underscores);

    let dashes = Parameter::from(b"a-delimited-param=same_values");
    let underscores = Parameter::from(b"a_delimited_param=same_values");
    assert_eq!(dashes, underscores);

    let dashes = Parameter::from(b"a-delimited-param=different_values");
    let underscores = Parameter::from(b"a_delimited_param=DiFfErEnT_valUEZ");
    assert_ne!(dashes, underscores);

    let switch = Parameter::from(b"same_key");
    let keyvalue = Parameter::from(b"same_key=but_with_a_value");
    assert_ne!(switch, keyvalue);
}

#[test]
fn kernel_cmdline_test_kargs_simple() {
    let kargs = Cmdline::from(b"foo=bar,bar2 baz=fuz wiz".as_slice());
    let mut iter = kargs.iter().into_iter();

    assert_eq!(iter.next(), Some(Parameter::from(b"foo=bar,bar2")));
    assert_eq!(iter.next(), Some(Parameter::from(b"baz=fuz")));
    assert_eq!(iter.next(), Some(Parameter::from(b"wiz")));
    assert_eq!(iter.next(), None);

    assert_eq!(kargs.find(b"foo").unwrap().value.unwrap(), b"bar,bar2");
    assert!(kargs.find(b"nothing").is_none());
}

#[test]
fn kernel_cmdline_test_kargs_find_dash_hyphen() {
    check_find_dash_hyphen();
}

#[test]
fn kernel_cmdline_test_value_of() {
    check_value_of();
}

#[test]
fn kernel_cmdline_test_value_of_utf8() {
    check_value_of_utf8();
}

#[test]
fn kernel_cmdline_test_require_value_of() {
    check_require_value_of();
}

#[test]
fn kernel_cmdline_test_require_value_of_utf8() {
    check_require_value_of_utf8();
}

#[test]
fn test_find_str() {
    let kargs = Cmdline::from(b"foo=bar baz=qux switch rd.break".as_slice());
    let p = kargs.find_str("foo").unwrap();
    assert_eq!(p, ParameterStr::from("foo=bar"));
    assert_eq!(p.as_ref(), "foo=bar");
    let p = kargs.find_str("rd.break").unwrap();
    assert_eq!(p, ParameterStr::from("rd.break"));
    assert!(kargs.find_str("missing").is_none());
}

#[test]
fn test_find_all_str() {
    let kargs = Cmdline::from(b"foo=bar rd.foo=a rd.bar=b rd.baz rd.qux=c notrd.val=d".as_slice());
    let mut rd_args: Vec<_> = kargs.find_all_starting_with_str("rd.");
    rd_args.sort_by(|a, b| a.key.0.cmp(&b.key.0));
    assert_eq!(rd_args.len(), 4);
    assert_eq!(rd_args[0], ParameterStr::from("rd.bar=b"));
    assert_eq!(rd_args[1], ParameterStr::from("rd.baz"));
    assert_eq!(rd_args[2], ParameterStr::from("rd.foo=a"));
    assert_eq!(rd_args[3], ParameterStr::from("rd.qux=c"));
}

#[test]
fn test_param_to_str() {
    let p = Parameter::from(b"foo=bar");
    let p_str = p.to_str().unwrap();
    assert_eq!(p_str, ParameterStr::from("foo=bar"));
    let non_utf8_byte = b"\xff";
    let mut p_u8 = b"foo=".to_vec();
    p_u8.push(non_utf8_byte[0]);
    let p = Parameter::from(&p_u8);
    assert!(p.to_str().is_none());
}

#[test]
fn test_param_key_str_eq() {
    let k1 = ParameterKeyStr::from("a-b");
    let k2 = ParameterKeyStr::from("a_b");
    assert_eq!(k1, k2);
    let k1 = ParameterKeyStr::from("a-b");
    let k2 = ParameterKeyStr::from("a-c");
    assert_ne!(k1, k2);
}

#[test]
fn test_kargs_non_utf8() {
    let non_utf8_val = b"an_invalid_key=\xff";
    let mut kargs_bytes = b"foo=bar ".to_vec();
    kargs_bytes.extend_from_slice(non_utf8_val);
    kargs_bytes.extend_from_slice(b" baz=qux");
    let kargs = Cmdline::from(kargs_bytes.as_slice());

    assert_eq!(kargs.find_str("foo").unwrap().value.as_deref(), Some("bar"));
    assert_eq!(kargs.find_str("baz").unwrap().value.as_deref(), Some("qux"));

    assert!(kargs.find(b"an_invalid_key").unwrap().to_str().is_none());

    let raw_param = kargs.find(b"an_invalid_key").unwrap();
    assert_eq!(raw_param.value.unwrap(), b"\xff");
}

#[test]
fn quoted_whitespace_does_not_split() {
    let kargs = Cmdline::from(b"a=\"x y\" b".as_slice());
    let params = kargs.iter();
    assert_eq!(params.len(), 2);
    assert_eq!(params[0].value.as_deref(), Some(b"x y".as_slice()));
    assert_eq!(params[1].key.0, b"b");
}

#[test]
fn runs_of_white_space_give_no_empty_parameters() {
    let kargs = Cmdline::from(b"a  b".as_slice());
    let params = kargs.iter();
    assert_eq!(params.len(), 2);
    assert_eq!(params[1].key.0, b"b");
    let kargs = Cmdline::from(b" root=/dev/vda rw\n".as_slice());
    assert_eq!(kargs.iter().len(), 2);
    assert_eq!(Cmdline::from(b"".as_slice()).iter().len(), 0);
    assert_eq!(Cmdline::from(b" \t\n".as_slice()).iter().len(), 0);
}

#[test]
fn only_an_outer_pair_of_quotes_is_stripped() {
    let p = Parameter::from(b"k=v\"");
    assert_eq!(p.value.as_deref(), Some(b"v\"".as_slice()));
    let p = Parameter::from(b"k=\"v");
    assert_eq!(p.value.as_deref(), Some(b"\"v".as_slice()));
    let p = Parameter::from(b"k=\"");
    assert_eq!(p.value.as_deref(), Some(b"\"".as_slice()));
    let p = Parameter::from(b"k=\"\"");
    assert_eq!(p.value.as_deref(), Some(b"".as_slice()));
    let p = ParameterStr::from("k=a\"");
    assert_eq!(p.value.as_deref(), Some("a\""));
}

#[test]
fn key_lossy_replaces_invalid_bytes() {
    let p = Parameter::from(b"k\xff=1");
    assert_eq!(p.key_lossy(), "k\u{fffd}");
    assert_eq!(Parameter::from(b"ok=1").key_lossy(), "ok");
}

#[test]
fn parameter_text_quotes_values_with_spaces() {
    assert_eq!(Parameter::from(b"foo").to_string(), "foo");
    assert_eq!(Parameter::from(b"foo=bar").to_string(), "foo=bar");
    assert_eq!(Parameter::from(b"foo=\"a b\"").to_string(), "foo=\"a b\"");
    assert_eq!(Parameter::new_kv(b"k", b"x\ty").to_string(), "k=\"x\ty\"");
}
