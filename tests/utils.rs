use bootc::iterators::{collect_until, iterator_split};
use bootc::path::{is_shellsafe, PathQuotedDisplay, QuoteError};

#[test]
fn test_it_split() {
    let a: &[&str] = &[];
    for v in [0, 1, 5] {
        let (first, rest) = iterator_split(a, v);
        assert_eq!(first.iter().count(), 0);
        assert_eq!(rest.iter().count(), 0);
    }
    let a = &["foo"];
    for v in [1, 5] {
        let (first, rest) = iterator_split(a, v);
        assert_eq!(first.iter().count(), 1);
        assert_eq!(rest.iter().count(), 0);
    }
    let (first, rest) = iterator_split(a, 1);
    assert_eq!(first.iter().count(), 1);
    assert_eq!(rest.iter().count(), 0);
    let a = &["foo", "bar", "baz", "blah", "other"];
    let (first, rest) = iterator_split(a, 2);
    assert_eq!(first.iter().count(), 2);
    assert_eq!(rest.iter().count(), 3);
    assert_eq!(rest, &["baz", "blah", "other"]);
}

#[test]
fn test_split_empty_iterator() {
    let a: &[&str] = &[];
    for v in [1, 5] {
        assert!(collect_until(a, v).is_none());
    }
}

#[test]
fn test_split_nonempty_iterator() {
    let a = &["foo"];

    let Some((elts, 0)) = collect_until(a, 1) else {
        panic!()
    };
    assert_eq!(elts.len(), 1);

    let Some((elts, 0)) = collect_until(a, 5) else {
        panic!()
    };
    assert_eq!(elts.len(), 1);

    let a = &["foo", "bar", "baz", "blah", "other"];
    let Some((elts, 3)) = collect_until(a, 2) else {
        panic!()
    };
    assert_eq!(elts.len(), 2);
    assert_eq!(elts, vec!["foo", "bar"]);
}

#[test]
fn test_unquoted() {
    for v in [
        "",
        "foo",
        "/foo/bar",
        "/foo/bar/../baz",
        "/foo9/bar10",
        "--foo",
        "--virtiofs=/foo,/bar",
        "/foo:/bar",
        "--label=type=unconfined_t",
    ] {
        assert_eq!(v, PathQuotedDisplay::new(v.as_bytes()).to_string().unwrap());
    }
}

#[test]
fn test_bash_metachars() {
    let bash_metachars = "|&;()<>";
    for c in bash_metachars.chars() {
        assert!(!is_shellsafe(c));
    }
}

#[test]
fn test_quoted() {
    let cases = [
        (" ", "' '"),
        ("/some/path with spaces/", "'/some/path with spaces/'"),
        ("/foo/!/bar&", "'/foo/!/bar&'"),
        (r#"/path/"withquotes'"#, r#""/path/\"withquotes'""#),
    ];
    for (v, quoted) in cases {
        let q = PathQuotedDisplay::new(v.as_bytes()).to_string().unwrap();
        assert_eq!(quoted, q.as_str());
        let token = shlex::split(&q).unwrap();
        assert_eq!(1, token.len());
        assert_eq!(v, token[0]);
    }
}

#[test]
fn test_nonutf8() {
    let q = PathQuotedDisplay::new(b"/foo/somenonutf8\xEE/bar")
        .to_string()
        .unwrap();
    assert_eq!(q, r#"'/foo/somenonutf8�/bar'"#);
}

#[test]
fn nul_byte_cannot_be_quoted() {
    assert_eq!(
        PathQuotedDisplay::new(b"/a\0b").to_string(),
        Err(QuoteError)
    );
    assert!(is_shellsafe('é'));
}
