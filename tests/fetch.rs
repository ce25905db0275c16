use bootc::fetch::{join_fetch, FetchError};

#[test]
fn join_prefers_worker_error_over_broken_pipe() {
    let r: Result<u32, FetchError> = join_fetch(Err("bad tar".to_string()), Err("write: broken pipe".to_string()));
    assert_eq!(r, Err(FetchError::Worker("bad tar".to_string())));
}

#[test]
fn join_keeps_both_errors_otherwise() {
    let r: Result<u32, FetchError> = join_fetch(Err("bad tar".to_string()), Err("timeout".to_string()));
    assert_eq!(
        r,
        Err(FetchError::Both { worker: "bad tar".to_string(), proxy: "timeout".to_string() })
    );
    assert_eq!(join_fetch(Ok(7u32), Ok(())), Ok(7));
    assert_eq!(
        join_fetch(Ok(7u32), Err("x".to_string())),
        Err(FetchError::Driver("x".to_string()))
    );
    assert_eq!(
        join_fetch::<u32>(Err("w".to_string()), Ok(())),
        Err(FetchError::Worker("w".to_string()))
    );
}
