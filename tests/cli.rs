use echo_rs::cli::{parse_args, parse_pool_size, ArgError, Command, Mode, DEFAULT_POOL_SIZE};

fn args(a: &[&str]) -> Vec<String> {
    a.iter().map(|s| s.to_string()).collect()
}

#[test]
fn pool_flag_with_non_number_is_refused_with_status_one() {
    let r = parse_args(&args(&["-p", "abc"]));
    assert_eq!(r, Err(ArgError::InvalidPoolSize("abc".to_string())));
    assert_eq!(r.unwrap_err().exit_code(), 1);
}

#[test]
fn no_arguments_select_async_mode() {
    assert_eq!(parse_args(&args(&[])), Ok(Command::Serve(Mode::Async)));
    assert_eq!(DEFAULT_POOL_SIZE, 5);
}

#[test]
fn thread_flag_selects_thread_per_request() {
    assert_eq!(parse_args(&args(&["-t"])), Ok(Command::Serve(Mode::ThreadPerRequest)));
}

#[test]
fn pool_flag_selects_pool_of_given_size() {
    assert_eq!(parse_args(&args(&["-p", "8"])), Ok(Command::Serve(Mode::ThreadPool(8))));
}

#[test]
fn last_mode_flag_wins() {
    assert_eq!(parse_args(&args(&["-p", "3", "-t"])), Ok(Command::Serve(Mode::ThreadPerRequest)));
    assert_eq!(parse_args(&args(&["-t", "-p", "3"])), Ok(Command::Serve(Mode::ThreadPool(3))));
}

#[test]
fn help_flag_stops_reading() {
    assert_eq!(parse_args(&args(&["-h"])), Ok(Command::Help));
    assert_eq!(parse_args(&args(&["-t", "-h", "bogus"])), Ok(Command::Help));
}

#[test]
fn first_bad_argument_is_reported() {
    assert_eq!(parse_args(&args(&["-x", "-h"])), Err(ArgError::UnknownArgument("-x".to_string())));
    assert_eq!(parse_args(&args(&["-p"])), Err(ArgError::MissingPoolSize));
    assert_eq!(parse_args(&args(&["-p", "0"])), Err(ArgError::InvalidPoolSize("0".to_string())));
    assert_eq!(ArgError::MissingPoolSize.exit_code(), 1);
}

#[test]
fn pool_sizes_are_positive_decimal_u32() {
    assert_eq!(parse_pool_size("1"), Some(1));
    assert_eq!(parse_pool_size("+7"), Some(7));
    assert_eq!(parse_pool_size("007"), Some(7));
    assert_eq!(parse_pool_size("4294967295"), Some(u32::MAX));
    assert_eq!(parse_pool_size("4294967296"), None);
    assert_eq!(parse_pool_size("99999999999999999999"), None);
    assert_eq!(parse_pool_size("0"), None);
    assert_eq!(parse_pool_size(""), None);
    assert_eq!(parse_pool_size("+"), None);
    assert_eq!(parse_pool_size("-3"), None);
    assert_eq!(parse_pool_size("1a"), None);
    assert_eq!(parse_pool_size(" 4"), None);
}
