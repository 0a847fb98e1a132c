use schema_differ::sqlite::{Error, SqliteParams};

#[test]
fn sqlite_params_from_str_should_resolve_path_correctly_with_file_scheme() {
    let path = "file:dev.db";
    let params = SqliteParams::try_from(path).unwrap();
    assert_eq!(params.file_path, "dev.db");
}

#[test]
fn sqlite_params_from_str_should_resolve_path_correctly_with_sqlite_scheme() {
    let path = "sqlite:dev.db";
    let params = SqliteParams::try_from(path).unwrap();
    assert_eq!(params.file_path, "dev.db");
}

#[test]
fn sqlite_params_from_str_should_resolve_path_correctly_with_no_scheme() {
    let path = "dev.db";
    let params = SqliteParams::try_from(path).unwrap();
    assert_eq!(params.file_path, "dev.db");
}

#[test]
fn options_are_read_and_unknown_ones_ignored() {
    let params = SqliteParams::parse("file:db/test.db?connection_limit=4&unknown=x", false, 8).unwrap();
    assert_eq!(params.file_path, "db/test.db");
    assert_eq!(params.connection_limit, 4);
    assert_eq!(params.db_name, "quaint");
    assert_eq!(params.socket_timeout, 5);
}

#[test]
fn directory_path_is_rejected() {
    let r = SqliteParams::try_from("sqlite:/etc");
    assert_eq!(r, Err(Error::DatabaseUrlIsInvalid("/etc".to_string())));
}

#[test]
fn directory_flag_rejects_with_the_path() {
    let r = SqliteParams::parse("file:some/dir?db_name=x", true, 1);
    assert_eq!(r, Err(Error::DatabaseUrlIsInvalid("some/dir".to_string())));
}

#[test]
fn default_connection_limit_is_twice_the_cores_plus_one() {
    let params = SqliteParams::parse("dev.db", false, 6).unwrap();
    assert_eq!(params.connection_limit, 13);
    let params = SqliteParams::parse("dev.db", false, 3_000_000_000).unwrap();
    assert_eq!(params.connection_limit, u32::MAX);
}

#[test]
fn default_connection_limit_uses_the_machine() {
    let params = SqliteParams::try_from("dev.db").unwrap();
    assert_eq!(params.connection_limit % 2, 1);
}

#[test]
fn db_name_and_socket_timeout_are_read() {
    let params = SqliteParams::parse("file:a.db?db_name=main&socket_timeout=+30", false, 1).unwrap();
    assert_eq!(params.db_name, "main");
    assert_eq!(params.socket_timeout, 30);
    assert_eq!(params.connection_limit, 3);
}

#[test]
fn later_options_override_earlier_ones() {
    let params = SqliteParams::parse("a.db?connection_limit=2&connection_limit=9", false, 1).unwrap();
    assert_eq!(params.connection_limit, 9);
}

#[test]
fn value_stops_at_a_second_equals_sign() {
    let params = SqliteParams::parse("a.db?db_name=x=y", false, 1).unwrap();
    assert_eq!(params.db_name, "x");
}

#[test]
fn options_come_after_the_last_question_mark() {
    let params = SqliteParams::parse("a.db?db_name=x?db_name=y", false, 1).unwrap();
    assert_eq!(params.file_path, "a.db");
    assert_eq!(params.db_name, "y");
}

#[test]
fn repeated_scheme_is_stripped() {
    let params = SqliteParams::parse("file:file:x.db", false, 1).unwrap();
    assert_eq!(params.file_path, "x.db");
    let params = SqliteParams::parse("sqlite:file:x.db", false, 1).unwrap();
    assert_eq!(params.file_path, "file:x.db");
}

#[test]
fn malformed_integer_is_invalid() {
    let r = SqliteParams::parse("a.db?connection_limit=abc", false, 1);
    assert_eq!(r, Err(Error::InvalidConnectionArguments));
    let r = SqliteParams::parse("a.db?socket_timeout=-1", false, 1);
    assert_eq!(r, Err(Error::InvalidConnectionArguments));
    let r = SqliteParams::parse("a.db?connection_limit=", false, 1);
    assert_eq!(r, Err(Error::InvalidConnectionArguments));
}

#[test]
fn option_without_equals_is_invalid() {
    let r = SqliteParams::parse("a.db?connection_limit", false, 1);
    assert_eq!(r, Err(Error::InvalidConnectionArguments));
    let r = SqliteParams::parse("a.db?", false, 1);
    assert_eq!(r, Err(Error::InvalidConnectionArguments));
}

#[test]
fn connection_limit_beyond_u32_is_invalid() {
    let r = SqliteParams::parse("a.db?connection_limit=4294967296", false, 1);
    assert_eq!(r, Err(Error::InvalidConnectionArguments));
    let params = SqliteParams::parse("a.db?connection_limit=4294967295", false, 1).unwrap();
    assert_eq!(params.connection_limit, u32::MAX);
}

#[test]
fn non_ascii_path_and_name_are_kept() {
    let params = SqliteParams::parse("file:données.db?db_name=schéma", false, 1).unwrap();
    assert_eq!(params.file_path, "données.db");
    assert_eq!(params.db_name, "schéma");
}

#[test]
fn zero_connection_limit_is_invalid() {
    let r = SqliteParams::parse("a.db?connection_limit=0", false, 1);
    assert_eq!(r, Err(Error::InvalidConnectionArguments));
}
