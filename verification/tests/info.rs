use sql_info::{info, Error, InfoStatement, Level, Options};

#[test]
fn info_query_ns() {
    let sql = "INFO FOR NAMESPACE";
    let res = info(sql);
    assert!(res.is_ok());
    let out = res.unwrap().1;
    assert_eq!(out, InfoStatement::Namespace);
    assert_eq!("INFO FOR NAMESPACE", out.render());
}

#[test]
fn info_query_db() {
    let sql = "INFO FOR DATABASE";
    let res = info(sql);
    assert!(res.is_ok());
    let out = res.unwrap().1;
    assert_eq!(out, InfoStatement::Database);
    assert_eq!("INFO FOR DATABASE", out.render());
}

#[test]
fn info_query_sc() {
    let sql = "INFO FOR SCOPE test";
    let res = info(sql);
    assert!(res.is_ok());
    let out = res.unwrap().1;
    assert_eq!(out, InfoStatement::Scope(String::from("test")));
    assert_eq!("INFO FOR SCOPE test", out.render());
}

#[test]
fn info_query_tb() {
    let sql = "INFO FOR TABLE test";
    let res = info(sql);
    assert!(res.is_ok());
    let out = res.unwrap().1;
    assert_eq!(out, InfoStatement::Table(String::from("test")));
    assert_eq!("INFO FOR TABLE test", out.render());
}

#[test]
fn lower_case_parses() {
    let res = info("info for namespace");
    assert_eq!(res.unwrap().1, InfoStatement::Namespace);
}

#[test]
fn mixed_case_parses() {
    let res = info("InFo FoR nAmEsPaCe");
    assert_eq!(res.unwrap().1, InfoStatement::Namespace);
    let res = info("Info For Scope test");
    assert_eq!(res.unwrap().1, InfoStatement::Scope(String::from("test")));
}

#[test]
fn identifier_case_is_preserved() {
    let res = info("info for table MyTable");
    assert_eq!(res.unwrap().1, InfoStatement::Table(String::from("MyTable")));
}

#[test]
fn alias_namespace() {
    let full = info("INFO FOR NAMESPACE").unwrap().1;
    let short = info("INFO FOR NS").unwrap().1;
    assert_eq!(full, short);
}

#[test]
fn alias_database_renders_full_keyword() {
    let out = info("INFO FOR DB").unwrap().1;
    assert_eq!(out, InfoStatement::Database);
    assert_eq!("INFO FOR DATABASE", out.render());
}

#[test]
fn alias_scope() {
    let full = info("INFO FOR SCOPE foo").unwrap().1;
    let short = info("INFO FOR SC foo").unwrap().1;
    assert_eq!(full, InfoStatement::Scope(String::from("foo")));
    assert_eq!(full, short);
}

#[test]
fn alias_table() {
    let full = info("INFO FOR TABLE foo").unwrap().1;
    let short = info("INFO FOR TB foo").unwrap().1;
    assert_eq!(full, InfoStatement::Table(String::from("foo")));
    assert_eq!(full, short);
}

#[test]
fn missing_separator_fails() {
    assert!(info("INFO FORNAMESPACE").is_err());
    assert!(info("INFO FOR SCOPEfoo").is_err());
    assert!(info("INFOFOR NAMESPACE").is_err());
}

#[test]
fn missing_identifier_fails() {
    assert!(info("INFO FOR SCOPE").is_err());
    assert!(info("INFO FOR SCOPE ").is_err());
    assert!(info("INFO FOR TABLE").is_err());
}

#[test]
fn unrelated_input_fails() {
    assert!(info("SELECT * FROM test").is_err());
    assert!(info("INFO").is_err());
    assert!(info("INFO FOR").is_err());
    assert!(info("INFO FOR USER").is_err());
    assert!(info("").is_err());
}

#[test]
fn trailing_input_is_left_unconsumed() {
    let (rest, out) = info("INFO FOR NAMESPACE; SELECT").unwrap();
    assert_eq!(out, InfoStatement::Namespace);
    assert_eq!(rest, "; SELECT");
    let (rest, out) = info("INFO FOR TABLE test more").unwrap();
    assert_eq!(out, InfoStatement::Table(String::from("test")));
    assert_eq!(rest, " more");
}

#[test]
fn backtick_quoted_identifier() {
    let (rest, out) = info("INFO FOR TABLE `my table`").unwrap();
    assert_eq!(out, InfoStatement::Table(String::from("my table")));
    assert_eq!(rest, "");
}

#[test]
fn bracket_quoted_identifier() {
    let (rest, out) = info("INFO FOR SCOPE \u{27E8}my scope\u{27E9}").unwrap();
    assert_eq!(out, InfoStatement::Scope(String::from("my scope")));
    assert_eq!(rest, "");
}

#[test]
fn empty_or_unterminated_quoted_identifier_fails() {
    assert!(info("INFO FOR TABLE ``").is_err());
    assert!(info("INFO FOR TABLE `abc").is_err());
}

#[test]
fn multiple_whitespace_separators() {
    let out = info("INFO\t\n FOR  \r\nNAMESPACE").unwrap().1;
    assert_eq!(out, InfoStatement::Namespace);
}

#[test]
fn namespace_statement_needs_namespace_tier() {
    let st = info("INFO FOR NAMESPACE").unwrap().1;
    let db_only = Options { auth: Level::Db };
    let r: Result<(), Error> = st.compute(&db_only);
    assert_eq!(r.unwrap_err(), Error::NotPermitted);
}

#[test]
fn database_statement_passes_gate_under_namespace_tier() {
    let st = info("INFO FOR DATABASE").unwrap().1;
    let ns = Options { auth: Level::Ns };
    let r: Result<(), Error> = st.compute(&ns);
    assert_eq!(r.unwrap_err(), Error::Unimplemented);
}

#[test]
fn database_tier_statements_pass_gate_under_database_tier() {
    let db = Options { auth: Level::Db };
    for sql in ["INFO FOR DATABASE", "INFO FOR SCOPE s", "INFO FOR TABLE t"] {
        let st = info(sql).unwrap().1;
        let r: Result<(), Error> = st.compute(&db);
        assert_eq!(r.unwrap_err(), Error::Unimplemented);
    }
}

#[test]
fn namespace_statement_passes_gate_under_namespace_tier() {
    let st = info("INFO FOR NAMESPACE").unwrap().1;
    let ns = Options { auth: Level::Ns };
    let r: Result<(), Error> = st.compute(&ns);
    assert_eq!(r.unwrap_err(), Error::Unimplemented);
}

#[test]
fn check_rejects_insufficient_tier() {
    let db_only = Options { auth: Level::Db };
    assert_eq!(db_only.check(Level::Ns).unwrap_err(), Error::NotPermitted);
    assert!(db_only.check(Level::Db).is_ok());
    let ns = Options { auth: Level::Ns };
    assert!(ns.check(Level::Ns).is_ok());
    assert!(ns.check(Level::Db).is_ok());
}

#[test]
fn round_trip_constructed_statements() {
    let cases = [
        InfoStatement::Namespace,
        InfoStatement::Database,
        InfoStatement::Scope(String::from("account")),
        InfoStatement::Table(String::from("person_2")),
    ];
    for st in cases {
        let text = st.render();
        let (rest, reparsed) = info(text.as_str()).unwrap();
        assert_eq!(reparsed, st);
        assert_eq!(rest, "");
    }
}
