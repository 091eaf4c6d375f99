//! The entry of an application.

use lxlake::entry::{accept, entry_of, expansion, validate, EntryError, Expansion, Factory};

#[test]
fn a_function_without_parameters_is_an_entry() {
    let factory = entry_of("fn app() -> lxlake::Builder { lxlake::Builder::new() }").unwrap();
    assert_eq!(factory, Factory { name: "app".to_owned(), parameters: 0, is_async: false });
}

#[test]
fn what_is_wrong_with_an_entry_is_said() {
    let error = |source: &str| entry_of(source).unwrap_err();
    assert_eq!(error("fn app(x: u8, y: u8) {}"), EntryError::Parameters);
    assert_eq!(error("async fn app() {}"), EntryError::Async);
    assert_eq!(error("async fn app(x: u8) {}"), EntryError::Parameters);
    assert_eq!(error("fn __lxlake_app() {}"), EntryError::ReservedName);
    assert_eq!(error("struct App;"), EntryError::Syntax("expected `fn`".to_owned()));
    let said = syn::parse_str::<syn::ItemFn>("fn").err().unwrap().to_string();
    assert_eq!(error("fn").display(), said);
    assert_eq!(error("fn"), EntryError::Syntax(said));
    assert!(EntryError::Async.display().contains("async"));
    assert!(EntryError::ReservedName.display().contains("__lxlake"));
}

#[test]
fn what_was_read_is_admitted_or_refused() {
    let plain = || Factory { name: "app".to_owned(), parameters: 0, is_async: false };
    assert_eq!(accept(Ok(plain())), Ok(plain()));
    assert_eq!(accept(Ok(Factory { is_async: true, ..plain() })), Err(EntryError::Async));
    assert_eq!(accept(Err("no".to_owned())), Err(EntryError::Syntax("no".to_owned())));
}

#[test]
fn a_name_may_come_close_to_the_reserved_ones() {
    let named = |name: &str| Factory { name: name.to_owned(), parameters: 0, is_async: false };
    assert!(validate(&named("_lxlake")).is_ok());
    assert!(validate(&named("__lxlak")).is_ok());
    assert_eq!(validate(&named("__lxlake")), Err(EntryError::ReservedName));
}

#[test]
fn entries_expand_by_platform() {
    assert_eq!(
        expansion(true, true),
        Expansion { allow_unused: false, run: true, android_main: true }
    );
    assert_eq!(
        expansion(true, false),
        Expansion { allow_unused: false, run: true, android_main: false }
    );
    assert_eq!(
        expansion(false, true),
        Expansion { allow_unused: true, run: false, android_main: true }
    );
}
