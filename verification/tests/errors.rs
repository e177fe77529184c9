use afilia::error::AfiliaError;
use afilia::filesystem::error::{AppCustomErrorKind, AppError, InternalError};
use afilia::filesystem::repository::REPO_FORMAT_VERSION;

#[test]
fn custom_kind_messages() {
    assert_eq!(
        AppCustomErrorKind::RepositoryStructure.message(),
        "a repository structure operation issue"
    );
    assert_eq!(
        AppCustomErrorKind::RepositoryMetadata.message(),
        "repository metadata operation issue"
    );
    assert_eq!(AppCustomErrorKind::RepositorySign.message(), "repository sign issue");
    assert_eq!(AppCustomErrorKind::PhantomCloneError.message(), "no error");
}

#[test]
fn new_custom_keeps_kind_and_message() {
    let err = AppError::new_custom(AppCustomErrorKind::RepositorySign, "cannot sign");
    match err.error_kind {
        InternalError::Custom(kind) => assert_eq!(kind, AppCustomErrorKind::RepositorySign),
        _ => panic!("a custom error must keep its kind"),
    }
    assert_eq!(err.msg, "cannot sign");
    assert_eq!(err.message(), "custom error: cannot sign (repository sign issue)");
}

#[test]
fn rendered_messages_name_their_category() {
    let io = AppError::from_error(InternalError::Io("broken pipe".to_string()), "writing marker");
    assert_eq!(io.message(), "I/O error: writing marker (broken pipe)");
    let parse = AppError::from_error(InternalError::Parse("bad digit".to_string()), "ctx");
    assert_eq!(parse.message(), "conversion error: ctx (bad digit)");
    let json = AppError::from_error(InternalError::Json("eof".to_string()), "ctx");
    assert_eq!(json.message(), "JSON error: ctx (eof)");
    let time = AppError::from_error(InternalError::SystemTime("skew".to_string()), "ctx");
    assert_eq!(time.message(), "system time error: ctx (skew)");
    let utf8 = AppError::from_error(InternalError::Utf8("bad byte".to_string()), "ctx");
    assert_eq!(utf8.message(), "Utf8 conversion error: ctx (bad byte)");
    let db = AppError::from_error(InternalError::Db("locked".to_string()), "ctx");
    assert_eq!(db.message(), "database error: ctx (locked)");
}

#[test]
fn clone_yields_the_phantom_sentinel() {
    let err = AppError::from_error(InternalError::Io("broken pipe".to_string()), "ctx");
    let copy = err.clone();
    match copy.error_kind {
        InternalError::Custom(kind) => assert_eq!(kind, AppCustomErrorKind::PhantomCloneError),
        _ => panic!("a cloned error must hold the phantom sentinel"),
    }
    assert_eq!(copy.msg, "fake clone error");
}

#[test]
fn generic_error_message() {
    assert_eq!(AfiliaError.message(), "Afilia generic error");
}

#[test]
fn format_version_constant() {
    assert_eq!(REPO_FORMAT_VERSION, "1.0");
}
