use ftml::service::{Error, FilterService, PageService};

#[test]
fn filter_regex_must_compile() {
    assert_eq!(FilterService::validate_regex("^spam[0-9]+$"), Ok(()));
    assert_eq!(FilterService::validate_regex("(unclosed"), Err(Error::BadRequest));
    assert_eq!(FilterService::validate_regex("[z-a]"), Err(Error::BadRequest));
}

#[test]
fn filter_delete_and_restore_states() {
    assert_eq!(FilterService::check_delete(false), Ok(()));
    assert_eq!(FilterService::check_delete(true), Err(Error::BadRequest));
    assert_eq!(FilterService::check_restore(true), Ok(()));
    assert_eq!(FilterService::check_restore(false), Err(Error::BadRequest));
}

#[test]
fn page_move_normalizes_and_refuses_no_op() {
    assert_eq!(PageService::move_target("old-page", "New Page"), Ok("new-page".to_string()));
    assert_eq!(PageService::move_target("new-page", "New Page"), Err(Error::BadRequest));
    assert_eq!(PageService::move_target_normalized("a", "a".to_string()), Err(Error::BadRequest));
    assert_eq!(PageService::move_target_normalized("a", "b".to_string()), Ok("b".to_string()));
}

#[test]
fn page_restore_checks() {
    assert_eq!(PageService::check_restore(1, 2, true), Err(Error::NotFound));
    assert_eq!(PageService::check_restore(1, 2, false), Err(Error::NotFound));
    assert_eq!(PageService::check_restore(1, 1, false), Err(Error::BadRequest));
    assert_eq!(PageService::check_restore(1, 1, true), Ok(()));
}
