use tow_dispatch::api::{
    UserProfileImageQueryParams, ValidateSessionQueryParams, ValidationResponse,
    DEFAULT_IMAGE_SIDE,
};
use tow_dispatch::errors::AppError;

#[test]
fn session_check_is_valid_only_on_a_valid_session() {
    assert!(ValidationResponse::from_check(Some(Ok(true))).is_valid);
    assert!(!ValidationResponse::from_check(Some(Ok(false))).is_valid);
    assert!(!ValidationResponse::from_check(Some(Err(AppError::NotFound))).is_valid);
    assert!(!ValidationResponse::from_check(None).is_valid);
}

#[test]
fn session_query_may_lack_a_token() {
    let q = ValidateSessionQueryParams { session_token: None };
    assert!(q.session_token.is_none());
    let q = ValidateSessionQueryParams { session_token: Some(String::from("T")) };
    assert_eq!(q.session_token.as_deref(), Some("T"));
}

#[test]
fn image_side_defaults_to_five_hundred() {
    assert_eq!(DEFAULT_IMAGE_SIDE, 500);
    let q = UserProfileImageQueryParams { w: None, h: None };
    assert_eq!((q.width(), q.height()), (500, 500));
    let q = UserProfileImageQueryParams { w: Some(64), h: None };
    assert_eq!((q.width(), q.height()), (64, 500));
    let q = UserProfileImageQueryParams { w: None, h: Some(-3) };
    assert_eq!((q.width(), q.height()), (500, -3));
    let q = UserProfileImageQueryParams { w: Some(0), h: Some(1200) };
    assert_eq!((q.width(), q.height()), (0, 1200));
}
