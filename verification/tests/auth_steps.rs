use tow_dispatch::auth::{
    begin_registration, build_response, is_dispatcher_role, login_step, profile_image_name,
    register_step, resized_image, session_is_valid, AuthEvent, AuthService, Dispatcher,
    LoginState, LoginTransition, RegisterState, RegisterTransition, Session, User,
};
use tow_dispatch::errors::AppError;

fn user(role: &str) -> User {
    User {
        id: 4,
        username: String::from("ann"),
        password: String::from("$hash"),
        role: String::from(role),
    }
}

fn token() -> String {
    String::from("T")
}

fn login_error(t: LoginTransition) -> Option<AppError> {
    match t {
        LoginTransition::Finish(Err(e)) => Some(e),
        _ => None,
    }
}

fn register_error(t: RegisterTransition) -> Option<AppError> {
    match t {
        RegisterTransition::Finish(Err(e)) => Some(e),
        _ => None,
    }
}

#[test]
fn auth_service_keeps_its_directory() {
    let s = AuthService::new(String::from("users"));
    assert_eq!(s.repository().as_str(), "users");
}

#[test]
fn dispatcher_role_is_spelled_exactly() {
    assert!(is_dispatcher_role(&String::from("dispatcher")));
    assert!(!is_dispatcher_role(&String::from("Dispatcher")));
    assert!(!is_dispatcher_role(&String::from("client")));
    assert!(!is_dispatcher_role(&String::new()));
}

#[test]
fn response_carries_user_session_and_dispatcher() {
    let d = Dispatcher { id: 9, user_id: 4, area_id: 2 };
    let r = build_response(user("dispatcher"), token(), Some(d));
    assert_eq!((r.user_id, r.username.as_str(), r.session_token.as_str()), (4, "ann", "T"));
    assert_eq!((r.role.as_str(), r.dispatcher_id, r.area_id), ("dispatcher", Some(9), Some(2)));
    let r = build_response(user("client"), token(), None);
    assert_eq!((r.role.as_str(), r.dispatcher_id, r.area_id), ("client", None, None));
}

#[test]
fn registration_as_dispatcher_needs_an_area() {
    let r = begin_registration(&String::from("dispatcher"), None);
    assert!(matches!(r, Err(AppError::BadRequest)));
    let r = begin_registration(&String::from("dispatcher"), Some(1));
    assert!(matches!(r, Ok(RegisterState::CheckExisting)));
    let r = begin_registration(&String::from("client"), None);
    assert!(matches!(r, Ok(RegisterState::CheckExisting)));
}

#[test]
fn login_of_unknown_user_is_unauthorized() {
    let t = login_step(LoginState::FindUser, AuthEvent::UserFound(None));
    assert_eq!(login_error(t), Some(AppError::Unauthorized));
}

#[test]
fn login_with_wrong_password_is_unauthorized() {
    let t = login_step(LoginState::FindUser, AuthEvent::UserFound(Some(user("client"))));
    let state = match t {
        LoginTransition::Continue(s) => s,
        _ => panic!("login goes on"),
    };
    assert!(matches!(state, LoginState::CheckPassword { .. }));
    let t = login_step(state, AuthEvent::PasswordChecked(false));
    assert_eq!(login_error(t), Some(AppError::Unauthorized));
}

#[test]
fn login_of_a_client_ends_after_the_session() {
    let t = login_step(
        LoginState::CheckPassword { user: user("client") },
        AuthEvent::PasswordChecked(true),
    );
    let state = match t {
        LoginTransition::Continue(s) => s,
        _ => panic!("login goes on"),
    };
    let session_token = match &state {
        LoginState::CreateSession { user, session_token } => {
            assert_eq!(user.id, 4);
            session_token.clone()
        }
        _ => panic!("a session is created next"),
    };
    assert_eq!(session_token.chars().count(), 30);
    assert!(session_token.chars().all(|c| c.is_ascii_alphanumeric()));
    match login_step(state, AuthEvent::Written) {
        LoginTransition::Finish(Ok(r)) => {
            assert_eq!(r.session_token, session_token);
            assert_eq!((r.user_id, r.dispatcher_id, r.area_id), (4, None, None));
        }
        _ => panic!("login ends"),
    }
}

#[test]
fn login_of_a_dispatcher_looks_up_the_dispatcher() {
    let t = login_step(
        LoginState::CreateSession { user: user("dispatcher"), session_token: token() },
        AuthEvent::Written,
    );
    let state = match t {
        LoginTransition::Continue(s) => s,
        _ => panic!("login goes on"),
    };
    assert!(matches!(state, LoginState::FindDispatcher { .. }));
    let d = Dispatcher { id: 9, user_id: 4, area_id: 2 };
    match login_step(state, AuthEvent::DispatcherFound(Some(d))) {
        LoginTransition::Finish(Ok(r)) => {
            assert_eq!((r.dispatcher_id, r.area_id), (Some(9), Some(2)));
            assert_eq!(r.session_token, "T");
        }
        _ => panic!("login ends"),
    }
    let t = login_step(
        LoginState::FindDispatcher { user: user("dispatcher"), session_token: token() },
        AuthEvent::DispatcherFound(None),
    );
    assert_eq!(login_error(t), Some(AppError::InternalServerError));
}

#[test]
fn login_passes_a_failure_on() {
    let t = login_step(LoginState::FindUser, AuthEvent::Failed(AppError::NotFound));
    assert_eq!(login_error(t), Some(AppError::NotFound));
    let t = login_step(
        LoginState::CreateSession { user: user("client"), session_token: token() },
        AuthEvent::Failed(AppError::Conflict),
    );
    assert_eq!(login_error(t), Some(AppError::Conflict));
}

#[test]
fn login_answer_out_of_turn_is_an_internal_failure() {
    let t = login_step(LoginState::FindUser, AuthEvent::Written);
    assert_eq!(login_error(t), Some(AppError::InternalServerError));
}

#[test]
fn registration_of_a_taken_name_is_a_conflict() {
    let t = register_step(
        RegisterState::CheckExisting,
        AuthEvent::UserFound(Some(user("client"))),
        None,
    );
    assert_eq!(register_error(t), Some(AppError::Conflict));
}

#[test]
fn registration_of_a_client_runs_to_its_response() {
    let t = register_step(RegisterState::CheckExisting, AuthEvent::UserFound(None), None);
    let state = match t {
        RegisterTransition::Continue(s) => s,
        _ => panic!("registration goes on"),
    };
    assert!(matches!(state, RegisterState::HashPassword));
    let t = register_step(state, AuthEvent::PasswordHashed(String::from("$h")), None);
    let state = match t {
        RegisterTransition::Continue(s) => s,
        _ => panic!("registration goes on"),
    };
    match &state {
        RegisterState::CreateUser { hashed_password } => assert_eq!(hashed_password, "$h"),
        _ => panic!("the user is created next"),
    }
    let t = register_step(state, AuthEvent::Written, None);
    let state = match t {
        RegisterTransition::Continue(s) => s,
        _ => panic!("registration goes on"),
    };
    let session_token = match &state {
        RegisterState::FindCreated { session_token } => session_token.clone(),
        _ => panic!("the user is looked up next"),
    };
    assert_eq!(session_token.chars().count(), 30);
    let t = register_step(state, AuthEvent::UserFound(Some(user("client"))), None);
    let state = match t {
        RegisterTransition::Continue(s) => s,
        _ => panic!("registration goes on"),
    };
    assert!(matches!(state, RegisterState::CreateSession { .. }));
    match register_step(state, AuthEvent::Written, None) {
        RegisterTransition::Finish(Ok(r)) => {
            assert_eq!(r.session_token, session_token);
            assert_eq!((r.user_id, r.dispatcher_id, r.area_id), (4, None, None));
        }
        _ => panic!("registration ends"),
    }
}

#[test]
fn registration_of_a_dispatcher_writes_the_dispatcher() {
    let t = register_step(
        RegisterState::CreateSession { user: user("dispatcher"), session_token: token() },
        AuthEvent::Written,
        Some(3),
    );
    let state = match t {
        RegisterTransition::Continue(s) => s,
        _ => panic!("registration goes on"),
    };
    match &state {
        RegisterState::CreateDispatcher { area_id, .. } => assert_eq!(*area_id, 3),
        _ => panic!("the dispatcher is written next"),
    }
    let t = register_step(state, AuthEvent::Written, Some(3));
    let state = match t {
        RegisterTransition::Continue(s) => s,
        _ => panic!("registration goes on"),
    };
    assert!(matches!(state, RegisterState::FindDispatcher { .. }));
    let d = Dispatcher { id: 9, user_id: 4, area_id: 3 };
    match register_step(state, AuthEvent::DispatcherFound(Some(d)), Some(3)) {
        RegisterTransition::Finish(Ok(r)) => {
            assert_eq!((r.dispatcher_id, r.area_id), (Some(9), Some(3)));
        }
        _ => panic!("registration ends"),
    }
}

#[test]
fn registration_without_the_written_user_is_an_internal_failure() {
    let t = register_step(
        RegisterState::FindCreated { session_token: token() },
        AuthEvent::UserFound(None),
        None,
    );
    assert_eq!(register_error(t), Some(AppError::InternalServerError));
}

#[test]
fn registration_passes_a_failure_on() {
    let t = register_step(
        RegisterState::CreateUser { hashed_password: String::from("$h") },
        AuthEvent::Failed(AppError::Conflict),
        None,
    );
    assert_eq!(register_error(t), Some(AppError::Conflict));
}

#[test]
fn profile_image_without_a_name_is_not_found() {
    assert_eq!(profile_image_name(Ok(Some(String::from("a.png")))), Ok(String::from("a.png")));
    assert_eq!(profile_image_name(Ok(None)), Err(AppError::NotFound));
    assert_eq!(profile_image_name(Err(AppError::InternalServerError)), Err(AppError::NotFound));
}

#[test]
fn resized_image_is_the_output_of_a_successful_run() {
    assert_eq!(resized_image(true, vec![1, 2, 3]), Ok(vec![1, 2, 3]));
    assert_eq!(resized_image(false, vec![1, 2, 3]), Err(AppError::InternalServerError));
}

#[test]
fn session_validity_is_what_the_record_says() {
    let mut s = Session { id: 1, user_id: 4, session_token: token(), is_valid: true };
    assert!(session_is_valid(&s));
    s.is_valid = false;
    assert!(!session_is_valid(&s));
}
