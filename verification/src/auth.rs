//! The decisions of registration and login, step by step: what the service
//! does next, given what it waits for and what came back.

use crate::errors::AppError;
use crate::utils::{generate_session_token, is_session_token};
use vstd::prelude::*;

verus! {

/// A user as the user directory records it.
#[derive(Clone, Debug)]
pub struct User {
    pub id: i32,
    pub username: String,
    pub password: String,
    pub role: String,
}

/// A dispatcher: a user who works an area.
#[derive(Clone, Copy, Debug, PartialEq, Eq, Structural)]
pub struct Dispatcher {
    pub id: i32,
    pub user_id: i32,
    pub area_id: i32,
}

/// A session as the session directory records it.
#[derive(Clone, Debug)]
pub struct Session {
    pub id: i32,
    pub user_id: i32,
    pub session_token: String,
    pub is_valid: bool,
}

/// What a user gets back from registration and from login.
#[derive(Clone, Debug)]
pub struct LoginResponseDto {
    pub user_id: i32,
    pub username: String,
    pub session_token: String,
    pub role: String,
    pub dispatcher_id: Option<i32>,
    pub area_id: Option<i32>,
}

/// What came back from the work that the service waited for.
#[derive(Debug)]
pub enum AuthEvent {
    /// The user directory answered a lookup by name.
    UserFound(Option<User>),
    /// The password was checked against the stored hash.
    PasswordChecked(bool),
    /// The password was hashed.
    PasswordHashed(String),
    /// A record was written.
    Written,
    /// The dispatcher directory answered a lookup by user.
    DispatcherFound(Option<Dispatcher>),
    /// The work failed.
    Failed(AppError),
}

/// What a login waits for.
#[derive(Debug)]
pub enum LoginState {
    FindUser,
    CheckPassword { user: User },
    CreateSession { user: User, session_token: String },
    FindDispatcher { user: User, session_token: String },
}

/// What a registration waits for.
#[derive(Debug)]
pub enum RegisterState {
    CheckExisting,
    HashPassword,
    CreateUser { hashed_password: String },
    FindCreated { session_token: String },
    CreateSession { user: User, session_token: String },
    CreateDispatcher { user: User, session_token: String, area_id: i32 },
    FindDispatcher { user: User, session_token: String },
}

/// Where a login goes after a step.
#[derive(Debug)]
pub enum LoginTransition {
    Continue(LoginState),
    Finish(Result<LoginResponseDto, AppError>),
}

/// Where a registration goes after a step.
#[derive(Debug)]
pub enum RegisterTransition {
    Continue(RegisterState),
    Finish(Result<LoginResponseDto, AppError>),
}

/// The name of the role that works an area.
pub open spec fn dispatcher_role() -> Seq<char> {
    "dispatcher"@
}

/// The response for a user and a session, with the dispatcher's id and area
/// where there is one.
pub open spec fn response_of(
    user: User,
    session_token: String,
    dispatcher: Option<Dispatcher>,
) -> LoginResponseDto {
    LoginResponseDto {
        user_id: user.id,
        username: user.username,
        session_token,
        role: user.role,
        dispatcher_id: match dispatcher {
            Some(d) => Some(d.id),
            None => None,
        },
        area_id: match dispatcher {
            Some(d) => Some(d.area_id),
            None => None,
        },
    }
}

/// Whether a role is that of a dispatcher.
pub fn is_dispatcher_role(role: &String) -> (b: bool)
    ensures
        b == (role@ == dispatcher_role()),
{
    let name = "dispatcher".to_owned();
    *role == name
}

/// Builds the response for a user and a session.
pub fn build_response(user: User, session_token: String, dispatcher: Option<Dispatcher>) -> (r:
    LoginResponseDto)
    ensures
        r == response_of(user, session_token, dispatcher),
{
    LoginResponseDto {
        user_id: user.id,
        username: user.username,
        session_token,
        role: user.role,
        dispatcher_id: match dispatcher {
            Some(d) => Some(d.id),
            None => None,
        },
        area_id: match dispatcher {
            Some(d) => Some(d.area_id),
            None => None,
        },
    }
}

/// A registration as a dispatcher names the area; any other role may leave
/// it out. Where the request is in order, the registration starts by
/// looking for a user of the same name.
pub fn begin_registration(role: &String, area: Option<i32>) -> (r: Result<RegisterState, AppError>)
    ensures
        role@ == dispatcher_role() && area.is_none() ==> r == Err::<RegisterState, AppError>(
            AppError::BadRequest,
        ),
        !(role@ == dispatcher_role() && area.is_none()) ==> r == Ok::<RegisterState, AppError>(
            RegisterState::CheckExisting,
        ),
{
    if is_dispatcher_role(role) && area.is_none() {
        Err(AppError::BadRequest)
    } else {
        Ok(RegisterState::CheckExisting)
    }
}

/// The steps of a login. A failure of the work ends it with that failure;
/// an unknown user and a wrong password end it as unauthorized; a
/// dispatcher without a dispatcher record, and an answer that the step did
/// not wait for, end it with an internal failure.
pub open spec fn login_allows(state: LoginState, event: AuthEvent, t: LoginTransition) -> bool {
    match (state, event) {
        (_, AuthEvent::Failed(e)) => t == LoginTransition::Finish(Err(e)),
        (LoginState::FindUser, AuthEvent::UserFound(Some(user))) => t == LoginTransition::Continue(
            LoginState::CheckPassword { user },
        ),
        (LoginState::FindUser, AuthEvent::UserFound(None)) => t == LoginTransition::Finish(
            Err(AppError::Unauthorized),
        ),
        (LoginState::CheckPassword { user }, AuthEvent::PasswordChecked(valid)) => if valid {
            exists|token: String|
                is_session_token(token@) && t == LoginTransition::Continue(
                    LoginState::CreateSession { user, session_token: token },
                )
        } else {
            t == LoginTransition::Finish(Err(AppError::Unauthorized))
        },
        (LoginState::CreateSession { user, session_token }, AuthEvent::Written) => if user.role@
            == dispatcher_role() {
            t == LoginTransition::Continue(LoginState::FindDispatcher { user, session_token })
        } else {
            t == LoginTransition::Finish(Ok(response_of(user, session_token, None)))
        },
        (
            LoginState::FindDispatcher { user, session_token },
            AuthEvent::DispatcherFound(Some(d)),
        ) => t == LoginTransition::Finish(Ok(response_of(user, session_token, Some(d)))),
        _ => t == LoginTransition::Finish(Err(AppError::InternalServerError)),
    }
}

/// One step of a login: from what it waited for and what came back to what
/// it waits for next, or to its result.
pub fn login_step(state: LoginState, event: AuthEvent) -> (t: LoginTransition)
    ensures
        login_allows(state, event, t),
{
    match (state, event) {
        (_, AuthEvent::Failed(e)) => LoginTransition::Finish(Err(e)),
        (LoginState::FindUser, AuthEvent::UserFound(Some(user))) => LoginTransition::Continue(
            LoginState::CheckPassword { user },
        ),
        (LoginState::FindUser, AuthEvent::UserFound(None)) => LoginTransition::Finish(
            Err(AppError::Unauthorized),
        ),
        (LoginState::CheckPassword { user }, AuthEvent::PasswordChecked(valid)) => {
            if valid {
                let session_token = generate_session_token();
                LoginTransition::Continue(LoginState::CreateSession { user, session_token })
            } else {
                LoginTransition::Finish(Err(AppError::Unauthorized))
            }
        },
        (LoginState::CreateSession { user, session_token }, AuthEvent::Written) => {
            if is_dispatcher_role(&user.role) {
                LoginTransition::Continue(LoginState::FindDispatcher { user, session_token })
            } else {
                LoginTransition::Finish(Ok(build_response(user, session_token, None)))
            }
        },
        (
            LoginState::FindDispatcher { user, session_token },
            AuthEvent::DispatcherFound(Some(d)),
        ) => LoginTransition::Finish(Ok(build_response(user, session_token, Some(d)))),
        _ => LoginTransition::Finish(Err(AppError::InternalServerError)),
    }
}

/// The inputs on which a registration stops without a result: a user who is
/// recorded as a dispatcher though the request named no area, and a
/// dispatcher record that is missing right after it was written.
pub open spec fn register_stuck(state: RegisterState, event: AuthEvent, area: Option<i32>) -> bool {
    match (state, event) {
        (RegisterState::CreateSession { user, session_token }, AuthEvent::Written) => user.role@
            == dispatcher_role() && area.is_none(),
        (
            RegisterState::FindDispatcher { user, session_token },
            AuthEvent::DispatcherFound(None),
        ) => true,
        _ => false,
    }
}

/// The steps of a registration. A failure of the work ends it with that
/// failure; a name that is taken ends it as a conflict; a user who cannot
/// be found after being written, and an answer that the step did not wait
/// for, end it with an internal failure.
pub open spec fn register_allows(
    state: RegisterState,
    event: AuthEvent,
    area: Option<i32>,
    t: RegisterTransition,
) -> bool {
    match (state, event) {
        (_, AuthEvent::Failed(e)) => t == RegisterTransition::Finish(Err(e)),
        (RegisterState::CheckExisting, AuthEvent::UserFound(Some(_))) => t
            == RegisterTransition::Finish(Err(AppError::Conflict)),
        (RegisterState::CheckExisting, AuthEvent::UserFound(None)) => t
            == RegisterTransition::Continue(RegisterState::HashPassword),
        (RegisterState::HashPassword, AuthEvent::PasswordHashed(hashed_password)) => t
            == RegisterTransition::Continue(RegisterState::CreateUser { hashed_password }),
        (RegisterState::CreateUser { hashed_password }, AuthEvent::Written) => exists|
            token: String,
        |
            is_session_token(token@) && t == RegisterTransition::Continue(
                RegisterState::FindCreated { session_token: token },
            ),
        (RegisterState::FindCreated { session_token }, AuthEvent::UserFound(Some(user))) => t
            == RegisterTransition::Continue(RegisterState::CreateSession { user, session_token }),
        (RegisterState::CreateSession { user, session_token }, AuthEvent::Written) => if user.role@
            == dispatcher_role() {
            area.is_some() && t == RegisterTransition::Continue(
                RegisterState::CreateDispatcher { user, session_token, area_id: area.unwrap() },
            )
        } else {
            t == RegisterTransition::Finish(Ok(response_of(user, session_token, None)))
        },
        (RegisterState::CreateDispatcher { user, session_token, area_id }, AuthEvent::Written) => t
            == RegisterTransition::Continue(RegisterState::FindDispatcher { user, session_token }),
        (
            RegisterState::FindDispatcher { user, session_token },
            AuthEvent::DispatcherFound(Some(d)),
        ) => t == RegisterTransition::Finish(Ok(response_of(user, session_token, Some(d)))),
        _ => t == RegisterTransition::Finish(Err(AppError::InternalServerError)),
    }
}

/// One step of a registration: from what it waited for and what came back
/// to what it waits for next, or to its result. `area` is the area that the
/// request named.
pub fn register_step(state: RegisterState, event: AuthEvent, area: Option<i32>) -> (t:
    RegisterTransition)
    requires
        !register_stuck(state, event, area),
    ensures
        register_allows(state, event, area, t),
{
    match (state, event) {
        (_, AuthEvent::Failed(e)) => RegisterTransition::Finish(Err(e)),
        (RegisterState::CheckExisting, AuthEvent::UserFound(Some(_))) => RegisterTransition::Finish(
            Err(AppError::Conflict),
        ),
        (RegisterState::CheckExisting, AuthEvent::UserFound(None)) => RegisterTransition::Continue(
            RegisterState::HashPassword,
        ),
        (
            RegisterState::HashPassword,
            AuthEvent::PasswordHashed(hashed_password),
        ) => RegisterTransition::Continue(RegisterState::CreateUser { hashed_password }),
        (RegisterState::CreateUser { hashed_password }, AuthEvent::Written) => {
            let session_token = generate_session_token();
            RegisterTransition::Continue(RegisterState::FindCreated { session_token })
        },
        (
            RegisterState::FindCreated { session_token },
            AuthEvent::UserFound(Some(user)),
        ) => RegisterTransition::Continue(RegisterState::CreateSession { user, session_token }),
        (RegisterState::CreateSession { user, session_token }, AuthEvent::Written) => {
            if is_dispatcher_role(&user.role) {
                match area {
                    Some(area_id) => RegisterTransition::Continue(
                        RegisterState::CreateDispatcher { user, session_token, area_id },
                    ),
                    None => vstd::pervasive::unreached(),
                }
            } else {
                RegisterTransition::Finish(Ok(build_response(user, session_token, None)))
            }
        },
        (
            RegisterState::CreateDispatcher { user, session_token, area_id },
            AuthEvent::Written,
        ) => RegisterTransition::Continue(RegisterState::FindDispatcher { user, session_token }),
        (
            RegisterState::FindDispatcher { user, session_token },
            AuthEvent::DispatcherFound(Some(d)),
        ) => RegisterTransition::Finish(Ok(build_response(user, session_token, Some(d)))),
        (RegisterState::FindDispatcher { .. }, AuthEvent::DispatcherFound(None)) => {
            vstd::pervasive::unreached()
        },
        _ => RegisterTransition::Finish(Err(AppError::InternalServerError)),
    }
}

/// The name of a user's profile image, from what the directory answered: a
/// user without one, and a failed lookup, are both reported as not found.
pub fn profile_image_name(found: Result<Option<String>, AppError>) -> (r: Result<String, AppError>)
    ensures
        r == (match found {
            Ok(Some(name)) => Ok::<String, AppError>(name),
            _ => Err::<String, AppError>(AppError::NotFound),
        }),
{
    match found {
        Ok(Some(name)) => Ok(name),
        _ => Err(AppError::NotFound),
    }
}

/// The resized image, from how the resizing ended: its output where it
/// succeeded, an internal failure where it did not.
pub fn resized_image(succeeded: bool, output: Vec<u8>) -> (r: Result<Vec<u8>, AppError>)
    ensures
        r == (if succeeded {
            Ok::<Vec<u8>, AppError>(output)
        } else {
            Err::<Vec<u8>, AppError>(AppError::InternalServerError)
        }),
{
    if succeeded {
        Ok(output)
    } else {
        Err(AppError::InternalServerError)
    }
}

/// Whether a session is valid, as its record says.
pub fn session_is_valid(session: &Session) -> (valid: bool)
    ensures
        valid == session.is_valid,
{
    session.is_valid
}

/// The authentication service: the directory it works with.
#[derive(Debug)]
pub struct AuthService<T> {
    repository: T,
}

impl<T> AuthService<T> {
    /// The directory that the service was made with.
    pub closed spec fn spec_repository(&self) -> T {
        self.repository
    }

    /// A service over a directory.
    pub fn new(repository: T) -> (service: Self)
        ensures
            service.spec_repository() == repository,
    {
        AuthService { repository }
    }

    /// The directory.
    pub fn repository(&self) -> (r: &T)
        ensures
            *r == self.spec_repository(),
    {
        &self.repository
    }
}

} // verus!
