//! Authentication decisions: whether a request's credentials pass, given the
//! auth settings and the value of the configured header.
use crate::quota::{ApiTokenInfo, TokenRepository, TokenRole, role_name};
use crate::token::{AuthError, TokenService, expired};
use crate::digest::sha256_hex;
use vstd::utf8::encode_utf8;
use crate::text::same_text;
use crate::text::{strip_prefix, strip_prefix_of, trim, trim_of};
use vstd::prelude::*;

verus! {

/// The authentication settings.
pub struct AuthConfig {
    pub enabled: bool,
    /// The configured admin token, if any.
    pub token: Option<String>,
    /// The header that carries the token.
    pub header_name: String,
}

pub struct AuthConfigResponse {
    pub enabled: bool,
}

pub struct AuthRequest {
    pub token: String,
}

pub struct AuthResponse {
    pub success: bool,
    pub message: String,
    pub header_name: Option<String>,
}

impl AuthResponse {
    /// A success, telling the client which header to send the token in.
    pub fn success(message: &str, header_name: &str) -> (r: Self)
        ensures
            r.success,
            r.message@ == message@,
            r.header_name matches Some(h) && h@ == header_name@,
    {
        AuthResponse { success: true, message: message.to_owned(), header_name: Some(header_name.to_owned()) }
    }

    pub fn error(message: &str) -> (r: Self)
        ensures
            !r.success,
            r.message@ == message@,
            r.header_name is None,
    {
        AuthResponse { success: false, message: message.to_owned(), header_name: None }
    }
}

pub struct UserInfo {
    pub name: String,
    pub role: String,
}

pub struct UserInfoResponse {
    pub success: bool,
    pub data: Option<UserInfo>,
}

pub struct CreateTokenRequest {
    pub name: String,
    pub role: String,
    pub max_upload_size: Option<u64>,
    pub expires_at: Option<String>,
}

pub fn get_auth_config(config: &AuthConfig) -> (r: AuthConfigResponse)
    ensures
        r.enabled == config.enabled,
{
    AuthConfigResponse { enabled: config.enabled }
}

/// Who the caller is: the admin when auth is off, otherwise the name and role
/// of the token that the header carries.
pub fn get_user_info(
    config: &AuthConfig,
    repo: &TokenRepository,
    is_authorization: bool,
    header_value: Option<&str>,
    now: i64,
) -> (r: Result<UserInfoResponse, AuthError>)
    requires
        repo.wf(),
    ensures
        config.enabled && header_value is Some ==> ({
            let h = sha256_hex(encode_utf8(presented_token(header_value->0@, is_authorization)));
            forall|i: int| 0 <= i < repo.tokens@.len() && (#[trigger] repo.tokens@[i]).token_hash@ == h ==>
                (r is Ok <==> repo.tokens@[i].is_active && !expired(repo.tokens@[i], now))
                && (r matches Ok(resp) ==> resp.data is Some && resp.data->0.name@ == repo.tokens@[i].name@
                    && resp.data->0.role@ == role_name(repo.tokens@[i].role))
        }),
        !config.enabled ==> (r matches Ok(resp) && resp.success && resp.data is Some
            && resp.data->0.name@ == "admin"@ && resp.data->0.role@ == "admin"@),
        config.enabled && header_value is None ==> r == Err::<UserInfoResponse, AuthError>(AuthError::MissingToken),
        config.enabled && header_value is Some ==> ({
            let h = sha256_hex(encode_utf8(presented_token(header_value->0@, is_authorization)));
            match r {
                Ok(resp) => resp.success && resp.data is Some && exists|t: ApiTokenInfo|
                    repo.tokens@.contains(t) && t.token_hash@ == h && t.is_active && !expired(t, now)
                    && resp.data->0.name@ == t.name@ && resp.data->0.role@ == role_name(t.role),
                Err(AuthError::UnknownToken) => forall|i: int| 0 <= i < repo.tokens@.len()
                    ==> (#[trigger] repo.tokens@[i]).token_hash@ != h,
                Err(AuthError::Disabled) => exists|t: ApiTokenInfo| repo.tokens@.contains(t) && !t.is_active && t.token_hash@ == h,
                Err(AuthError::Expired) => exists|t: ApiTokenInfo| repo.tokens@.contains(t) && t.is_active
                    && expired(t, now) && t.token_hash@ == h,
                Err(_) => false,
            }
        }),
{
    if !config.enabled {
        return Ok(UserInfoResponse {
            success: true,
            data: Some(UserInfo { name: "admin".to_owned(), role: "admin".to_owned() }),
        });
    }
    let t = verify_token_from_headers(config, repo, is_authorization, header_value, now)?;
    let name = t.name.clone();
    let role = t.role.as_str().to_owned();
    Ok(UserInfoResponse { success: true, data: Some(UserInfo { name, role }) })
}

/// Answers a token check against the configured token: always passes when
/// auth is off; otherwise the trimmed texts must match.
pub fn verify_token(config: &AuthConfig, request: &AuthRequest) -> (r: AuthResponse)
    ensures
        r.success <==> (!config.enabled || (config.token matches Some(t) && trim_of(request.token@) == trim_of(t@))),
        r.success ==> (r.header_name matches Some(h) && h@ == config.header_name@),
{
    if !config.enabled {
        return AuthResponse::success("认证已禁用，无需验证", config.header_name.as_str());
    }
    match &config.token {
        Some(expected) => {
            if same_text(trim(request.token.as_str()), trim(expected.as_str())) {
                AuthResponse::success("认证成功", config.header_name.as_str())
            } else {
                AuthResponse::error("认证令牌无效")
            }
        },
        None => AuthResponse::error("未配置认证令牌"),
    }
}

/// Why credentials were refused.
#[derive(Clone, Copy, Debug, PartialEq, Eq, Structural)]
pub enum GuardError {
    /// Auth is on but no usable token is configured.
    NoConfiguredToken,
    /// The header is absent.
    MissingCredentials,
    /// The header does not carry the configured token.
    InvalidCredentials,
    /// The guard needs auth to be on.
    AuthDisabled,
}

/// The token a header value carries: the trimmed value, without a leading
/// `Bearer ` in the `Authorization` header.
pub open spec fn presented_token(value: Seq<char>, is_authorization: bool) -> Seq<char> {
    let v = trim_of(value);
    if is_authorization && strip_prefix_of(v, "Bearer "@) is Some {
        trim_of(strip_prefix_of(v, "Bearer "@)->0)
    } else {
        trim_of(v)
    }
}

pub fn extract_token(value: &str, is_authorization: bool) -> (r: &str)
    ensures
        r@ == presented_token(value@, is_authorization),
{
    let v = trim(value);
    if is_authorization {
        match strip_prefix(v, "Bearer ") {
            Some(rest) => { return trim(rest); },
            None => {},
        }
    }
    trim(v)
}

/// The identity that configuration-level admin access runs under.
pub fn admin_identity(name: &str, now: i64, used_now: bool) -> (r: ApiTokenInfo)
    ensures
        r.id == 0,
        r.name@ == name@,
        r.role == TokenRole::Admin,
        r.max_upload_size is None,
        r.used_upload_size == 0,
        r.is_active,
        r.last_used_at == (if used_now { Some(now) } else { None }),
{
    ApiTokenInfo {
        id: 0,
        name: name.to_owned(),
        token_hash: String::new(),
        role: TokenRole::Admin,
        max_upload_size: None,
        used_upload_size: 0,
        expires_at: None,
        is_active: true,
        created_at: now,
        last_used_at: if used_now { Some(now) } else { None },
    }
}

/// Resolves the caller of a request: the default admin identity when auth is
/// off; otherwise the active, unexpired token whose digest matches the token
/// the header carries.
pub fn verify_token_from_headers(
    config: &AuthConfig,
    repo: &TokenRepository,
    is_authorization: bool,
    header_value: Option<&str>,
    now: i64,
) -> (r: Result<ApiTokenInfo, AuthError>)
    requires
        repo.wf(),
    ensures
        config.enabled && header_value is Some ==> ({
            let h = sha256_hex(encode_utf8(presented_token(header_value->0@, is_authorization)));
            forall|i: int| 0 <= i < repo.tokens@.len() && (#[trigger] repo.tokens@[i]).token_hash@ == h ==>
                (r is Ok <==> repo.tokens@[i].is_active && !expired(repo.tokens@[i], now))
                && (r is Ok ==> r == Ok::<ApiTokenInfo, AuthError>(repo.tokens@[i]))
        }),
        !config.enabled ==> (r matches Ok(t) && t.id == 0 && t.role == TokenRole::Admin && t.last_used_at is None
            && t.max_upload_size is None && t.used_upload_size == 0 && t.is_active),
        config.enabled && header_value is None ==> r == Err::<ApiTokenInfo, AuthError>(AuthError::MissingToken),
        config.enabled && header_value is Some ==> ({
            let h = sha256_hex(encode_utf8(presented_token(header_value->0@, is_authorization)));
            match r {
                Ok(t) => repo.tokens@.contains(t) && t.token_hash@ == h && t.is_active && !expired(t, now),
                Err(AuthError::UnknownToken) => forall|i: int| 0 <= i < repo.tokens@.len()
                    ==> (#[trigger] repo.tokens@[i]).token_hash@ != h,
                Err(AuthError::Disabled) => exists|t: ApiTokenInfo| repo.tokens@.contains(t) && !t.is_active && t.token_hash@ == h,
                Err(AuthError::Expired) => exists|t: ApiTokenInfo| repo.tokens@.contains(t) && t.is_active
                    && expired(t, now) && t.token_hash@ == h,
                Err(_) => false,
            }
        }),
{
    if !config.enabled {
        return Ok(admin_identity("default", now, false));
    }
    let raw = match header_value {
        Some(v) => v,
        None => { return Err(AuthError::MissingToken); },
    };
    let token = extract_token(raw, is_authorization);
    let info = match TokenService::find_by_token_hash(repo, token) {
        Some(t) => t,
        None => { return Err(AuthError::UnknownToken); },
    };
    proof {
        let j = choose|j: int| 0 <= j < repo.tokens@.len() && repo.tokens@[j] == info;
        assert forall|i: int| 0 <= i < repo.tokens@.len() && (#[trigger] repo.tokens@[i]).token_hash@ == info.token_hash@
            implies i == j by {}
    }
    if !info.is_active {
        assert(repo.tokens@.contains(info) && !info.is_active);
        return Err(AuthError::Disabled);
    }
    match info.expires_at {
        Some(e) => {
            if e < now {
                assert(repo.tokens@.contains(info) && info.is_active && expired(info, now));
                return Err(AuthError::Expired);
            }
        },
        None => {},
    }
    Ok(info)
}

/// Passes requests when auth is off, or when the header carries the
/// configured token.
pub struct AuthGuard;

impl AuthGuard {
    pub fn check(config: &AuthConfig, is_authorization: bool, header_value: Option<&str>) -> (r: Result<AuthGuard, GuardError>)
        ensures
            !config.enabled ==> r is Ok,
            config.enabled && (config.token is None || trim_of(config.token->0@).len() == 0)
                ==> r == Err::<AuthGuard, GuardError>(GuardError::NoConfiguredToken),
            config.enabled && config.token is Some && trim_of(config.token->0@).len() > 0 ==> {
                let t = config.token->0;
                let ok = header_value is Some && ({
                    let tv = trim_of(header_value->0@);
                    let stripped = strip_prefix_of(tv, "Bearer "@);
                    if is_authorization {
                        (stripped is Some && trim_of(stripped->0) == t@) || tv == t@
                    } else {
                        tv == t@
                    }
                });
                &&& ok ==> r is Ok
                &&& !ok ==> r == Err::<AuthGuard, GuardError>(GuardError::InvalidCredentials)
            },
    {
        if !config.enabled {
            return Ok(AuthGuard);
        }
        let expected = match &config.token {
            Some(t) => t,
            None => { return Err(GuardError::NoConfiguredToken); },
        };
        if trim(expected.as_str()).is_empty() {
            return Err(GuardError::NoConfiguredToken);
        }
        match header_value {
            Some(raw) => {
                let value = trim(raw);
                if is_authorization {
                    match strip_prefix(value, "Bearer ") {
                        Some(rest) => {
                            if same_text(trim(rest), expected.as_str()) {
                                return Ok(AuthGuard);
                            }
                        },
                        None => {},
                    }
                    if same_text(value, expected.as_str()) {
                        return Ok(AuthGuard);
                    }
                } else {
                    if same_text(value, expected.as_str()) {
                        return Ok(AuthGuard);
                    }
                }
                Err(GuardError::InvalidCredentials)
            },
            None => Err(GuardError::InvalidCredentials),
        }
    }
}

/// A request authenticated by the configured admin token.
pub struct AuthenticatedUser(pub ApiTokenInfo);

impl AuthenticatedUser {
    pub fn check(config: &AuthConfig, is_authorization: bool, header_value: Option<&str>, now: i64)
        -> (r: Result<AuthenticatedUser, GuardError>)
        ensures
            !config.enabled ==> r == Err::<AuthenticatedUser, GuardError>(GuardError::AuthDisabled),
            config.enabled && header_value is None ==> r == Err::<AuthenticatedUser, GuardError>(GuardError::MissingCredentials),
            config.enabled && header_value is Some ==> {
                let ok = config.token is Some
                    && presented_token(header_value->0@, is_authorization) == trim_of(config.token->0@);
                &&& ok ==> (r matches Ok(u) && u.0.id == 0 && u.0.role == TokenRole::Admin && u.0.last_used_at == Some(now)
                    && u.0.max_upload_size is None && u.0.used_upload_size == 0 && u.0.is_active)
                &&& !ok ==> r == Err::<AuthenticatedUser, GuardError>(GuardError::InvalidCredentials)
            },
    {
        if !config.enabled {
            return Err(GuardError::AuthDisabled);
        }
        let raw = match header_value {
            Some(v) => v,
            None => { return Err(GuardError::MissingCredentials); },
        };
        let token = extract_token(raw, is_authorization);
        match &config.token {
            Some(expected) => {
                if same_text(token, trim(expected.as_str())) {
                    return Ok(AuthenticatedUser(admin_identity("管理员", now, true)));
                }
            },
            None => {},
        }
        Err(GuardError::InvalidCredentials)
    }
}

/// Admits only admin access: everyone when auth is off, otherwise the
/// configured admin token.
pub struct AdminGuard(pub ApiTokenInfo);

impl AdminGuard {
    pub fn check(config: &AuthConfig, is_authorization: bool, header_value: Option<&str>, now: i64)
        -> (r: Result<AdminGuard, GuardError>)
        ensures
            !config.enabled ==> (r matches Ok(g) && g.0.id == 0 && g.0.role == TokenRole::Admin && g.0.last_used_at is None
                && g.0.max_upload_size is None && g.0.used_upload_size == 0 && g.0.is_active),
            config.enabled && header_value is None ==> r == Err::<AdminGuard, GuardError>(GuardError::MissingCredentials),
            config.enabled && header_value is Some ==> {
                let ok = config.token is Some
                    && presented_token(header_value->0@, is_authorization) == trim_of(config.token->0@);
                &&& ok ==> (r matches Ok(g) && g.0.id == 0 && g.0.role == TokenRole::Admin && g.0.last_used_at == Some(now)
                    && g.0.max_upload_size is None && g.0.used_upload_size == 0 && g.0.is_active)
                &&& !ok ==> r == Err::<AdminGuard, GuardError>(GuardError::InvalidCredentials)
            },
    {
        if !config.enabled {
            return Ok(AdminGuard(admin_identity("default_admin", now, false)));
        }
        let raw = match header_value {
            Some(v) => v,
            None => { return Err(GuardError::MissingCredentials); },
        };
        let token = extract_token(raw, is_authorization);
        match &config.token {
            Some(expected) => {
                if same_text(token, trim(expected.as_str())) {
                    return Ok(AdminGuard(admin_identity("管理员", now, true)));
                }
            },
            None => {},
        }
        Err(GuardError::InvalidCredentials)
    }
}

} // verus!
