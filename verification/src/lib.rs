use vstd::prelude::*;

pub mod auth_service;
pub mod claims;
pub mod clock;
pub mod digits;
pub mod hasher;
pub mod jwt;
pub mod laws;
pub mod middlewares;
pub mod payload;
pub mod pgx;
pub mod redis;
pub mod string_ops;
pub mod user_service;
pub mod uuid;

pub use auth_service::AuthServiceImpl;
pub use auth_service::GainNewTokenData;
pub use auth_service::NewUserRecord;
pub use auth_service::RefreshOutcome;
pub use auth_service::SignInData;
pub use auth_service::SignUpData;
pub use auth_service::TokenData;
pub use claims::AdditionalClaims;
pub use claims::Claims;
pub use claims::ClaimsView;
pub use clock::now_ts;
pub use hasher::Bcrypt;
pub use hasher::bcrypt_matches;
pub use jwt::JwtImpl;
pub use pgx::PgRow;
pub use pgx::Row;
pub use redis::RedisImpl;
pub use redis::RedisRow;
pub use user_service::QueryUser;
pub use user_service::UpdateUser;
pub use user_service::User;
pub use user_service::UserResponse;
pub use uuid::uuid_v4;
