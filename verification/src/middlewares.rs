pub mod jwt_middleware;
pub mod refresh_middleware;
