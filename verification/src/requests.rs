//! Request and response shapes the service layer works with, and the
//! authorization checks on them.

use vstd::prelude::*;
use vstd::string::StringExecFns;

use crate::order::{OrderSide, OrderStatus, OrderType, TimeInForce};
use crate::pagination::PaginationQuery;

verus! {

pub struct RegisterRequest {
    pub username: String,
    pub email: String,
    pub phone: Option<String>,
    pub password: String,
    pub full_name: Option<String>,
    pub role: String,
}

/// The role a registration takes when none is named.
pub fn default_role() -> (r: String)
    ensures
        r@ == "user"@,
{
    String::from_str("user")
}

pub struct LoginRequest {
    pub email: String,
    pub password: String,
}

pub struct ApiResponse {
    pub message: String,
    pub status: String,
}

pub struct ListUsersQuery {
    pub is_active: Option<bool>,
    pub pagination: PaginationQuery,
}

pub struct ListEventsQuery {
    pub status: Option<String>,
    pub category: Option<String>,
    pub pagination: PaginationQuery,
}

pub struct MyBetsQuery {
    pub status: Option<String>,
    pub pagination: PaginationQuery,
}

pub struct EventSummary {
    pub id: i32,
    pub title: String,
    pub status: String,
}

pub struct SettleEventRequest {
    pub winning_option_id: i32,
    pub resolution_note: Option<String>,
}

#[derive(Clone, Copy, PartialEq, Eq, Structural, Debug)]
pub struct CancelOrderRequest {
    pub order_id: u128,
}

pub struct MyOrdersQuery {
    pub status: Option<OrderStatus>,
    pub pagination: PaginationQuery,
}

pub struct OrderHistoryQuery {
    pub event_id: Option<i32>,
    pub option_id: Option<i32>,
    pub pagination: PaginationQuery,
}

#[derive(Clone, Copy, PartialEq, Eq, Structural, Debug)]
pub struct PlaceOrderRequest {
    pub event_id: i32,
    pub option_id: i32,
    pub side: OrderSide,
    pub order_type: OrderType,
    pub time_in_force: Option<TimeInForce>,
    pub price: u64,
    pub quantity: u64,
}

/// An authenticated caller: the identifier and role its token carried.
pub struct AuthenticatedUser {
    pub id: String,
    pub role: String,
}

/// Token claims: subject, expiry and issue time in seconds.
pub struct Claims {
    pub sub: String,
    pub exp: usize,
    pub iat: usize,
}

/// Whether the caller holds the administrator role.
pub fn check_admin_role(user: &AuthenticatedUser) -> (r: bool)
    ensures
        r == (user.role@ == "admin"@),
{
    crate::text::str_eq(user.role.as_str(), "admin")
}

/// The caller's numeric identifier, read from its token subject.
pub fn get_user_id(user: &AuthenticatedUser) -> (r: Option<i32>)
    ensures
        r == crate::text::spec_parse_i32(user.id@),
{
    proof {
        assert(user.id@.skip(0) =~= user.id@);
    }
    crate::text::parse_i32_from(user.id.as_str(), 0)
}

} // verus!
