//! Bodies of the requests the platform accepts.
use vstd::prelude::*;

verus! {

/// An administrator creating a user account.
#[derive(Debug)]
pub struct CreateUserByAdminRequest {
    pub email: String,
    pub nickname: String,
    pub password: String,
    pub invite_code: Option<String>,
    pub is_admin: Option<bool>,
}

/// Removing an exchange partner.
#[derive(Debug)]
pub struct DeleteExchangeRequest {
    pub id: i64,
}

/// Publishing an academy article (content in Markdown).
#[derive(Debug)]
pub struct CreateArticleRequest {
    pub title: String,
    pub summary: String,
    pub image_url: Option<String>,
    pub is_displayed: bool,
    pub content: String,
}

/// Editing an academy article (content in Markdown).
#[derive(Debug)]
pub struct UpdateArticleRequest {
    pub title: String,
    pub summary: String,
    pub image_url: Option<String>,
    pub is_displayed: bool,
    pub content: String,
}

/// Removing an academy article.
#[derive(Debug)]
pub struct DeleteArticleRequest {
    pub id: i64,
}

/// Activating (`true`) or banning (`false`) a user.
#[derive(Debug)]
pub struct ToggleUserStatusRequest {
    pub user_id: i64,
    pub is_active: bool,
}

/// Approving or rejecting a withdrawal order.
#[derive(Debug)]
pub struct UpdateWithdrawalStatusRequest {
    pub order_id: i64,
    pub status: String,
}

/// Starting a DAO auction at an ISO 8601 time for a number of minutes.
#[derive(Debug)]
pub struct StartDaoAuctionRequest {
    pub admin_bsc_address: String,
    pub start_time: String,
    pub duration_minutes: i64,
}

/// A query over an inclusive range of dates.
#[derive(Debug)]
pub struct DateRangeRequest {
    pub start_date: String,
    pub end_date: String,
}

/// A query for one date.
#[derive(Debug)]
pub struct DateQueryRequest {
    pub date: String,
}

/// Changing a password, proving the old one.
#[derive(Debug)]
pub struct UpdatePasswordWithOldRequest {
    pub old_password: String,
    pub new_password: String,
}

/// Registering a new account with an emailed verification code.
#[derive(Debug)]
pub struct RegisterRequest {
    pub email: String,
    pub nickname: String,
    pub verification_code: String,
    pub password: String,
    pub invite_code: String,
}

/// Logging in by email and password.
#[derive(Debug)]
pub struct LoginRequest {
    pub email: String,
    pub password: String,
}

/// Asking for a verification code by email.
#[derive(Debug)]
pub struct VerificationRequest {
    pub email: String,
}

/// Asking for a password reset code by email.
#[derive(Debug)]
pub struct ForgotPasswordRequest {
    pub email: String,
}

/// Resetting a password with an emailed reset code.
#[derive(Debug)]
pub struct ResetPasswordRequest {
    pub email: String,
    pub reset_code: String,
    pub new_password: String,
}

/// Adding a banner.
#[derive(Debug)]
pub struct CreateBannerRequest {
    pub image_url: String,
    pub link_url: String,
}

/// Editing a banner.
#[derive(Debug)]
pub struct UpdateBannerRequest {
    pub image_url: String,
    pub link_url: String,
}

/// Creating a course permission group.
#[derive(Debug)]
pub struct CreatePermissionGroupRequest {
    pub name: String,
}

/// Creating a course.
#[derive(Debug)]
pub struct CreateCourseRequest {
    pub course_type: String,
    pub name: String,
    pub description: String,
    pub content: String,
}

/// Assigning a course to a permission group.
#[derive(Debug)]
pub struct AssignCourseToGroupRequest {
    pub group_id: i64,
}

/// Renaming a permission group.
#[derive(Debug)]
pub struct UpdatePermissionGroupRequest {
    pub name: String,
}

/// Editing a course.
#[derive(Debug)]
pub struct UpdateCourseRequest {
    pub course_type: String,
    pub name: String,
    pub description: String,
    pub content: String,
}

/// Granting a user a permission group for a number of days.
#[derive(Debug)]
pub struct GrantPermissionRequest {
    pub group_id: i64,
    pub duration_days: i64,
}

/// Revoking a permission group from a user.
#[derive(Debug)]
pub struct RevokePermissionRequest {
    pub group_id: i64,
}

/// A query for a user's data of one date.
#[derive(Debug)]
pub struct DailyUserDataRequest {
    pub date: String,
}

/// A query for the platform's data of one date.
#[derive(Debug)]
pub struct DailyPlatformDataRequest {
    pub date: String,
}

/// Binding an exchange account.
#[derive(Debug)]
pub struct BindExchangeRequest {
    pub exchange_id: i64,
    pub exchange_uid: Option<String>,
}

/// Ordering a course package.
#[derive(Debug)]
pub struct CreateOrderRequest {
    pub package_id: i64,
}

/// A filter of orders by status.
#[derive(Debug)]
pub struct OrderQuery {
    pub status: Option<String>,
}

/// Running the daily settlement for a date (yesterday when absent).
#[derive(Debug)]
pub struct TriggerSettlementRequest {
    pub date: Option<String>,
}

/// Running the admin fee-share controller for a date (yesterday when absent).
#[derive(Debug)]
pub struct ForceNtxControlRequest {
    pub date: Option<String>,
}

/// Changing the nickname.
#[derive(Debug)]
pub struct UpdateNicknameRequest {
    pub nickname: String,
}

/// Withdrawing an amount to an address.
#[derive(Debug)]
pub struct WithdrawRequest {
    pub amount: i64,
    pub to_address: String,
}

/// Binding a BSC address.
#[derive(Debug)]
pub struct BindBscAddressRequest {
    pub bsc_address: String,
}

} // verus!
