//! Records the platform stores and shows, and its configuration.
use vstd::prelude::*;

verus! {

/// The claims of a session token: user id, expiry, admin flag.
#[derive(Debug)]
pub struct Claims {
    pub sub: i64,
    pub exp: usize,
    pub is_admin: bool,
}

/// A user invited by the current user.
#[derive(Debug)]
pub struct InvitedUserInfo {
    pub id: i64,
    pub email: String,
    pub nickname: String,
}

/// A DAO auction.
#[derive(Debug)]
pub struct DaoAuction {
    pub id: i64,
    pub admin_bsc_address: String,
    pub start_time: String,
    pub end_time: String,
    pub is_active: bool,
}

/// A user's bound BSC address.
#[derive(Debug)]
pub struct UserBscAddressInfo {
    pub user_id: i64,
    pub nickname: String,
    pub email: String,
    pub bsc_address: String,
    pub bound_at: String,
}

/// An academy article with its content.
#[derive(Debug)]
pub struct AcademyArticle {
    pub id: i64,
    pub title: String,
    pub summary: String,
    pub image_url: Option<String>,
    pub publish_date: String,
    pub modify_date: String,
    pub is_displayed: bool,
    pub content: String,
}

/// An academy article without its content.
#[derive(Debug)]
pub struct AcademyArticleSummary {
    pub id: i64,
    pub title: String,
    pub summary: String,
    pub image_url: Option<String>,
    pub publish_date: String,
    pub modify_date: String,
    pub is_displayed: bool,
}

/// One invitation: who invited whom, and when.
#[derive(Debug)]
pub struct ReferralRelationship {
    pub inviter_id: i64,
    pub inviter_email: String,
    pub invited_user_id: i64,
    pub invited_user_nickname: String,
    pub invited_user_email: String,
    pub invited_at: String,
}

/// A user bound to an exchange account.
#[derive(Debug)]
pub struct UserExchangeBindingInfo {
    pub email: String,
    pub exchange_uid: String,
    pub user_id: i64,
}

/// A course permission group.
#[derive(Debug)]
pub struct PermissionGroup {
    pub id: i64,
    pub name: String,
    pub description: Option<String>,
    pub created_at: String,
}

/// A user's membership of a permission group.
#[derive(Debug)]
pub struct UserPermissionGroup {
    pub id: i64,
    pub user_id: i64,
    pub group_id: i64,
    pub expires_at: String,
    pub purchased_at: String,
}

/// A course.
#[derive(Debug)]
pub struct Course {
    pub id: i64,
    pub course_type: String,
    pub name: String,
    pub description: String,
    pub content: String,
    pub created_at: String,
    pub image: Option<String>,
    pub link: Option<String>,
}

/// A course as shown to a user, with what unlocks it.
#[derive(Debug)]
pub struct CourseDetails {
    pub id: i64,
    pub course_type: String,
    pub name: String,
    pub description: String,
    pub content: String,
    pub is_unlocked: bool,
    pub required_groups: Vec<PermissionGroupInfo>,
    pub image: Option<String>,
    pub link: Option<String>,
}

/// A course together with one group it belongs to.
#[derive(Debug)]
pub struct CourseWithGroup {
    pub course_id: i64,
    pub course_type: String,
    pub course_name: String,
    pub course_description: String,
    pub course_content: String,
    pub group_id: i64,
    pub group_name: String,
}

/// A permission group's id and name.
#[derive(Debug)]
pub struct PermissionGroupInfo {
    pub id: i64,
    pub name: String,
}

/// The secret that signs session tokens.
#[derive(Debug)]
pub struct JwtConfig {
    pub secret: String,
}

/// Credentials of the outgoing mail account.
#[derive(Debug)]
pub struct MailConfig {
    pub user: String,
    pub pass: String,
}

/// The key that admits administrator requests.
#[derive(Debug)]
pub struct AdminKeyConfig {
    pub key: String,
}

/// Whether a DAO auction is in progress, and its details.
#[derive(Debug)]
pub struct CurrentDaoAuctionResponse {
    pub is_auction_in_progress: bool,
    pub start_time: Option<String>,
    pub end_time: Option<String>,
    pub admin_bsc_address: Option<String>,
}

} // verus!
