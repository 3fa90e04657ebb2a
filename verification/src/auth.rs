//! Identity of a request: the claims a login token carries, the role they
//! grant, and what each role is offered.

use vstd::prelude::*;

verus! {

/// The claims of a login token: the user's id and tag, their permission
/// level (0 for a rider, anything else for an administrator) and the
/// token's expiry as a unix timestamp.
#[derive(Debug)]
pub struct UserData {
    pub id: i64,
    pub tag: String,
    pub permissions: i32,
    pub exp: i32,
}

/// Who a request speaks for.
#[derive(Debug)]
pub enum UserAuth {
    User(UserData),
    Admin(UserData),
    UnAuthorized,
}

/// A start or finish device, as registered for one trail.
#[derive(Debug, Clone, Copy)]
pub struct DeviceAuth {
    pub id: i32,
    pub trailid: i32,
}

/// The role that the claims of a valid token grant; no claims, no role.
pub open spec fn role_of(claims: Option<UserData>) -> UserAuth {
    match claims {
        None => UserAuth::UnAuthorized,
        Some(user) => if user.permissions == 0 {
            UserAuth::User(user)
        } else {
            UserAuth::Admin(user)
        },
    }
}

/// The pages offered in the navigation: riders see the scoreboard and the
/// queue, administrators also the trails and the devices.
pub open spec fn link_names(admin: bool) -> Seq<Seq<char>> {
    if admin {
        seq!["scoreboard"@, "que"@, "trails"@, "devices"@]
    } else {
        seq!["scoreboard"@, "que"@]
    }
}

impl UserAuth {
    /// The claims behind a logged-in request.
    pub open spec fn data(self) -> Option<UserData> {
        match self {
            UserAuth::User(data) => Some(data),
            UserAuth::Admin(data) => Some(data),
            UserAuth::UnAuthorized => None,
        }
    }

    pub open spec fn admin(self) -> bool {
        self is Admin
    }

    /// Classifies the claims of a decoded login token: permission level 0 is
    /// a rider, any other level an administrator, and a request without valid
    /// claims is unauthorized.
    pub fn from_jwt_claims(claims: Option<UserData>) -> (auth: UserAuth)
        ensures
            auth == role_of(claims),
    {
        match claims {
            None => UserAuth::UnAuthorized,
            Some(user) => if user.permissions == 0 {
                UserAuth::User(user)
            } else {
                UserAuth::Admin(user)
            },
        }
    }

    pub fn get_data(&self) -> (data: Option<&UserData>)
        ensures
            data is Some <==> self.data() is Some,
            data is Some ==> *data->0 == self.data()->0,
    {
        match self {
            UserAuth::User(data) => Some(data),
            UserAuth::Admin(data) => Some(data),
            UserAuth::UnAuthorized => None,
        }
    }

    pub fn pop_data(self) -> (data: Option<UserData>)
        ensures
            data == self.data(),
    {
        match self {
            UserAuth::User(data) => Some(data),
            UserAuth::Admin(data) => Some(data),
            UserAuth::UnAuthorized => None,
        }
    }

    pub fn is_admin(&self) -> (admin: bool)
        ensures
            admin == self.admin(),
    {
        match self {
            UserAuth::Admin(_) => true,
            _ => false,
        }
    }

    /// The pages offered to this request in the navigation.
    pub fn links(&self) -> (links: Vec<&'static str>)
        ensures
            links@.map_values(|l: &'static str| l@) == link_names(self.admin()),
    {
        let links = match self {
            UserAuth::Admin(_) => vec!["scoreboard", "que", "trails", "devices"],
            _ => vec!["scoreboard", "que"],
        };
        assert(links@.map_values(|l: &'static str| l@) =~= link_names(self.admin()));
        links
    }
}

/// Classifying a token's claims keeps them: the request speaks for exactly
/// the user the claims name, and for nobody without claims.
pub proof fn lemma_claims_kept(claims: Option<UserData>)
    ensures
        role_of(claims).data() == claims,
{
}

/// A request is an administrator's exactly when its claims carry a
/// non-zero permission level.
pub proof fn lemma_admin_iff_permission(claims: Option<UserData>)
    ensures
        role_of(claims).admin() <==> (claims matches Some(u) && u.permissions != 0),
{
}

/// An administrator is always logged in.
pub proof fn lemma_admin_is_logged_in(auth: UserAuth)
    ensures
        auth.admin() ==> auth.data() is Some,
{
}

/// Administrators are offered every page a rider is offered, in the same
/// order, and more.
pub proof fn lemma_admin_links_extend()
    ensures
        link_names(false) == link_names(true).take(2),
        link_names(true).len() > link_names(false).len(),
{
    assert(link_names(false) =~= link_names(true).take(2));
}

} // verus!
