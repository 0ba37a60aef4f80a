use vstd::prelude::*;

verus! {

/// Mathematical model of a guest token's claims.
#[verifier::ext_equal]
pub struct GuestClaims {
    pub purpose: Seq<char>,
    pub redirect_url: Seq<char>,
    pub name: Seq<char>,
    pub room_id: Seq<char>,
    pub iat: u64,
    pub exp: u64,
}

/// Mathematical model of a host token's claims.
#[verifier::ext_equal]
pub struct HostClaims {
    pub room_id: Seq<char>,
    pub iat: u64,
    pub exp: u64,
}

/// Claims extracted from a verified guest token: what is to be verified,
/// where the guest's browser returns, a display label for the host, the
/// room the session belongs to, and the validity window.
#[derive(Debug)]
pub struct GuestToken {
    pub purpose: String,
    pub redirect_url: String,
    pub name: String,
    pub room_id: String,
    pub iat: u64,
    pub exp: u64,
}

impl View for GuestToken {
    type V = GuestClaims;

    open spec fn view(&self) -> GuestClaims {
        GuestClaims {
            purpose: self.purpose@,
            redirect_url: self.redirect_url@,
            name: self.name@,
            room_id: self.room_id@,
            iat: self.iat,
            exp: self.exp,
        }
    }
}

impl GuestToken {
    /// A deep copy; the claims are unchanged.
    pub fn duplicate(&self) -> (r: GuestToken)
        ensures
            r@ == self@,
    {
        GuestToken {
            purpose: self.purpose.clone(),
            redirect_url: self.redirect_url.clone(),
            name: self.name.clone(),
            room_id: self.room_id.clone(),
            iat: self.iat,
            exp: self.exp,
        }
    }
}

/// Claims extracted from a verified host token: which room of sessions the
/// bearer may read, and the validity window.
#[derive(Debug)]
pub struct HostToken {
    pub room_id: String,
    pub iat: u64,
    pub exp: u64,
}

impl View for HostToken {
    type V = HostClaims;

    open spec fn view(&self) -> HostClaims {
        HostClaims { room_id: self.room_id@, iat: self.iat, exp: self.exp }
    }
}

} // verus!
