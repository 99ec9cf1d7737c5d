//! What is told to the panel of what users do.
use vstd::prelude::*;
use crate::json;
use crate::json::Json;

verus! {

/// An activity as it is sent to the panel.
#[derive(Debug)]
pub struct Activity {
    /// who did it; none for what the daemon does by itself
    pub user: Option<String>,
    pub server: String,
    pub event: String,
    pub metadata: Json,
    pub ip: String,
    /// RFC 3339, UTC
    pub timestamp: String,
}

/// A text that may be missing, by its content.
pub open spec fn user_of(u: Option<String>) -> Option<Seq<char>> {
    match u {
        Some(s) => Some(s@),
        None => None,
    }
}

impl Activity {
    /// What happened, of nobody in particular.
    pub fn new(server: &str, event: &str, timestamp: String) -> (r: Self)
        ensures
            r.user is None,
            r.server@ == server@,
            r.event@ == event@,
            r.metadata is Null,
            r.ip@ == ""@,
            r.timestamp@ == timestamp@,
    {
        Activity {
            user: None,
            server: server.to_owned(),
            event: event.to_owned(),
            metadata: Json::Null,
            ip: "".to_owned(),
            timestamp,
        }
    }

    pub fn with_user(self, user: Option<String>) -> (r: Self)
        ensures
            r == (Activity { user, ..self }),
    {
        Activity { user, ..self }
    }

    pub fn with_ip(self, ip: String) -> (r: Self)
        ensures
            r == (Activity { ip, ..self }),
    {
        Activity { ip, ..self }
    }

    pub fn with_metadata(self, metadata: Json) -> (r: Self)
        ensures
            r == (Activity { metadata, ..self }),
    {
        Activity { metadata, ..self }
    }

    /// The same activity, by its contents.
    pub open spec fn equals(&self, other: Activity) -> bool {
        &&& user_of(self.user) == user_of(other.user)
        &&& self.server@ == other.server@
        &&& self.event@ == other.event@
        &&& json::doc(self.metadata) == json::doc(other.metadata)
        &&& self.ip@ == other.ip@
        &&& self.timestamp@ == other.timestamp@
    }
}

/// Activities are the same if all that is told of them is.
pub proof fn law_same_activities(a: &Activity, b: Activity)
    requires
        a.equals(b),
    ensures
        user_of(a.user) == user_of(b.user),
        a.server@ == b.server@ && a.event@ == b.event@ && a.ip@ == b.ip@ && a.timestamp@
            == b.timestamp@,
        json::doc(a.metadata) == json::doc(b.metadata),
        a.user is Some && b.user is Some ==> a.user->0@ == b.user->0@,
        a.user is None <==> b.user is None,
{
}

} // verus!
