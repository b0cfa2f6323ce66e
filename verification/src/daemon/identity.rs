//! Who a connection runs as: its user id, user name and groups. Looking
//! them up in the user database is the caller's part.

use crate::daemon::policy::{texts_view, Identity as PolicyIdentity, IdentitySpec};
use vstd::prelude::*;

verus! {

/// A user id with its user name (where the database knows it) and the
/// names of its groups.
#[derive(Debug)]
pub struct Identity {
    pub uid: u32,
    pub user_name: Option<String>,
    pub group_names: Vec<String>,
}

impl View for Identity {
    type V = IdentitySpec;

    open spec fn view(&self) -> IdentitySpec {
        IdentitySpec {
            uid: self.uid,
            user_name: match self.user_name {
                Some(u) => Some(u@),
                None => None,
            },
            group_names: texts_view(self.group_names@),
        }
    }
}

impl Identity {
    /// The same identity, as the policy reads it.
    pub fn as_policy(&self) -> (p: PolicyIdentity<'_>)
        ensures
            p@ == self@,
    {
        PolicyIdentity {
            uid: self.uid,
            user_name: match &self.user_name {
                Some(u) => Some(u.as_str()),
                None => None,
            },
            group_names: self.group_names.as_slice(),
        }
    }
}

} // verus!
