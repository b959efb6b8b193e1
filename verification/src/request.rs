//! How the monitor answers a request for a challenge instance, from a
//! player or from the CTFd plugin, before anything is provisioned.
use vstd::prelude::*;
use crate::text::{dec, eq_str, push_decimal};

verus! {

/// Who asks for an instance.
#[derive(Debug, Clone, Copy, PartialEq, Eq, Structural)]
pub enum Requester {
    /// A player, authenticated by a CTFd token.
    Player,
    /// The CTFd plugin, on behalf of a team.
    Plugin,
}

/// The answer to an instance request.
#[derive(Debug, PartialEq, Eq, Structural)]
pub enum RequestStep {
    /// Refuse: the team already solved the challenge.
    AlreadySolved,
    /// Hand back the team's instance as it stands.
    ReturnExisting,
    /// Refuse: the team's instance is being provisioned.
    AlreadyProvisioning,
    /// Refuse: the challenge is not registered with the monitor.
    NotRegistered,
    /// Refuse: the team has as many active instances as it may.
    LimitReached,
    /// Insert a provisioning placeholder and provision a new instance.
    Provision,
}

/// The answer to a request from `requester` for a team that has `solved`
/// the challenge or not, whose existing instance has `status` (if any), for
/// a challenge that is `registered` or not, where a team may hold
/// `max_per_team` active instances (0: no cap) and holds `active`.
///
/// Only the plugin's requests are refused for a solved challenge. A running
/// instance is handed back; one being provisioned is handed back to the
/// plugin and refused to a player.
pub open spec fn request_step_of(
    requester: Requester,
    solved: bool,
    status: Option<Seq<char>>,
    registered: bool,
    max_per_team: u64,
    active: u64,
) -> RequestStep {
    if requester is Plugin && solved {
        RequestStep::AlreadySolved
    } else if status == Some("running"@) {
        RequestStep::ReturnExisting
    } else if status == Some("provisioning"@) {
        if requester is Plugin {
            RequestStep::ReturnExisting
        } else {
            RequestStep::AlreadyProvisioning
        }
    } else if !registered {
        RequestStep::NotRegistered
    } else if max_per_team > 0 && active >= max_per_team {
        RequestStep::LimitReached
    } else {
        RequestStep::Provision
    }
}

pub open spec fn opt_view(o: Option<&str>) -> Option<Seq<char>> {
    match o {
        Some(s) => Some(s@),
        None => None,
    }
}

/// Decides an instance request.
pub fn request_step(
    requester: Requester,
    solved: bool,
    status: Option<&str>,
    registered: bool,
    max_per_team: u64,
    active: u64,
) -> (r: RequestStep)
    ensures
        r == request_step_of(requester, solved, opt_view(status), registered, max_per_team, active),
{
    let from_plugin = match requester {
        Requester::Plugin => true,
        Requester::Player => false,
    };
    if from_plugin && solved {
        return RequestStep::AlreadySolved;
    }
    match status {
        Some(s) => {
            if eq_str(s, "running") {
                return RequestStep::ReturnExisting;
            }
            if eq_str(s, "provisioning") {
                return if from_plugin {
                    RequestStep::ReturnExisting
                } else {
                    RequestStep::AlreadyProvisioning
                };
            }
        },
        None => {},
    }
    if !registered {
        RequestStep::NotRegistered
    } else if max_per_team > 0 && active >= max_per_team {
        RequestStep::LimitReached
    } else {
        RequestStep::Provision
    }
}

/// The refusal of a team at its cap.
pub open spec fn limit_message(active: nat, max_per_team: nat) -> Seq<char> {
    "Instance limit reached: your team already has "@ + dec(active) + " active instance(s) (max "@
        + dec(max_per_team) + ")"@
}

/// The message refusing a team with `active` instances at a cap of
/// `max_per_team`.
pub fn limit_reached_message(active: u64, max_per_team: u64) -> (r: String)
    ensures
        r@ == limit_message(active as nat, max_per_team as nat),
{
    let mut out = String::from_str("Instance limit reached: your team already has ");
    push_decimal(&mut out, active);
    out.append(" active instance(s) (max ");
    push_decimal(&mut out, max_per_team);
    out.append(")");
    out
}

/// A team never gets a second instance of a challenge while one is running
/// or being provisioned, nor any instance beyond its cap, nor (through the
/// plugin) one of a challenge it has solved.
pub proof fn law_one_instance_per_team(
    requester: Requester,
    solved: bool,
    status: Option<Seq<char>>,
    registered: bool,
    max_per_team: u64,
    active: u64,
)
    ensures
        request_step_of(requester, solved, status, registered, max_per_team, active) is Provision ==> {
            &&& status != Some("running"@)
            &&& status != Some("provisioning"@)
            &&& registered
            &&& (max_per_team == 0 || active < max_per_team)
            &&& !(requester is Plugin && solved)
        },
{
}

} // verus!
