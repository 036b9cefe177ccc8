//! Tailscale: the state the bar shows, assembled from the LocalAPI replies,
//! and the preference updates it sends.

use crate::text::{before_char, before_first, occurs_in, push_str, str_contains, str_eq};
use vstd::prelude::*;

verus! {

/// A Tailscale profile (account/identity).
pub struct TailscaleProfile {
    pub id: String,
    pub name: String,
    pub is_current: bool,
}

impl TailscaleProfile {
    /// The user name only, without the domain after `@`.
    pub fn display_name(&self) -> (r: String)
        ensures
            r@ == before_char(self.name@, '@'),
    {
        before_first(self.name.as_str(), '@')
    }

    /// A copy of the profile.
    pub fn duplicate(&self) -> (r: TailscaleProfile)
        ensures
            r.id@ == self.id@,
            r.name@ == self.name@,
            r.is_current == self.is_current,
    {
        TailscaleProfile { id: self.id.clone(), name: self.name.clone(), is_current: self.is_current }
    }
}

/// Where an exit node stands.
pub struct ExitNodeLocation {
    pub country: Option<String>,
    pub country_code: Option<String>,
    pub city: Option<String>,
}

/// A peer that can be used as an exit node.
pub struct ExitNode {
    pub id: String,
    pub name: String,
    pub location: Option<ExitNodeLocation>,
    pub online: bool,
    pub is_mullvad: bool,
}

/// The group an exit node is listed under.
pub open spec fn country_of(n: ExitNode) -> Seq<char> {
    match n.location {
        Some(l) => match l.country {
            Some(c) => c@,
            None => "Your Network"@,
        },
        None => "Your Network"@,
    }
}

/// The label of an exit node: "city (name)" when its city is known.
pub open spec fn exit_label(n: ExitNode) -> Seq<char> {
    match n.location {
        Some(l) => match l.city {
            Some(c) => c@ + " ("@ + n.name@ + ")"@,
            None => n.name@,
        },
        None => n.name@,
    }
}

impl ExitNode {
    /// The country name the node is grouped under.
    pub fn country(&self) -> (r: String)
        ensures
            r@ == country_of(*self),
    {
        match &self.location {
            Some(l) => match &l.country {
                Some(c) => c.clone(),
                None => "Your Network".to_owned(),
            },
            None => "Your Network".to_owned(),
        }
    }

    /// City and name, or just the name.
    pub fn display_name(&self) -> (r: String)
        ensures
            r@ == exit_label(*self),
    {
        if let Some(loc) = &self.location {
            if let Some(city) = &loc.city {
                let mut s = city.clone();
                push_str(&mut s, " (");
                push_str(&mut s, self.name.as_str());
                push_str(&mut s, ")");
                return s;
            }
        }
        self.name.clone()
    }
}

/// The current Tailscale state for the network service.
pub struct TailscaleState {
    pub available: bool,
    pub is_running: bool,
    pub current_profile: Option<TailscaleProfile>,
    pub profiles: Vec<TailscaleProfile>,
    pub exit_nodes: Vec<ExitNode>,
    pub current_exit_node_id: Option<String>,
    pub allow_lan: bool,
}

/// The client of the daemon's LocalAPI.
pub struct TailscaleBackend;

/// A profile as the LocalAPI lists it.
pub struct ApiProfile {
    pub id: String,
    pub name: String,
}

/// Marks the profile whose id is the current one.
pub fn mark_current(api: &Vec<ApiProfile>, current_id: &Option<String>) -> (r: Vec<TailscaleProfile>)
    ensures
        r@.len() == api@.len(),
        forall|i: int|
            0 <= i < r@.len() ==> {
                &&& (#[trigger] r@[i]).id@ == api@[i].id@
                &&& r@[i].name@ == api@[i].name@
                &&& r@[i].is_current == (match current_id {
                    Some(c) => c@ == api@[i].id@,
                    None => false,
                })
            },
{
    let mut r: Vec<TailscaleProfile> = Vec::new();
    let mut i: usize = 0;
    while i < api.len()
        invariant
            i <= api@.len(),
            r@.len() == i,
            forall|j: int|
                0 <= j < i ==> {
                    &&& (#[trigger] r@[j]).id@ == api@[j].id@
                    &&& r@[j].name@ == api@[j].name@
                    &&& r@[j].is_current == (match current_id {
                        Some(c) => c@ == api@[j].id@,
                        None => false,
                    })
                },
        decreases api@.len() - i,
    {
        let is_current = match current_id {
            Some(c) => str_eq(c.as_str(), api[i].id.as_str()),
            None => false,
        };
        r.push(
            TailscaleProfile {
                id: api[i].id.clone(),
                name: api[i].name.clone(),
                is_current,
            },
        );
        i = i + 1;
    }
    r
}

/// A peer of the status reply, with what makes it an exit node.
pub struct PeerInfo {
    pub id: String,
    pub dns_name: String,
    pub host_name: Option<String>,
    pub location: Option<ExitNodeLocation>,
    pub online: bool,
    pub exit_node_option: bool,
}

/// The exit node a peer offers: named by its host name, else its DNS
/// name; Mullvad nodes live under `.mullvad.ts.net`.
pub open spec fn exit_node_of(n: ExitNode, p: PeerInfo) -> bool {
    &&& n.id@ == p.id@
    &&& n.name@ == (match p.host_name {
        Some(h) => h@,
        None => p.dns_name@,
    })
    &&& n.is_mullvad == occurs_in(".mullvad.ts.net"@, p.dns_name@)
    &&& n.online == p.online
    &&& n.location == p.location
}

/// The peers that offer themselves as exit nodes.
pub open spec fn offering(peers: Seq<PeerInfo>) -> Seq<PeerInfo> {
    peers.filter(|p: PeerInfo| p.exit_node_option)
}

/// The exit nodes among the peers, in order.
pub fn exit_nodes_from_peers(peers: Vec<PeerInfo>) -> (r: Vec<ExitNode>)
    ensures
        r@.len() == offering(peers@).len(),
        forall|i: int| 0 <= i < r@.len() ==> exit_node_of(#[trigger] r@[i], offering(peers@)[i]),
{
    let ghost all = peers@;
    let mut r: Vec<ExitNode> = Vec::new();
    let mut rest = peers;
    let mut taken: Vec<PeerInfo> = Vec::new();
    let ghost mut done: Seq<PeerInfo> = Seq::empty();
    // Walk the peers from the front by reversing them once.
    let mut reversed: Vec<PeerInfo> = Vec::new();
    while rest.len() > 0
        invariant
            all == rest@ + reversed@.reverse(),
        decreases rest@.len(),
    {
        let p = rest.pop().unwrap();
        let ghost before = reversed@;
        reversed.push(p);
        assert(reversed@.reverse() =~= seq![p] + before.reverse());
        assert(all =~= rest@ + reversed@.reverse());
    }
    assert(all =~= reversed@.reverse());
    let ghost n = all.len();
    while reversed.len() > 0
        invariant
            all == done + reversed@.reverse(),
            r@.len() == offering(done).len(),
            forall|i: int| 0 <= i < r@.len() ==> exit_node_of(#[trigger] r@[i], offering(done)[i]),
        decreases reversed@.len(),
    {
        let p = reversed.pop().unwrap();
        let ghost before_done = done;
        proof {
            done = done.push(p);
            assert(offering(done) =~= if p.exit_node_option {
                offering(before_done).push(p)
            } else {
                offering(before_done)
            }) by {
                before_done.lemma_filter_push(p, |q: PeerInfo| q.exit_node_option);
            }
        }
        if p.exit_node_option {
            let name = match &p.host_name {
                Some(h) => h.clone(),
                None => p.dns_name.clone(),
            };
            let is_mullvad = str_contains(p.dns_name.as_str(), ".mullvad.ts.net");
            let node = ExitNode {
                id: p.id,
                name,
                location: p.location,
                online: p.online,
                is_mullvad,
            };
            r.push(node);
        }
    }
    assert(done =~= all);
    r
}

/// The whole state from the replies: running when the backend says
/// "Running", the current profile is the first one marked current, and an
/// empty exit node id means none.
pub fn assemble_state(
    backend_state: &str,
    profiles: Vec<TailscaleProfile>,
    exit_nodes: Vec<ExitNode>,
    exit_node_id: Option<String>,
    allow_lan: bool,
) -> (r: TailscaleState)
    ensures
        r.available,
        r.is_running == (backend_state@ == "Running"@),
        r.profiles@ == profiles@,
        r.exit_nodes@ == exit_nodes@,
        r.allow_lan == allow_lan,
        match r.current_profile {
            Some(c) => exists|i: int|
                0 <= i < profiles@.len() && profiles@[i].is_current && (forall|j: int|
                    0 <= j < i ==> !(#[trigger] profiles@[j]).is_current) && c.id@ == profiles@[i].id@
                    && c.name@ == profiles@[i].name@ && c.is_current,
            None => forall|j: int| 0 <= j < profiles@.len() ==> !(#[trigger] profiles@[j]).is_current,
        },
        match r.current_exit_node_id {
            Some(id) => exit_node_id matches Some(e) && e@ == id@ && id@.len() > 0,
            None => exit_node_id matches Some(e) ==> e@.len() == 0,
        },
{
    let mut current: Option<TailscaleProfile> = None;
    let mut i: usize = 0;
    while i < profiles.len()
        invariant_except_break
            current is None,
        invariant
            i <= profiles@.len(),
            forall|j: int| 0 <= j < i ==> !(#[trigger] profiles@[j]).is_current,
        ensures
            i <= profiles@.len(),
            forall|j: int| 0 <= j < i ==> !(#[trigger] profiles@[j]).is_current,
            match current {
                Some(c) => i < profiles@.len() && profiles@[i as int].is_current && c.id@
                    == profiles@[i as int].id@ && c.name@ == profiles@[i as int].name@
                    && c.is_current,
                None => i == profiles@.len(),
            },
        decreases profiles@.len() - i,
    {
        if profiles[i].is_current {
            current = Some(profiles[i].duplicate());
            break;
        }
        i = i + 1;
    }
    let current_exit_node_id = match exit_node_id {
        Some(id) => if id.as_str().unicode_len() > 0 {
            Some(id)
        } else {
            None
        },
        None => None,
    };
    TailscaleState {
        available: true,
        is_running: str_eq(backend_state, "Running"),
        current_profile: current,
        profiles,
        exit_nodes,
        current_exit_node_id,
        allow_lan,
    }
}

/// The preferences a request changes; fields left `None` are not sent.
pub struct PrefsUpdate {
    pub exit_node_id_set: Option<bool>,
    pub exit_node_id: Option<String>,
    pub exit_node_allow_lan_access_set: Option<bool>,
    pub exit_node_allow_lan_access: Option<bool>,
    pub want_running_set: Option<bool>,
    pub want_running: Option<bool>,
}

impl PrefsUpdate {
    /// `tailscale up` or `down`: wants the daemon running or not.
    pub fn running(want: bool) -> (r: PrefsUpdate)
        ensures
            r.want_running_set == Some(true),
            r.want_running == Some(want),
            r.exit_node_id_set is None && r.exit_node_id is None,
            r.exit_node_allow_lan_access_set is None && r.exit_node_allow_lan_access is None,
    {
        PrefsUpdate {
            exit_node_id_set: None,
            exit_node_id: None,
            exit_node_allow_lan_access_set: None,
            exit_node_allow_lan_access: None,
            want_running_set: Some(true),
            want_running: Some(want),
        }
    }

    /// Routes through an exit node, or none for an empty id.
    pub fn exit_node(node_id: Option<&str>) -> (r: PrefsUpdate)
        ensures
            r.exit_node_id_set == Some(true),
            r.exit_node_id matches Some(id) && id@ == (match node_id {
                Some(n) => n@,
                None => Seq::<char>::empty(),
            }),
            r.exit_node_allow_lan_access_set is None && r.exit_node_allow_lan_access is None,
            r.want_running_set is None && r.want_running is None,
    {
        PrefsUpdate {
            exit_node_id_set: Some(true),
            exit_node_id: Some(
                match node_id {
                    Some(n) => n.to_owned(),
                    None => String::new(),
                },
            ),
            exit_node_allow_lan_access_set: None,
            exit_node_allow_lan_access: None,
            want_running_set: None,
            want_running: None,
        }
    }

    /// Lets the LAN bypass the exit node, or not.
    pub fn allow_lan(allow: bool) -> (r: PrefsUpdate)
        ensures
            r.exit_node_allow_lan_access_set == Some(true),
            r.exit_node_allow_lan_access == Some(allow),
            r.exit_node_id_set is None && r.exit_node_id is None,
            r.want_running_set is None && r.want_running is None,
    {
        PrefsUpdate {
            exit_node_id_set: None,
            exit_node_id: None,
            exit_node_allow_lan_access_set: Some(true),
            exit_node_allow_lan_access: Some(allow),
            want_running_set: None,
            want_running: None,
        }
    }
}

/// The LocalAPI endpoint that switches to a profile.
pub fn profile_endpoint(profile_id: &str) -> (r: String)
    ensures
        r@ == "/localapi/v0/profiles/"@ + profile_id@,
{
    let mut s = "/localapi/v0/profiles/".to_owned();
    push_str(&mut s, profile_id);
    s
}

} // verus!
