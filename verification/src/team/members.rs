//! Who is in a team: joining, the roster, and finding each other.
use vstd::prelude::*;
use vstd::utf8::*;
use crate::bytes::slice_text;
use crate::json::{optional, Json, JsonModel};
use crate::text::{cat2, cat3, same_text, texts, trim, trim_text};
use crate::text_order::{
    comes_before, text_before, text_order_is_total, text_order_is_transitive,
};

verus! {

/// Who this machine is in its team.
pub struct TeamIdentity {
    pub team_id: String,
    pub team_name: String,
    pub team_secret: String,
    pub member_id: String,
    pub my_name: String,
    pub role: String,
    pub pairing_code: Option<String>,
}

/// One member. `view` lists whose cases the member may see; nothing means all.
pub struct RosterMember {
    pub member_id: String,
    pub name: String,
    pub role: String,
    pub view: Option<Vec<String>>,
    pub edit: Vec<String>,
}

/// All members. A roster with a higher number replaces one with a lower.
pub struct Roster {
    pub team_id: String,
    pub team_name: String,
    pub seq: i64,
    pub updated_at: String,
    pub members: Vec<RosterMember>,
}

/// A roster and what proves that the leader made it.
pub struct SignedRoster {
    pub roster_json: String,
    pub signature: String,
}

/// What a machine asks for that wants to join.
pub struct JoinRequest {
    pub team_id: String,
    pub code: String,
    pub member_id: String,
    pub name: String,
}

/// What a machine is given that joins.
pub struct JoinResponse {
    pub team_secret: String,
    pub roster: SignedRoster,
}

/// What a round of exchanges came to.
pub struct SyncReport {
    pub peers_found: usize,
    pub peers_synced: usize,
    pub snapshots_merged: usize,
    pub errors: Vec<String>,
}

/// A team on the local network.
pub struct DiscoveredTeam {
    pub team_id: String,
    pub team_name: String,
    pub leader_online: bool,
    pub online_members: usize,
}

/// A machine on the local network.
pub struct PeerAddr {
    pub member_id: String,
    pub role: String,
    pub team_id: String,
    pub team_name: String,
    pub ip: String,
    pub port: u16,
}

/// What is answered to a request that is refused.
pub struct Refusal {
    pub status: u16,
    pub body: String,
}

/// What is answered to a request that is refused, as data.
pub struct RefusalModel {
    pub status: u16,
    pub body: Seq<char>,
}

impl View for Refusal {
    type V = RefusalModel;

    open spec fn view(&self) -> RefusalModel {
        RefusalModel { status: self.status, body: self.body@ }
    }
}

pub open spec fn refusing(status: u16, body: Seq<char>) -> Option<RefusalModel> {
    Some(RefusalModel { status, body })
}

fn refuse(status: u16, body: &str) -> (r: Refusal)
    ensures
        Some(r@) == refusing(status, body@),
{
    Refusal { status, body: String::from_str(body) }
}

/// What is answered to an exchange that is refused, if it is: by a machine
/// without settings or team, to a body that was not made with the secret of the
/// team, that cannot be read, or that is of another team.
pub open spec fn exchange_refusal(
    settings_ok: bool,
    my_team: Option<Seq<char>>,
    claimed: Seq<char>,
    computed: Seq<char>,
    body_team: Option<Seq<char>>,
) -> Option<RefusalModel> {
    if !settings_ok {
        refusing(403, "{\"error\":\"no settings\"}"@)
    } else {
        match my_team {
            None => refusing(403, "{\"error\":\"not in team\"}"@),
            Some(team) => if computed != claimed {
                refusing(403, "{\"error\":\"auth failed\"}"@)
            } else {
                match body_team {
                    None => refusing(400, "{\"error\":\"bad body\"}"@),
                    Some(t) => if t != team {
                        refusing(403, "{\"error\":\"team mismatch\"}"@)
                    } else {
                        None
                    },
                }
            },
        }
    }
}

/// Checks an exchange. `computed` is what the secret of the team gives for the
/// body, `claimed` what came with it.
pub fn check_exchange(
    settings_ok: bool,
    my_team: &Option<String>,
    claimed: &str,
    computed: &str,
    body_team: &Option<String>,
) -> (r: Result<(), Refusal>)
    ensures
        match exchange_refusal(
            settings_ok,
            optional(*my_team),
            claimed@,
            computed@,
            optional(*body_team),
        ) {
            Some(x) => r matches Err(e) && e@ == x,
            None => r is Ok,
        },
{
    if !settings_ok {
        return Err(refuse(403, "{\"error\":\"no settings\"}"));
    }
    let team = match my_team {
        Some(t) => t,
        None => {
            return Err(refuse(403, "{\"error\":\"not in team\"}"));
        },
    };
    if !same_text(computed, claimed) {
        return Err(refuse(403, "{\"error\":\"auth failed\"}"));
    }
    match body_team {
        None => Err(refuse(400, "{\"error\":\"bad body\"}")),
        Some(t) => if same_text(t.as_str(), team.as_str()) {
            Ok(())
        } else {
            Err(refuse(403, "{\"error\":\"team mismatch\"}"))
        },
    }
}

/// Nothing is exchanged with a machine that does not have the secret of the
/// team.
pub proof fn strangers_are_refused(
    settings_ok: bool,
    my_team: Option<Seq<char>>,
    claimed: Seq<char>,
    computed: Seq<char>,
    body_team: Option<Seq<char>>,
)
    requires
        claimed != computed,
    ensures
        exchange_refusal(settings_ok, my_team, claimed, computed, body_team) matches Some(r)
            && r.status == 403,
{
}

/// What is answered to a machine that may not join, if it may not: the leader
/// alone can let it in, for the team and with the code that the leader has.
pub open spec fn join_refusal(
    settings_ok: bool,
    identity: Option<TeamIdentity>,
    join: Option<JoinRequest>,
) -> Option<RefusalModel> {
    if !settings_ok {
        refusing(403, "{\"error\":\"no settings\"}"@)
    } else {
        match identity {
            None => refusing(403, "{\"error\":\"not in team\"}"@),
            Some(me) => if me.role@ != "leader"@ {
                refusing(404, "{\"error\":\"仅团队长可批准入队,请联系团队长\"}"@)
            } else {
                match join {
                    None => refusing(400, "{\"error\":\"bad body\"}"@),
                    Some(j) => if j.team_id@ != me.team_id@ {
                        refusing(403, "{\"error\":\"team mismatch\"}"@)
                    } else if optional(me.pairing_code) != Some(trim(j.code@)) {
                        refusing(403, "{\"error\":\"配对码不正确\"}"@)
                    } else {
                        None
                    },
                }
            },
        }
    }
}

/// Checks whether a machine may join.
pub fn check_join(
    settings_ok: bool,
    identity: &Option<TeamIdentity>,
    join: &Option<JoinRequest>,
) -> (r: Result<(), Refusal>)
    ensures
        match join_refusal(settings_ok, *identity, *join) {
            Some(x) => r matches Err(e) && e@ == x,
            None => r is Ok,
        },
{
    if !settings_ok {
        return Err(refuse(403, "{\"error\":\"no settings\"}"));
    }
    let me = match identity {
        Some(m) => m,
        None => {
            return Err(refuse(403, "{\"error\":\"not in team\"}"));
        },
    };
    if !me.is_leader() {
        return Err(refuse(404, "{\"error\":\"仅团队长可批准入队,请联系团队长\"}"));
    }
    let j = match join {
        Some(j) => j,
        None => {
            return Err(refuse(400, "{\"error\":\"bad body\"}"));
        },
    };
    if !same_text(j.team_id.as_str(), me.team_id.as_str()) {
        return Err(refuse(403, "{\"error\":\"team mismatch\"}"));
    }
    let code = trim_text(j.code.as_str());
    let code_ok = match &me.pairing_code {
        Some(c) => same_text(c.as_str(), code.as_str()),
        None => false,
    };
    if code_ok {
        Ok(())
    } else {
        Err(refuse(403, "{\"error\":\"配对码不正确\"}"))
    }
}

/// A machine is let in only by the leader, only into the leader's own team, and
/// only with the code that the leader has.
pub proof fn joining_needs_leader_and_code(
    settings_ok: bool,
    identity: Option<TeamIdentity>,
    join: Option<JoinRequest>,
)
    requires
        join_refusal(settings_ok, identity, join) is None,
    ensures
        settings_ok,
        identity matches Some(me) && join matches Some(j) && me.role@ == "leader"@ && j.team_id@
            == me.team_id@ && (me.pairing_code matches Some(c) && c@ == trim(j.code@)),
{
}

impl TeamIdentity {
    /// Whether this machine leads its team.
    pub fn is_leader(&self) -> (r: bool)
        ensures
            r == (self.role@ == "leader"@),
    {
        same_text(self.role.as_str(), "leader")
    }
}

/// A member as data.
pub struct MemberModel {
    pub member_id: Seq<char>,
    pub name: Seq<char>,
    pub role: Seq<char>,
    pub sees_all: bool,
    pub view: Seq<Seq<char>>,
    pub edit: Seq<Seq<char>>,
}

impl View for RosterMember {
    type V = MemberModel;

    open spec fn view(&self) -> MemberModel {
        MemberModel {
            member_id: self.member_id@,
            name: self.name@,
            role: self.role@,
            sees_all: self.view is None,
            view: match self.view {
                Some(v) => texts(v@),
                None => Seq::empty(),
            },
            edit: texts(self.edit@),
        }
    }
}

pub open spec fn members_model(v: Seq<RosterMember>) -> Seq<MemberModel> {
    Seq::new(v.len(), |i: int| v[i]@)
}

/// The number of the first member with an id; the number of members if there is
/// none.
pub open spec fn member_at(members: Seq<MemberModel>, id: Seq<char>, k: int) -> int
    decreases members.len() - k,
{
    if k >= members.len() || members[k].member_id == id {
        k
    } else {
        member_at(members, id, k + 1)
    }
}

/// The members with one more, who sees everyone's cases and edits none; or with
/// a new name for one who is there.
pub open spec fn admitted(members: Seq<MemberModel>, id: Seq<char>, name: Seq<char>) -> Seq<
    MemberModel,
> {
    let k = member_at(members, id, 0);
    if k < members.len() {
        members.update(k, MemberModel { name, ..members[k] })
    } else {
        members.push(
            MemberModel {
                member_id: id,
                name,
                role: "member"@,
                sees_all: true,
                view: Seq::empty(),
                edit: Seq::empty(),
            },
        )
    }
}

proof fn lemma_member_at(members: Seq<MemberModel>, id: Seq<char>, k: int)
    requires
        0 <= k <= members.len(),
    ensures
        k <= member_at(members, id, k) <= members.len(),
        member_at(members, id, k) < members.len() ==> members[member_at(
            members,
            id,
            k,
        )].member_id == id,
        forall|i: int|
            k <= i < member_at(members, id, k) ==> (#[trigger] members[i]).member_id != id,
    decreases members.len() - k,
{
    if k < members.len() && members[k].member_id != id {
        lemma_member_at(members, id, k + 1);
    }
}

/// Letting someone in changes nobody else, gives no right to edit, and leaves
/// that member on the roster.
pub proof fn admission_touches_one(members: Seq<MemberModel>, id: Seq<char>, name: Seq<char>)
    ensures
        ({
            let k = member_at(members, id, 0);
            let after = admitted(members, id, name);
            &&& k < after.len() && after[k].member_id == id && after[k].name == name
            &&& forall|i: int|
                0 <= i < members.len() && i != k ==> #[trigger] after[i] == members[i]
            &&& k == members.len() ==> after[k].edit.len() == 0 && after[k].role == "member"@
            &&& k < members.len() ==> after[k].edit == members[k].edit && after[k].role
                == members[k].role
        }),
{
    lemma_member_at(members, id, 0);
}

impl Roster {
    /// The number of the member with an id.
    pub fn find(&self, id: &str) -> (r: Option<usize>)
        ensures
            ({
                let k = member_at(members_model(self.members@), id@, 0);
                match r {
                    Some(i) => i == k && i < self.members@.len(),
                    None => k == self.members@.len(),
                }
            }),
    {
        let n: usize = self.members.len();
        let ghost all = members_model(self.members@);
        let mut k: usize = 0;
        proof {
            lemma_member_at(all, id@, 0);
        }
        while k < n
            invariant
                k <= n,
                n == self.members@.len(),
                all == members_model(self.members@),
                member_at(all, id@, 0) == member_at(all, id@, k as int),
            decreases n - k,
        {
            assert(all[k as int].member_id == self.members@[k as int].member_id@);
            if same_text(self.members[k].member_id.as_str(), id) {
                return Some(k);
            }
            k = k + 1;
        }
        None
    }

    /// Lets someone in, or gives a new name to one who is there.
    pub fn welcome(&mut self, id: &str, name: &str)
        ensures
            members_model(final(self).members@) == admitted(
                members_model(old(self).members@),
                id@,
                name@,
            ),
            final(self).team_id == old(self).team_id,
            final(self).team_name == old(self).team_name,
            final(self).seq == old(self).seq,
            final(self).updated_at == old(self).updated_at,
    {
        let ghost before = members_model(self.members@);
        match self.find(id) {
            Some(k) => {
                let ghost one = self.members@[k as int];
                let mut rest = self.members.split_off(k);
                let ghost tail = rest@;
                let old_member = rest.remove(0);
                let renamed = RosterMember { name: String::from_str(name), ..old_member };
                self.members.push(renamed);
                self.members.append(&mut rest);
                assert(members_model(self.members@) =~= before.update(
                    k as int,
                    MemberModel { name: name@, ..before[k as int] },
                ));
            },
            None => {
                let m = RosterMember {
                    member_id: String::from_str(id),
                    name: String::from_str(name),
                    role: String::from_str("member"),
                    view: None,
                    edit: Vec::new(),
                };
                assert(m@.view =~= Seq::empty());
                assert(m@.edit =~= Seq::empty());
                self.members.push(m);
                assert(members_model(self.members@) =~= before.push(m@));
            },
        }
    }

    /// Gives the roster its next number.
    pub fn advance(&mut self, now: &str)
        requires
            old(self).seq < i64::MAX,
        ensures
            final(self).seq == old(self).seq + 1,
            final(self).updated_at@ == now@,
            final(self).members == old(self).members,
            final(self).team_id == old(self).team_id,
            final(self).team_name == old(self).team_name,
    {
        self.seq = self.seq + 1;
        self.updated_at = String::from_str(now);
    }
}

/// Checks that this machine may change the roster.
pub fn check_leader(identity: &TeamIdentity) -> (r: Result<(), String>)
    ensures
        identity.role@ == "leader"@ ==> r is Ok,
        identity.role@ != "leader"@ ==> (r matches Err(e) && e@ == "仅团队长可修改成员与权限"@),
{
    if identity.is_leader() {
        Ok(())
    } else {
        Err(String::from_str("仅团队长可修改成员与权限"))
    }
}

/// What to do about a roster from another machine.
#[derive(Clone, Copy, Debug, PartialEq, Eq, Structural)]
pub enum RosterVerdict {
    Keep,
    /// Take it; `removed` if this machine is not on it.
    Take { removed: bool },
}

/// A roster is taken if the leader made it and its number is higher than that
/// of the one here. `remote_seq` is nothing if the leader did not make it,
/// `local_seq` if there is none here or it cannot be trusted.
pub fn judge_roster(remote_seq: Option<i64>, local_seq: Option<i64>, listed: bool) -> (r:
    RosterVerdict)
    ensures
        r == (match remote_seq {
            None => RosterVerdict::Keep,
            Some(n) => if n > (match local_seq {
                Some(l) => l,
                None => -1i64,
            }) {
                RosterVerdict::Take { removed: !listed }
            } else {
                RosterVerdict::Keep
            },
        }),
{
    let here: i64 = match local_seq {
        Some(l) => l,
        None => -1,
    };
    match remote_seq {
        None => RosterVerdict::Keep,
        Some(n) => if n > here {
            RosterVerdict::Take { removed: !listed }
        } else {
            RosterVerdict::Keep
        },
    }
}

/// A machine as data.
pub struct PeerModel {
    pub member_id: Seq<char>,
    pub role: Seq<char>,
    pub team_id: Seq<char>,
    pub team_name: Seq<char>,
    pub ip: Seq<char>,
    pub port: u16,
}

impl View for PeerAddr {
    type V = PeerModel;

    open spec fn view(&self) -> PeerModel {
        PeerModel {
            member_id: self.member_id@,
            role: self.role@,
            team_id: self.team_id@,
            team_name: self.team_name@,
            ip: self.ip@,
            port: self.port,
        }
    }
}

pub open spec fn peers_model(v: Seq<PeerAddr>) -> Seq<PeerModel> {
    Seq::new(v.len(), |i: int| v[i]@)
}

/// The machines with one more, unless it has no team or its member is known.
pub open spec fn with_peer(peers: Seq<PeerModel>, peer: PeerModel) -> Seq<PeerModel> {
    if peer.team_id.len() == 0 || exists|i: int|
        0 <= i < peers.len() && (#[trigger] peers[i]).member_id == peer.member_id {
        peers
    } else {
        peers.push(peer)
    }
}

/// Takes note of a machine, unless it has no team or its member is known.
pub fn note_peer(peers: &mut Vec<PeerAddr>, peer: PeerAddr)
    ensures
        peers_model(final(peers)@) == with_peer(peers_model(old(peers)@), peer@),
{
    let ghost before = peers_model(peers@);
    if peer.team_id.as_str().unicode_len() == 0 {
        return;
    }
    let mut i: usize = 0;
    while i < peers.len()
        invariant
            i <= peers@.len(),
            peers_model(peers@) == before,
            *peers == *old(peers),
            peer@.team_id.len() > 0,
            forall|k: int| 0 <= k < i ==> (#[trigger] before[k]).member_id != peer@.member_id,
        decreases peers@.len() - i,
    {
        assert(before[i as int].member_id == peers@[i as int].member_id@);
        if same_text(peers[i].member_id.as_str(), peer.member_id.as_str()) {
            return;
        }
        i = i + 1;
    }
    peers.push(peer);
    assert(peers_model(peers@) =~= before.push(peer@));
}

/// Whether a machine is of the same team and not this one.
pub fn is_teammate(peer: &PeerAddr, identity: &TeamIdentity) -> (r: bool)
    ensures
        r == (peer.team_id@ == identity.team_id@ && peer.member_id@ != identity.member_id@),
{
    same_text(peer.team_id.as_str(), identity.team_id.as_str()) && !same_text(
        peer.member_id.as_str(),
        identity.member_id.as_str(),
    )
}

impl SyncReport {
    /// A round that found so many machines.
    pub fn begin(peers_found: usize) -> (r: Self)
        ensures
            r.peers_found == peers_found,
            r.peers_synced == 0,
            r.snapshots_merged == 0,
            r.errors@.len() == 0,
    {
        SyncReport { peers_found, peers_synced: 0, snapshots_merged: 0, errors: Vec::new() }
    }

    /// Takes what the exchange with one machine came to.
    pub fn take(&mut self, member_id: &str, outcome: Result<usize, String>)
        requires
            old(self).peers_synced < usize::MAX,
            outcome matches Ok(n) ==> old(self).snapshots_merged + n <= usize::MAX,
        ensures
            final(self).peers_found == old(self).peers_found,
            match outcome {
                Ok(n) => final(self).peers_synced == old(self).peers_synced + 1
                    && final(self).snapshots_merged == old(self).snapshots_merged + n
                    && final(self).errors == old(self).errors,
                Err(e) => final(self).peers_synced == old(self).peers_synced
                    && final(self).snapshots_merged == old(self).snapshots_merged && texts(
                    final(self).errors@,
                ) == texts(old(self).errors@).push(member_id@ + ": "@ + e@),
            },
    {
        match outcome {
            Ok(n) => {
                self.peers_synced = self.peers_synced + 1;
                self.snapshots_merged = self.snapshots_merged + n;
            },
            Err(e) => {
                let ghost before = texts(self.errors@);
                self.errors.push(cat3(member_id, ": ", e.as_str()));
                assert(texts(self.errors@) =~= before.push(member_id@ + ": "@ + e@));
            },
        }
    }
}

/// A team as data.
pub struct TeamModel {
    pub team_id: Seq<char>,
    pub team_name: Seq<char>,
    pub leader_online: bool,
    pub online_members: nat,
}

impl View for DiscoveredTeam {
    type V = TeamModel;

    open spec fn view(&self) -> TeamModel {
        TeamModel {
            team_id: self.team_id@,
            team_name: self.team_name@,
            leader_online: self.leader_online,
            online_members: self.online_members as nat,
        }
    }
}

pub open spec fn teams_model(v: Seq<DiscoveredTeam>) -> Seq<TeamModel> {
    Seq::new(v.len(), |i: int| v[i]@)
}

/// The number of the first team with an id; the number of teams if there is
/// none.
pub open spec fn team_at(teams: Seq<TeamModel>, id: Seq<char>, k: int) -> int
    decreases teams.len() - k,
{
    if k >= teams.len() || teams[k].team_id == id {
        k
    } else {
        team_at(teams, id, k + 1)
    }
}

/// The teams of some machines, in the order in which they were met.
pub open spec fn teams_of(peers: Seq<PeerModel>) -> Seq<TeamModel>
    decreases peers.len(),
{
    if peers.len() == 0 {
        Seq::empty()
    } else {
        let teams = teams_of(peers.drop_last());
        let p = peers.last();
        let k = team_at(teams, p.team_id, 0);
        if k < teams.len() {
            teams.update(
                k,
                TeamModel {
                    leader_online: teams[k].leader_online || p.role == "leader"@,
                    online_members: teams[k].online_members + 1,
                    ..teams[k]
                },
            )
        } else {
            teams.push(
                TeamModel {
                    team_id: p.team_id,
                    team_name: p.team_name,
                    leader_online: p.role == "leader"@,
                    online_members: 1,
                },
            )
        }
    }
}

/// The teams in the order of their names.
pub open spec fn by_name(teams: Seq<TeamModel>) -> Seq<TeamModel>
    decreases teams.len(),
{
    if teams.len() == 0 {
        Seq::empty()
    } else {
        let sorted = by_name(teams.drop_last());
        sorted.insert(name_slot(sorted, teams.last().team_name, 0), teams.last())
    }
}

/// The first place at or behind `p` whose name comes after another.
pub open spec fn name_slot(teams: Seq<TeamModel>, name: Seq<char>, p: int) -> int
    decreases teams.len() - p,
{
    if p >= teams.len() || text_before(name, teams[p].team_name) {
        p
    } else {
        name_slot(teams, name, p + 1)
    }
}

fn find_team(teams: &Vec<DiscoveredTeam>, id: &str) -> (r: usize)
    ensures
        r == team_at(teams_model(teams@), id@, 0),
        r <= teams@.len(),
{
    let n: usize = teams.len();
    let ghost all = teams_model(teams@);
    let mut k: usize = 0;
    while k < n && !same_text(teams[k].team_id.as_str(), id)
        invariant
            k <= n,
            n == teams@.len(),
            all == teams_model(teams@),
            team_at(all, id@, 0) == team_at(all, id@, k as int),
        decreases n - k,
    {
        assert(all[k as int].team_id == teams@[k as int].team_id@);
        k = k + 1;
    }
    proof {
        if k < n {
            assert(all[k as int].team_id == teams@[k as int].team_id@);
        }
    }
    k
}

proof fn lemma_team_at(teams: Seq<TeamModel>, id: Seq<char>, k: int)
    requires
        0 <= k <= teams.len(),
    ensures
        k <= team_at(teams, id, k) <= teams.len(),
    decreases teams.len() - k,
{
    if k < teams.len() && teams[k].team_id != id {
        lemma_team_at(teams, id, k + 1);
    }
}

proof fn lemma_members_bound(peers: Seq<PeerModel>, k: int)
    requires
        0 <= k < teams_of(peers).len(),
    ensures
        teams_of(peers)[k].online_members <= peers.len(),
        teams_of(peers).len() <= peers.len(),
    decreases peers.len(),
{
    if peers.len() > 0 {
        let teams = teams_of(peers.drop_last());
        lemma_team_at(teams, peers.last().team_id, 0);
        if teams.len() > 0 {
            if k < teams.len() {
                lemma_members_bound(peers.drop_last(), k);
            } else {
                lemma_members_bound(peers.drop_last(), 0);
            }
        }
    }
}

/// The teams of the machines that were found, each with how many of its members
/// are there and whether its leader is, in the order of their names.
pub fn discover_teams(peers: &Vec<PeerAddr>) -> (r: Vec<DiscoveredTeam>)
    ensures
        teams_model(r@) == by_name(teams_of(peers_model(peers@))),
{
    let ghost all = peers_model(peers@);
    let mut teams: Vec<DiscoveredTeam> = Vec::new();
    let n: usize = peers.len();
    let mut i: usize = 0;
    assert(teams_model(teams@) =~= teams_of(all.subrange(0, 0)));
    while i < n
        invariant
            i <= n,
            n == peers@.len(),
            all == peers_model(peers@),
            teams_model(teams@) == teams_of(all.subrange(0, i as int)),
        decreases n - i,
    {
        let ghost done = all.subrange(0, i as int);
        assert(all.subrange(0, i + 1).drop_last() =~= done);
        assert(all.subrange(0, i + 1).last() == peers@[i as int]@);
        let ghost before = teams_model(teams@);
        let p = &peers[i];
        let leads = same_text(p.role.as_str(), "leader");
        let k: usize = find_team(&teams, p.team_id.as_str());
        if k < teams.len() {
            proof {
                lemma_members_bound(done, k as int);
                assert(before[k as int].online_members == teams@[k as int].online_members);
            }
            let ghost one = teams@[k as int]@;
            let mut rest = teams.split_off(k);
            let t = rest.remove(0);
            let grown = DiscoveredTeam {
                leader_online: t.leader_online || leads,
                online_members: t.online_members + 1,
                ..t
            };
            teams.push(grown);
            teams.append(&mut rest);
            assert(teams_model(teams@) =~= before.update(k as int, grown@));
        } else {
            let fresh = DiscoveredTeam {
                team_id: p.team_id.clone(),
                team_name: p.team_name.clone(),
                leader_online: leads,
                online_members: 1,
            };
            teams.push(fresh);
            assert(teams_model(teams@) =~= before.push(fresh@));
        }
        i = i + 1;
    }
    assert(all.subrange(0, i as int) =~= all);
    sort_by_name(teams)
}

fn sort_by_name(teams: Vec<DiscoveredTeam>) -> (r: Vec<DiscoveredTeam>)
    ensures
        teams_model(r@) == by_name(teams_model(teams@)),
{
    let ghost all = teams_model(teams@);
    let mut rest = teams;
    let mut turned: Vec<DiscoveredTeam> = Vec::new();
    let ghost given = rest@;
    while rest.len() > 0
        invariant
            turned@.len() + rest@.len() == given.len(),
            forall|k: int| 0 <= k < rest@.len() ==> rest@[k] == given[k],
            forall|k: int| 0 <= k < turned@.len() ==> turned@[k] == given[given.len() - 1 - k],
        decreases rest@.len(),
    {
        let x = rest.pop().unwrap();
        turned.push(x);
    }
    let mut sorted: Vec<DiscoveredTeam> = Vec::new();
    let ghost mut done: int = 0;
    assert(teams_model(sorted@) =~= by_name(all.subrange(0, 0)));
    while turned.len() > 0
        invariant
            0 <= done <= given.len(),
            done + turned@.len() == given.len(),
            all == teams_model(given),
            forall|k: int| 0 <= k < turned@.len() ==> turned@[k] == given[given.len() - 1 - k],
            teams_model(sorted@) == by_name(all.subrange(0, done)),
        decreases turned@.len(),
    {
        let ghost o = teams_model(sorted@);
        assert(turned@.last() == given[done]);
        assert(all.subrange(0, done + 1).drop_last() =~= all.subrange(0, done));
        assert(all.subrange(0, done + 1).last() == given[done]@);
        let t = turned.pop().unwrap();
        let mut p: usize = 0;
        while p < sorted.len() && !comes_before(t.team_name.as_str(), sorted[p].team_name.as_str())
            invariant
                p <= sorted@.len(),
                o == teams_model(sorted@),
                name_slot(o, t.team_name@, 0) == name_slot(o, t.team_name@, p as int),
            decreases sorted@.len() - p,
        {
            assert(o[p as int].team_name == sorted@[p as int].team_name@);
            p = p + 1;
        }
        proof {
            if p < sorted@.len() {
                assert(o[p as int].team_name == sorted@[p as int].team_name@);
            }
        }
        sorted.insert(p, t);
        assert(teams_model(sorted@) =~= o.insert(p as int, t@));
        proof {
            done = done + 1;
        }
    }
    assert(all.subrange(0, done) =~= all);
    sorted
}

/// The number of the first machine at or behind `k` that leads a team.
pub open spec fn leader_at(peers: Seq<PeerModel>, team_id: Seq<char>, k: int) -> int
    decreases peers.len() - k,
{
    if k >= peers.len() || (peers[k].team_id == team_id && peers[k].role == "leader"@) {
        k
    } else {
        leader_at(peers, team_id, k + 1)
    }
}

/// The number of the machine that leads a team.
pub fn find_leader(peers: &Vec<PeerAddr>, team_id: &str) -> (r: Result<usize, String>)
    ensures
        ({
            let k = leader_at(peers_model(peers@), team_id@, 0);
            if k < peers@.len() {
                r matches Ok(i) && i == k
            } else {
                r matches Err(e) && e@
                    == "没找到团队长在线的实例 —— 入队需要团队长打开 App,请联系团队长后重试"@
            }
        }),
{
    let n: usize = peers.len();
    let ghost all = peers_model(peers@);
    let mut k: usize = 0;
    while k < n
        invariant
            k <= n,
            n == peers@.len(),
            all == peers_model(peers@),
            leader_at(all, team_id@, 0) == leader_at(all, team_id@, k as int),
        decreases n - k,
    {
        assert(all[k as int] == peers@[k as int]@);
        if same_text(peers[k].team_id.as_str(), team_id) && same_text(
            peers[k].role.as_str(),
            "leader",
        ) {
            return Ok(k);
        }
        k = k + 1;
    }
    Err(
        String::from_str(
            "没找到团队长在线的实例 —— 入队需要团队长打开 App,请联系团队长后重试",
        ),
    )
}

/// What a machine asks for that wants to join.
pub fn join_request(team_id: &str, code: &str, member_id: &str, name: &str) -> (r: JoinRequest)
    ensures
        r.team_id@ == team_id@,
        r.code@ == trim(code@),
        r.member_id@ == member_id@,
        r.name@ == trim(name@),
{
    JoinRequest {
        team_id: String::from_str(team_id),
        code: trim_text(code),
        member_id: String::from_str(member_id),
        name: trim_text(name),
    }
}

/// What is said of a refusal: what the leader's machine said, or the status.
pub open spec fn join_failure(reply: Option<JsonModel>, status: Seq<char>) -> Seq<char> {
    match reply {
        Some(v) => match v.text_member("error"@) {
            Some(m) => m,
            None => "HTTP "@ + status,
        },
        None => "HTTP "@ + status,
    }
}

/// What is said of a refusal, from the reply if it was JSON.
pub fn join_error(reply: &Option<Json>, status: &str) -> (r: String)
    ensures
        r@ == join_failure(
            match *reply {
                Some(j) => Some(j@),
                None => None,
            },
            status@,
        ),
{
    match reply {
        Some(j) => match j.get_text("error") {
            Some(m) => m.clone(),
            None => cat2("HTTP ", status),
        },
        None => cat2("HTTP ", status),
    }
}

/// Who a machine is that has joined: a member like any other, without a code of
/// its own.
pub fn joined_identity(
    roster: &Roster,
    team_secret: &str,
    member_id: &str,
    my_name: &str,
) -> (r: TeamIdentity)
    ensures
        r.team_id@ == roster.team_id@,
        r.team_name@ == roster.team_name@,
        r.team_secret@ == team_secret@,
        r.member_id@ == member_id@,
        r.my_name@ == trim(my_name@),
        r.role@ == "member"@,
        r.pairing_code is None,
{
    TeamIdentity {
        team_id: roster.team_id.clone(),
        team_name: roster.team_name.clone(),
        team_secret: String::from_str(team_secret),
        member_id: String::from_str(member_id),
        my_name: trim_text(my_name),
        role: String::from_str("member"),
        pairing_code: None,
    }
}

/// The end of the part of an identifier that names a machine: its first eight
/// bytes, or all if there are fewer.
pub open spec fn host_part(member_id: Seq<char>) -> int {
    if encode_utf8(member_id).len() < 8 {
        encode_utf8(member_id).len() as int
    } else {
        8
    }
}

/// The name under which the machine of a member can be found.
pub fn service_host(member_id: &str) -> (r: String)
    requires
        is_char_boundary(encode_utf8(member_id@), host_part(member_id@)),
    ensures
        r@ == "caseboard-"@ + decode_utf8(
            encode_utf8(member_id@).subrange(0, host_part(member_id@)),
        ) + ".local."@,
{
    let n: usize = member_id.as_bytes().len();
    let end: usize = if n < 8 {
        n
    } else {
        8
    };
    proof {
        encode_utf8_valid_utf8(member_id@);
        is_char_boundary_start_end_of_seq(encode_utf8(member_id@));
    }
    let head = slice_text(member_id, 0, end);
    cat3("caseboard-", head, ".local.")
}

/// An exchange is let through if and only if this machine has settings and a team,
/// the body was made with the secret of the team, and it is of that very team.
pub proof fn only_teammates_are_let_through(
    settings_ok: bool,
    my_team: Option<Seq<char>>,
    claimed: Seq<char>,
    computed: Seq<char>,
    body_team: Option<Seq<char>>,
)
    ensures
        exchange_refusal(settings_ok, my_team, claimed, computed, body_team) is None
            <==> settings_ok && my_team is Some && claimed == computed && body_team == my_team,
        exchange_refusal(settings_ok, my_team, claimed, computed, body_team) matches Some(r)
            ==> r.status == 400 || r.status == 403,
        exchange_refusal(settings_ok, my_team, claimed, computed, body_team) matches Some(r) ==> (
        r.status == 400 <==> settings_ok && my_team is Some && claimed == computed
            && body_team is None),
{
}

/// A machine may join if and only if it asks the leader, for the leader's team and
/// with the leader's code. Only a machine that does not lead answers that it is not
/// found here.
pub proof fn the_right_code_lets_in(
    settings_ok: bool,
    identity: Option<TeamIdentity>,
    join: Option<JoinRequest>,
)
    ensures
        join_refusal(settings_ok, identity, join) is None <==> settings_ok && identity is Some
            && join is Some && identity->0.role@ == "leader"@ && join->0.team_id@
            == identity->0.team_id@ && identity->0.pairing_code is Some
            && identity->0.pairing_code->0@ == trim(join->0.code@),
        join_refusal(settings_ok, identity, join) matches Some(r) ==> (r.status == 404
            <==> settings_ok && identity is Some && identity->0.role@ != "leader"@),
{
}

/// One who is not on the roster is added at its end, sees everyone's cases and
/// edits none. One who is there gets the new name and keeps the rest.
pub proof fn newcomers_see_all_and_edit_none(
    members: Seq<MemberModel>,
    id: Seq<char>,
    name: Seq<char>,
    k: int,
)
    ensures
        (forall|i: int| 0 <= i < members.len() ==> (#[trigger] members[i]).member_id != id) ==> {
            let after = admitted(members, id, name);
            after.len() == members.len() + 1 && after.drop_last() == members
                && after.last().member_id == id && after.last().name == name && after.last().role
                == "member"@ && after.last().sees_all && after.last().edit.len() == 0
        },
        0 <= k < members.len() && members[k].member_id == id && (forall|i: int|
            0 <= i < k ==> (#[trigger] members[i]).member_id != id) ==> {
            let after = admitted(members, id, name);
            after.len() == members.len() && after[k].name == name && after[k].member_id == id
                && after[k].role == members[k].role && after[k].sees_all == members[k].sees_all
                && after[k].view == members[k].view && after[k].edit == members[k].edit && forall|
                i: int,
            |
                0 <= i < members.len() && i != k ==> #[trigger] after[i] == members[i]
        },
{
    lemma_member_at(members, id, 0);
    let at = member_at(members, id, 0);
    let after = admitted(members, id, name);
    if at < members.len() {
        assert(members[at].member_id == id);
    } else {
        assert(after.drop_last() =~= members);
    }
    if 0 <= k < members.len() && members[k].member_id == id && (forall|i: int|
        0 <= i < k ==> (#[trigger] members[i]).member_id != id) {
        if at < k {
            assert(members[at].member_id != id);
        }
        if k < at {
            assert(members[k].member_id != id);
        }
    }
}

/// A machine is noted if it has a team and its member is not known yet, and no
/// member is noted twice.
pub proof fn members_are_noted_once(peers: Seq<PeerModel>, peer: PeerModel)
    ensures
        peer.team_id.len() == 0 ==> with_peer(peers, peer) == peers,
        (exists|i: int| 0 <= i < peers.len() && (#[trigger] peers[i]).member_id == peer.member_id)
            ==> with_peer(peers, peer) == peers,
        peer.team_id.len() > 0 && (forall|i: int|
            0 <= i < peers.len() ==> (#[trigger] peers[i]).member_id != peer.member_id)
            ==> with_peer(peers, peer) == peers.push(peer),
{
}

/// How many of some machines are of a team.
pub open spec fn machines_of(peers: Seq<PeerModel>, team_id: Seq<char>) -> nat {
    peers.filter(|p: PeerModel| p.team_id == team_id).len()
}

proof fn lemma_team_found(teams: Seq<TeamModel>, id: Seq<char>, k: int)
    requires
        0 <= k <= teams.len(),
    ensures
        k <= team_at(teams, id, k) <= teams.len(),
        team_at(teams, id, k) < teams.len() ==> teams[team_at(teams, id, k)].team_id == id,
        forall|i: int| k <= i < team_at(teams, id, k) ==> (#[trigger] teams[i]).team_id != id,
    decreases teams.len() - k,
{
    if k < teams.len() && teams[k].team_id != id {
        lemma_team_found(teams, id, k + 1);
    }
}

proof fn lemma_machines_step(peers: Seq<PeerModel>, team_id: Seq<char>)
    requires
        peers.len() > 0,
    ensures
        machines_of(peers, team_id) == machines_of(peers.drop_last(), team_id) + if peers.last(
        ).team_id == team_id {
            1nat
        } else {
            0nat
        },
{
    reveal(Seq::filter);
    let f = |p: PeerModel| p.team_id == team_id;
    assert(peers.filter(f).len() == peers.drop_last().filter(f).len() + if peers.last().team_id
        == team_id {
        1nat
    } else {
        0nat
    });
}

/// There is a machine of a team that leads it.
pub open spec fn leader_is_there(peers: Seq<PeerModel>, team_id: Seq<char>) -> bool {
    exists|i: int|
        0 <= i < peers.len() && (#[trigger] peers[i]).team_id == team_id && peers[i].role
            == "leader"@
}

proof fn lemma_leader_step(peers: Seq<PeerModel>, team_id: Seq<char>)
    requires
        peers.len() > 0,
    ensures
        leader_is_there(peers, team_id) <==> leader_is_there(peers.drop_last(), team_id) || (
        peers.last().team_id == team_id && peers.last().role == "leader"@),
{
    let w = peers.drop_last();
    if leader_is_there(peers, team_id) {
        let i = choose|i: int|
            0 <= i < peers.len() && (#[trigger] peers[i]).team_id == team_id && peers[i].role
                == "leader"@;
        if i < w.len() {
            assert(w[i] == peers[i]);
        }
    }
    if leader_is_there(w, team_id) {
        let i = choose|i: int|
            0 <= i < w.len() && (#[trigger] w[i]).team_id == team_id && w[i].role == "leader"@;
        assert(peers[i] == w[i]);
    }
    if peers.last().team_id == team_id && peers.last().role == "leader"@ {
        assert(peers[peers.len() - 1].team_id == team_id);
    }
}

/// Each team that is found stands once, with as many members as there are machines
/// of it, and its leader is said to be there if and only if one of them leads. Every
/// machine's team is found.
pub proof fn teams_are_counted(peers: Seq<PeerModel>, id: Seq<char>)
    ensures
        forall|k: int|
            #![trigger teams_of(peers)[k]]
            0 <= k < teams_of(peers).len() && teams_of(peers)[k].team_id == id ==> teams_of(
                peers,
            )[k].online_members == machines_of(peers, id) && teams_of(peers)[k].leader_online
                == leader_is_there(peers, id),
        (exists|k: int| 0 <= k < teams_of(peers).len() && (#[trigger] teams_of(peers)[k]).team_id == id)
            <==> machines_of(peers, id) > 0,
        forall|j: int, k: int|
            #![trigger teams_of(peers)[j], teams_of(peers)[k]]
            0 <= j < k < teams_of(peers).len() ==> teams_of(peers)[j].team_id != teams_of(
                peers,
            )[k].team_id,
    decreases peers.len(),
{
    reveal(Seq::filter);
    if peers.len() > 0 {
        let w = peers.drop_last();
        let p = peers.last();
        let o = teams_of(w);
        let t = teams_of(peers);
        teams_are_counted(w, id);
        teams_are_counted(w, p.team_id);
        lemma_machines_step(peers, id);
        lemma_leader_step(peers, id);
        lemma_team_found(o, p.team_id, 0);
        let at = team_at(o, p.team_id, 0);
        assert forall|j: int, k: int|
            #![trigger t[j], t[k]]
            0 <= j < k < t.len() implies t[j].team_id != t[k].team_id by {
            if k < o.len() {
                assert(t[j].team_id == o[j].team_id && t[k].team_id == o[k].team_id);
            } else {
                assert(t[j] == o[j]);
                assert(o[j].team_id != p.team_id);
            }
        }
        if machines_of(w, id) == 0 && leader_is_there(w, id) {
            let i = choose|i: int|
                0 <= i < w.len() && (#[trigger] w[i]).team_id == id && w[i].role == "leader"@;
            lemma_machine_counts(w, i);
        }
        assert forall|k: int|
            #![trigger t[k]]
            0 <= k < t.len() && t[k].team_id == id implies t[k].online_members == machines_of(
            peers,
            id,
        ) && t[k].leader_online == leader_is_there(peers, id) by {
            if k < o.len() {
                assert(o[k].team_id == t[k].team_id);
                if k == at {
                    assert(id == p.team_id);
                } else {
                    assert(t[k] == o[k]);
                    if id == p.team_id {
                        if at < o.len() {
                            if k < at {
                                assert(o[k].team_id != o[at].team_id);
                            } else {
                                assert(o[at].team_id != o[k].team_id);
                            }
                        } else {
                            assert(o[k].team_id != p.team_id);
                        }
                    }
                }
            } else {
                assert(id == p.team_id);
                assert(forall|i: int| 0 <= i < o.len() ==> (#[trigger] o[i]).team_id != id);
            }
        }
        if exists|k: int| 0 <= k < o.len() && (#[trigger] o[k]).team_id == id {
            let k = choose|k: int| 0 <= k < o.len() && (#[trigger] o[k]).team_id == id;
            assert(t[k].team_id == id);
        }
        if p.team_id == id {
            if at < o.len() {
                assert(t[at].team_id == id);
            } else {
                assert(t[o.len() as int].team_id == id);
            }
        }
        if exists|k: int| 0 <= k < t.len() && (#[trigger] t[k]).team_id == id {
            let k = choose|k: int| 0 <= k < t.len() && (#[trigger] t[k]).team_id == id;
            if k < o.len() {
                assert(o[k].team_id == id);
            }
        }
    }
}

proof fn lemma_machine_counts(peers: Seq<PeerModel>, i: int)
    requires
        0 <= i < peers.len(),
    ensures
        machines_of(peers, peers[i].team_id) > 0,
    decreases peers.len(),
{
    lemma_machines_step(peers, peers[i].team_id);
    if i < peers.len() - 1 {
        assert(peers.drop_last()[i] == peers[i]);
        lemma_machine_counts(peers.drop_last(), i);
    }
}

proof fn lemma_name_slot(teams: Seq<TeamModel>, name: Seq<char>, p: int)
    requires
        0 <= p <= teams.len(),
    ensures
        p <= name_slot(teams, name, p) <= teams.len(),
        name_slot(teams, name, p) < teams.len() ==> text_before(
            name,
            teams[name_slot(teams, name, p)].team_name,
        ),
        forall|q: int|
            p <= q < name_slot(teams, name, p) ==> !text_before(name, (#[trigger] teams[q]).team_name),
    decreases teams.len() - p,
{
    if p < teams.len() && !text_before(name, teams[p].team_name) {
        lemma_name_slot(teams, name, p + 1);
    }
}

/// The teams are shown in the order of their names, each as it was found and none
/// left out.
pub proof fn teams_are_shown_by_name(teams: Seq<TeamModel>)
    ensures
        by_name(teams).len() == teams.len(),
        by_name(teams).to_multiset() == teams.to_multiset(),
        forall|i: int, j: int|
            #![trigger by_name(teams)[i], by_name(teams)[j]]
            0 <= i < j < teams.len() ==> !text_before(
                by_name(teams)[j].team_name,
                by_name(teams)[i].team_name,
            ),
    decreases teams.len(),
{
    broadcast use vstd::seq_lib::group_to_multiset_ensures;

    if teams.len() > 0 {
        let w = teams.drop_last();
        let x = teams.last();
        let o = by_name(w);
        teams_are_shown_by_name(w);
        let p = name_slot(o, x.team_name, 0);
        lemma_name_slot(o, x.team_name, 0);
        o.insert_ensures(p, x);
        let r = by_name(teams);
        assert(teams =~= w.push(x));
        assert forall|i: int, j: int|
            #![trigger r[i], r[j]]
            0 <= i < j < teams.len() implies !text_before(r[j].team_name, r[i].team_name) by {
            let oi = if i < p { i } else { i - 1 };
            let oj = if j < p { j } else { j - 1 };
            if i != p && j != p {
                assert(r[i] == o[oi] && r[j] == o[oj]);
            } else if j == p {
                assert(r[i] == o[i]);
            } else {
                assert(r[j] == o[j - 1]);
                text_order_is_total(x.team_name, o[p].team_name);
                if text_before(o[j - 1].team_name, x.team_name) {
                    text_order_is_transitive(o[j - 1].team_name, x.team_name, o[p].team_name);
                    text_order_is_total(o[j - 1].team_name, o[p].team_name);
                    if j - 1 > p {
                        assert(!text_before(o[j - 1].team_name, o[p].team_name));
                    }
                }
            }
        }
        assert(r =~= o.insert(p, x));
        assert(o.insert(p, x).to_multiset() =~= o.to_multiset().insert(x));
        assert(r.to_multiset() =~= teams.to_multiset());
    } else {
        assert(by_name(teams) =~= teams);
    }
}

/// The machine that is asked to let one in leads that very team, and is the first
/// that does. None is asked only if none leads it.
pub proof fn the_leader_is_asked(peers: Seq<PeerModel>, team_id: Seq<char>)
    ensures
        ({
            let k = leader_at(peers, team_id, 0);
            &&& 0 <= k <= peers.len()
            &&& k < peers.len() ==> peers[k].team_id == team_id && peers[k].role == "leader"@
            &&& forall|i: int|
                0 <= i < k ==> !((#[trigger] peers[i]).team_id == team_id && peers[i].role
                    == "leader"@)
        }),
{
    lemma_leader_at(peers, team_id, 0);
}

proof fn lemma_leader_at(peers: Seq<PeerModel>, team_id: Seq<char>, k: int)
    requires
        0 <= k <= peers.len(),
    ensures
        k <= leader_at(peers, team_id, k) <= peers.len(),
        leader_at(peers, team_id, k) < peers.len() ==> peers[leader_at(
            peers,
            team_id,
            k,
        )].team_id == team_id && peers[leader_at(peers, team_id, k)].role == "leader"@,
        forall|i: int|
            k <= i < leader_at(peers, team_id, k) ==> !((#[trigger] peers[i]).team_id == team_id
                && peers[i].role == "leader"@),
    decreases peers.len() - k,
{
    if k < peers.len() && !(peers[k].team_id == team_id && peers[k].role == "leader"@) {
        lemma_leader_at(peers, team_id, k + 1);
    }
}

/// What the leader's machine said of a refusal is passed on; otherwise its status is.
pub proof fn refusals_are_passed_on(reply: JsonModel, said: Seq<char>, status: Seq<char>)
    ensures
        reply.text_member("error"@) == Some(said) ==> join_failure(Some(reply), status) == said,
        reply.text_member("error"@) is None ==> status.is_suffix_of(
            join_failure(Some(reply), status),
        ),
        join_failure(None, status) == "HTTP "@ + status,
{
    let w = "HTTP "@ + status;
    assert(w.subrange(w.len() - status.len(), w.len() as int) =~= status);
}

/// A machine is found by the first eight characters of an identifier of letters and
/// digits, or by all if there are fewer.
pub proof fn machines_are_named_by_eight_characters(member_id: Seq<char>)
    requires
        is_ascii_chars(member_id),
    ensures
        ({
            let shown = decode_utf8(encode_utf8(member_id).subrange(0, host_part(member_id)));
            &&& member_id.len() >= 8 ==> shown == member_id.subrange(0, 8)
            &&& member_id.len() < 8 ==> shown == member_id
        }),
{
    is_ascii_chars_encode_utf8(member_id);
    let n = host_part(member_id);
    let t = member_id.subrange(0, n);
    is_ascii_chars_nat_bound(member_id);
    assert(is_ascii_chars(t)) by {
        assert forall|i: int| 0 <= i < t.len() implies (#[trigger] t[i] as nat) < 128 by {
            assert(t[i] == member_id[i]);
        }
    }
    is_ascii_chars_encode_utf8(t);
    encode_utf8_decode_utf8(t);
    let b = encode_utf8(member_id).subrange(0, n);
    assert forall|i: int| 0 <= i < n implies b[i] == encode_utf8(t)[i] by {
        assert(encode_utf8(member_id)[i] == member_id[i] as u8);
        assert(encode_utf8(t)[i] == t[i] as u8);
    }
    assert(b =~= encode_utf8(t));
    if member_id.len() < 8 {
        assert(t =~= member_id);
    }
}

} // verus!
