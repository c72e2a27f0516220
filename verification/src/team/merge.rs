//! What the machines of a team pass on to each other: the snapshots of the
//! members and the edits of their cases.
use vstd::prelude::*;
use crate::json::optional;
use crate::team::members::SignedRoster;
use crate::text::{cat3, first_chars, head_text, same_text};

verus! {

/// What a member shows of the own cases. One with a higher number replaces one
/// with a lower.
pub struct SnapshotEnvelope {
    pub member_id: String,
    pub name: String,
    pub seq: i64,
    pub updated_at: String,
    pub payload: String,
}

/// An edit of a case of another member.
pub struct TeamEdit {
    pub id: String,
    pub team_id: String,
    pub editor_id: String,
    pub editor_name: String,
    pub target_member_id: String,
    pub case_id: String,
    pub case_name: String,
    pub field: String,
    pub value: String,
    pub prev_value: Option<String>,
    pub status: String,
    pub created_at: String,
    pub applied_at: Option<String>,
}

/// All that a machine knows, as it is passed on.
pub struct ExchangeBody {
    pub team_id: String,
    pub from_member: String,
    pub snapshots: Vec<SnapshotEnvelope>,
    pub roster: Option<SignedRoster>,
    pub edits: Vec<TeamEdit>,
}

/// A snapshot as data.
pub struct SnapshotModel {
    pub member_id: Seq<char>,
    pub name: Seq<char>,
    pub seq: int,
    pub updated_at: Seq<char>,
    pub payload: Seq<char>,
}

impl View for SnapshotEnvelope {
    type V = SnapshotModel;

    open spec fn view(&self) -> SnapshotModel {
        SnapshotModel {
            member_id: self.member_id@,
            name: self.name@,
            seq: self.seq as int,
            updated_at: self.updated_at@,
            payload: self.payload@,
        }
    }
}

pub open spec fn snapshots_model(v: Seq<SnapshotEnvelope>) -> Seq<SnapshotModel> {
    Seq::new(v.len(), |i: int| v[i]@)
}

/// A snapshot replaces another if its number is higher, and fills a gap.
pub open spec fn replaces(existing: Option<int>, seq: int) -> bool {
    match existing {
        Some(e) => seq > e,
        None => true,
    }
}

/// Whether a snapshot replaces another.
pub fn should_replace(existing: Option<i64>, seq: i64) -> (r: bool)
    ensures
        r == replaces(
            match existing {
                Some(e) => Some(e as int),
                None => None,
            },
            seq as int,
        ),
{
    match existing {
        Some(e) => seq > e,
        None => true,
    }
}

/// The number of the first snapshot of a member; the number of snapshots if
/// there is none.
pub open spec fn snapshot_at(v: Seq<SnapshotModel>, member: Seq<char>, k: int) -> int
    decreases v.len() - k,
{
    if k >= v.len() || v[k].member_id == member {
        k
    } else {
        snapshot_at(v, member, k + 1)
    }
}

/// The number of the snapshot of a member that is here.
pub open spec fn seq_here(v: Seq<SnapshotModel>, member: Seq<char>) -> Option<int> {
    let k = snapshot_at(v, member, 0);
    if k < v.len() {
        Some(v[k].seq)
    } else {
        None
    }
}

/// The snapshots after one more came.
pub open spec fn with_snapshot(v: Seq<SnapshotModel>, s: SnapshotModel) -> Seq<SnapshotModel> {
    let k = snapshot_at(v, s.member_id, 0);
    if !replaces(seq_here(v, s.member_id), s.seq) {
        v
    } else if k < v.len() {
        v.update(k, s)
    } else {
        v.push(s)
    }
}

/// The snapshots after some came, one after the other.
pub open spec fn with_snapshots(v: Seq<SnapshotModel>, incoming: Seq<SnapshotModel>) -> Seq<
    SnapshotModel,
>
    decreases incoming.len(),
{
    if incoming.len() == 0 {
        v
    } else {
        with_snapshot(with_snapshots(v, incoming.drop_last()), incoming.last())
    }
}

/// How many of the snapshots that came were taken.
pub open spec fn taken_of(v: Seq<SnapshotModel>, incoming: Seq<SnapshotModel>) -> nat
    decreases incoming.len(),
{
    if incoming.len() == 0 {
        0
    } else {
        let before = with_snapshots(v, incoming.drop_last());
        taken_of(v, incoming.drop_last()) + if replaces(
            seq_here(before, incoming.last().member_id),
            incoming.last().seq,
        ) {
            1nat
        } else {
            0nat
        }
    }
}

proof fn lemma_snapshot_at(v: Seq<SnapshotModel>, member: Seq<char>, k: int)
    requires
        0 <= k <= v.len(),
    ensures
        k <= snapshot_at(v, member, k) <= v.len(),
        snapshot_at(v, member, k) < v.len() ==> v[snapshot_at(v, member, k)].member_id == member,
        forall|i: int|
            k <= i < snapshot_at(v, member, k) ==> (#[trigger] v[i]).member_id != member,
    decreases v.len() - k,
{
    if k < v.len() && v[k].member_id != member {
        lemma_snapshot_at(v, member, k + 1);
    }
}

/// No number goes down when a snapshot comes, that of its member reaches the
/// number that came, and no other member's changes.
pub proof fn numbers_never_go_down(v: Seq<SnapshotModel>, s: SnapshotModel, member: Seq<char>)
    ensures
        ({
            let before = seq_here(v, member);
            let after = seq_here(with_snapshot(v, s), member);
            &&& before matches Some(b) ==> (after matches Some(a) && a >= b)
            &&& member == s.member_id ==> (after matches Some(a) && a >= s.seq)
            &&& member != s.member_id ==> after == before
        }),
{
    let w = with_snapshot(v, s);
    lemma_snapshot_at(v, member, 0);
    lemma_snapshot_at(w, member, 0);
    lemma_snapshot_at(v, s.member_id, 0);
    let k = snapshot_at(v, member, 0);
    let j = snapshot_at(w, member, 0);
    let m = snapshot_at(v, s.member_id, 0);
    if w != v {
        if member == s.member_id {
            if m < v.len() {
                if j < m {
                    assert(w[j] == v[j]);
                }
                assert(w[m].member_id == member);
            } else {
                assert(w[m].member_id == member);
                if j < m {
                    assert(w[j] == v[j]);
                }
            }
        } else {
            if k < v.len() {
                assert(w[k] == v[k]);
                if j < k {
                    if j != m {
                        assert(w[j] == v[j]);
                    }
                }
            } else if j < w.len() {
                if j < v.len() && j != m {
                    assert(w[j] == v[j]);
                }
            }
        }
    }
}

/// After snapshots came, the number of each member is at least what was here and
/// at least what came.
pub proof fn newest_snapshots_win(
    v: Seq<SnapshotModel>,
    incoming: Seq<SnapshotModel>,
    i: int,
    member: Seq<char>,
)
    requires
        0 <= i < incoming.len(),
    ensures
        ({
            let after = with_snapshots(v, incoming);
            &&& seq_here(after, incoming[i].member_id) matches Some(a) && a >= incoming[i].seq
            &&& seq_here(v, member) matches Some(b) ==> (seq_here(after, member) matches Some(a)
                && a >= b)
        }),
    decreases incoming.len(),
{
    let before = with_snapshots(v, incoming.drop_last());
    numbers_never_go_down(before, incoming.last(), incoming[i].member_id);
    numbers_never_go_down(before, incoming.last(), member);
    if i < incoming.len() - 1 {
        newest_snapshots_win(v, incoming.drop_last(), i, member);
    } else if incoming.len() > 1 {
        newest_snapshots_win(v, incoming.drop_last(), 0, member);
    }
}

proof fn lemma_nothing_new(v: Seq<SnapshotModel>, incoming: Seq<SnapshotModel>)
    requires
        forall|i: int|
            0 <= i < incoming.len() ==> (seq_here(v, (#[trigger] incoming[i]).member_id) matches Some(
                a,
            ) && a >= incoming[i].seq),
    ensures
        with_snapshots(v, incoming) == v,
        taken_of(v, incoming) == 0,
    decreases incoming.len(),
{
    if incoming.len() > 0 {
        assert forall|i: int| 0 <= i < incoming.drop_last().len() implies (seq_here(
            v,
            (#[trigger] incoming.drop_last()[i]).member_id,
        ) matches Some(a) && a >= incoming.drop_last()[i].seq) by {
            assert(incoming.drop_last()[i] == incoming[i]);
        }
        lemma_nothing_new(v, incoming.drop_last());
        assert(incoming.last() == incoming[incoming.len() - 1]);
    }
}

/// What came once changes nothing when it comes again.
pub proof fn second_merge_takes_nothing(v: Seq<SnapshotModel>, incoming: Seq<SnapshotModel>)
    ensures
        with_snapshots(with_snapshots(v, incoming), incoming) == with_snapshots(v, incoming),
        taken_of(with_snapshots(v, incoming), incoming) == 0,
{
    let after = with_snapshots(v, incoming);
    assert forall|i: int| 0 <= i < incoming.len() implies (seq_here(
        after,
        (#[trigger] incoming[i]).member_id,
    ) matches Some(a) && a >= incoming[i].seq) by {
        newest_snapshots_win(v, incoming, i, Seq::empty());
    }
    lemma_nothing_new(after, incoming);
}

fn copy_snapshot(s: &SnapshotEnvelope) -> (r: SnapshotEnvelope)
    ensures
        r@ == s@,
{
    SnapshotEnvelope {
        member_id: s.member_id.clone(),
        name: s.name.clone(),
        seq: s.seq,
        updated_at: s.updated_at.clone(),
        payload: s.payload.clone(),
    }
}

fn find_snapshot(v: &Vec<SnapshotEnvelope>, member: &str) -> (r: usize)
    ensures
        r == snapshot_at(snapshots_model(v@), member@, 0),
        r <= v@.len(),
{
    let n: usize = v.len();
    let ghost all = snapshots_model(v@);
    let mut k: usize = 0;
    while k < n && !same_text(v[k].member_id.as_str(), member)
        invariant
            k <= n,
            n == v@.len(),
            all == snapshots_model(v@),
            snapshot_at(all, member@, 0) == snapshot_at(all, member@, k as int),
        decreases n - k,
    {
        assert(all[k as int].member_id == v@[k as int].member_id@);
        k = k + 1;
    }
    proof {
        if k < n {
            assert(all[k as int].member_id == v@[k as int].member_id@);
        }
    }
    k
}

/// Takes the snapshots that came and are newer than those that are here. Says
/// how many were taken.
pub fn merge_snapshots(here: &mut Vec<SnapshotEnvelope>, incoming: &Vec<SnapshotEnvelope>) -> (r:
    usize)
    ensures
        snapshots_model(final(here)@) == with_snapshots(
            snapshots_model(old(here)@),
            snapshots_model(incoming@),
        ),
        r == taken_of(snapshots_model(old(here)@), snapshots_model(incoming@)),
{
    let ghost start = snapshots_model(here@);
    let ghost all = snapshots_model(incoming@);
    let n: usize = incoming.len();
    let mut taken: usize = 0;
    let mut i: usize = 0;
    assert(all.subrange(0, 0) =~= Seq::<SnapshotModel>::empty());
    while i < n
        invariant
            i <= n,
            n == incoming@.len(),
            all == snapshots_model(incoming@),
            taken <= i,
            snapshots_model(here@) == with_snapshots(start, all.subrange(0, i as int)),
            taken == taken_of(start, all.subrange(0, i as int)),
        decreases n - i,
    {
        assert(all.subrange(0, i + 1).drop_last() =~= all.subrange(0, i as int));
        assert(all.subrange(0, i + 1).last() == incoming@[i as int]@);
        let ghost before = snapshots_model(here@);
        let s = &incoming[i];
        let k: usize = find_snapshot(here, s.member_id.as_str());
        let existing: Option<i64> = if k < here.len() {
            assert(before[k as int].seq == here@[k as int].seq);
            Some(here[k].seq)
        } else {
            None
        };
        if should_replace(existing, s.seq) {
            let copy = copy_snapshot(s);
            if k < here.len() {
                here.set(k, copy);
                assert(snapshots_model(here@) =~= before.update(k as int, s@));
            } else {
                here.push(copy);
                assert(snapshots_model(here@) =~= before.push(s@));
            }
            taken = taken + 1;
        }
        i = i + 1;
    }
    assert(all.subrange(0, i as int) =~= all);
    taken
}

/// The number of this machine's next snapshot, from what was kept of the last.
pub fn next_own_seq(kept: Option<i64>) -> (r: i64)
    requires
        kept matches Some(n) ==> n < i64::MAX,
    ensures
        r == match kept {
            Some(n) => n + 1,
            None => 1,
        },
{
    match kept {
        Some(n) => n + 1,
        None => 1,
    }
}

/// Whether an edit that came is kept: only notes can be edited, an unknown edit
/// is taken, and a known one only if it has come further.
pub fn takes_edit(field: &str, rank: i64, rank_here: Option<i64>) -> (r: bool)
    ensures
        r == (field@ == "note"@ && match rank_here {
            Some(h) => rank > h,
            None => true,
        }),
{
    if !same_text(field, "note") {
        return false;
    }
    match rank_here {
        Some(h) => rank > h,
        None => true,
    }
}

/// The row of an edit, as it is kept.
pub type EditRow = (
    String,
    String,
    String,
    String,
    String,
    String,
    String,
    String,
    String,
    Option<String>,
    String,
    String,
    Option<String>,
);

/// An edit from its row.
pub fn edit_from_row(r: EditRow) -> (e: TeamEdit)
    ensures
        e.id == r.0,
        e.team_id == r.1,
        e.editor_id == r.2,
        e.editor_name == r.3,
        e.target_member_id == r.4,
        e.case_id == r.5,
        e.case_name == r.6,
        e.field == r.7,
        e.value == r.8,
        e.prev_value == r.9,
        e.status == r.10,
        e.created_at == r.11,
        e.applied_at == r.12,
{
    TeamEdit {
        id: r.0,
        team_id: r.1,
        editor_id: r.2,
        editor_name: r.3,
        target_member_id: r.4,
        case_id: r.5,
        case_name: r.6,
        field: r.7,
        value: r.8,
        prev_value: r.9,
        status: r.10,
        created_at: r.11,
        applied_at: r.12,
    }
}

/// What was said in an edit, and where: all that its fate does not change.
pub open spec fn same_edit(a: TeamEdit, b: TeamEdit) -> bool {
    a.id == b.id && a.team_id == b.team_id && a.editor_id == b.editor_id && a.editor_name
        == b.editor_name && a.target_member_id == b.target_member_id && a.case_id == b.case_id
        && a.case_name == b.case_name && a.field == b.field && a.value == b.value && a.prev_value
        == b.prev_value && a.created_at == b.created_at
}

/// An edit takes effect: it is a note, by someone who may see the case.
pub open spec fn takes_effect(field: Seq<char>, can_view: bool) -> bool {
    field == "note"@ && can_view
}

impl TeamEdit {
    /// Decides on an edit of a case of this machine: a note by someone who may
    /// see the case takes effect, anything else is rejected. No case itself is
    /// changed. Says whether it took effect.
    pub fn settle(&mut self, can_view: bool, can_edit: bool, now: &str) -> (r: bool)
        ensures
            r == takes_effect(old(self).field@, can_view),
            same_edit(*old(self), *final(self)),
            if r {
                final(self).status@ == "applied"@ && optional(final(self).applied_at) == Some(now@)
            } else {
                final(self).status@ == "rejected"@ && final(self).applied_at == old(
                    self,
                ).applied_at
            },
    {
        let note = same_text(self.field.as_str(), "note");
        let allowed = if note {
            can_view
        } else {
            can_edit
        };
        if allowed && note {
            self.status = String::from_str("applied");
            self.applied_at = Some(String::from_str(now));
            true
        } else {
            self.status = String::from_str("rejected");
            false
        }
    }

    /// Takes an edit back. Only the member whose case it is can do so, and only
    /// while it is in effect.
    pub fn revert(&mut self, my_id: &str) -> (r: Result<(), String>)
        ensures
            same_edit(*old(self), *final(self)),
            final(self).applied_at == old(self).applied_at,
            if old(self).target_member_id@ != my_id@ {
                r matches Err(e) && e@ == "只能撤销别人对**你的**案件的改动"@
                    && final(self).status == old(self).status
            } else if old(self).status@ != "applied"@ {
                r matches Err(e) && e@ == "这条改动不在已生效状态,无法撤销"@
                    && final(self).status == old(self).status
            } else {
                r is Ok && final(self).status@ == "reverted"@
            },
    {
        if !same_text(self.target_member_id.as_str(), my_id) {
            return Err(String::from_str("只能撤销别人对**你的**案件的改动"));
        }
        if !same_text(self.status.as_str(), "applied") {
            return Err(String::from_str("这条改动不在已生效状态,无法撤销"));
        }
        self.status = String::from_str("reverted");
        Ok(())
    }
}

/// Checks the reply to an exchange: it has to be a success, and made with the
/// secret of the team.
pub fn check_exchange_reply(
    success: bool,
    status: &str,
    text: &str,
    computed: &str,
    claimed: &str,
) -> (r: Result<(), String>)
    ensures
        if !success {
            r matches Err(e) && e@ == "HTTP "@ + status@ + ": "@ + first_chars(text@, 120)
        } else if computed@ != claimed@ {
            r matches Err(e) && e@ == "响应签名校验失败"@
        } else {
            r is Ok
        },
{
    if !success {
        let mut out = cat3("HTTP ", status, ": ");
        let head = head_text(text, 120);
        out.append(head.as_str());
        return Err(out);
    }
    if same_text(computed, claimed) {
        Ok(())
    } else {
        Err(String::from_str("响应签名校验失败"))
    }
}

/// A snapshot that comes is taken whole in the place of an older one of the same
/// member, or added if that member has none. One that is not newer changes
/// nothing.
pub proof fn newer_snapshots_are_taken_whole(v: Seq<SnapshotModel>, s: SnapshotModel, k: int)
    ensures
        (forall|i: int| 0 <= i < v.len() ==> (#[trigger] v[i]).member_id != s.member_id)
            ==> with_snapshot(v, s) == v.push(s),
        0 <= k < v.len() && v[k].member_id == s.member_id && (forall|i: int|
            0 <= i < k ==> (#[trigger] v[i]).member_id != s.member_id) ==> {
            &&& s.seq > v[k].seq ==> with_snapshot(v, s) == v.update(k, s)
            &&& s.seq <= v[k].seq ==> with_snapshot(v, s) == v
        },
{
    lemma_snapshot_at(v, s.member_id, 0);
    let at = snapshot_at(v, s.member_id, 0);
    if at < v.len() {
        assert(v[at].member_id == s.member_id);
    }
    if 0 <= k < v.len() && v[k].member_id == s.member_id && (forall|i: int|
        0 <= i < k ==> (#[trigger] v[i]).member_id != s.member_id) {
        if at < k {
            assert(v[at].member_id != s.member_id);
        }
        if k < at {
            assert(v[k].member_id != s.member_id);
        }
    }
}

/// What is here after snapshots came was here before or came, each as it was.
pub proof fn snapshots_are_not_mixed(v: Seq<SnapshotModel>, incoming: Seq<SnapshotModel>, i: int)
    requires
        0 <= i < with_snapshots(v, incoming).len(),
    ensures
        v.contains(with_snapshots(v, incoming)[i]) || incoming.contains(
            with_snapshots(v, incoming)[i],
        ),
    decreases incoming.len(),
{
    if incoming.len() > 0 {
        let w = incoming.drop_last();
        let before = with_snapshots(v, w);
        let after = with_snapshots(v, incoming);
        let s = incoming.last();
        lemma_snapshot_at(before, s.member_id, 0);
        if after[i] == s {
            assert(incoming[incoming.len() - 1] == s);
        } else {
            assert(after[i] == before[i]);
            snapshots_are_not_mixed(v, w, i);
            if w.contains(before[i]) {
                let k = choose|k: int| 0 <= k < w.len() && w[k] == before[i];
                assert(incoming[k] == before[i]);
            }
        }
    } else {
        assert(v[i] == with_snapshots(v, incoming)[i]);
    }
}

/// A note by someone who may see the case takes effect, and nothing else does.
pub proof fn only_notes_take_effect(field: Seq<char>, can_view: bool)
    ensures
        takes_effect("note"@, true),
        !takes_effect(field, false),
        field != "note"@ ==> !takes_effect(field, can_view),
{
}

/// Deciding on an edit, or taking it back, changes nothing of what it says, of whom,
/// or of which case.
pub proof fn edits_keep_what_they_say(a: TeamEdit, b: TeamEdit)
    requires
        same_edit(a, b),
    ensures
        a.id@ == b.id@ && a.team_id@ == b.team_id@,
        a.editor_id@ == b.editor_id@ && a.editor_name@ == b.editor_name@,
        a.target_member_id@ == b.target_member_id@,
        a.case_id@ == b.case_id@ && a.case_name == b.case_name,
        a.field@ == b.field@ && a.value@ == b.value@ && a.prev_value == b.prev_value,
        a.created_at@ == b.created_at@,
{
}

/// A snapshot is replaced by one with a higher number alone, and one that is not here
/// is always taken.
pub proof fn only_higher_numbers_replace(existing: int, seq: int)
    ensures
        replaces(Some(existing), seq) <==> existing < seq,
        replaces(None, seq),
{
}

} // verus!
