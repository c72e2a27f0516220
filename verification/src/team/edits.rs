//! Merging the edits that machines pass on: what is known of an edit only ever
//! gets further.
use vstd::prelude::*;
use crate::team::merge::takes_edit;
use crate::text::same_text;

verus! {

/// How far an edit has come, by the rank of its status.
pub struct EditMark {
    pub id: String,
    pub team_id: String,
    pub field: String,
    pub rank: i64,
}

/// How far an edit has come, as data.
pub struct MarkModel {
    pub id: Seq<char>,
    pub team_id: Seq<char>,
    pub field: Seq<char>,
    pub rank: int,
}

impl View for EditMark {
    type V = MarkModel;

    open spec fn view(&self) -> MarkModel {
        MarkModel {
            id: self.id@,
            team_id: self.team_id@,
            field: self.field@,
            rank: self.rank as int,
        }
    }
}

pub open spec fn marks_model(v: Seq<EditMark>) -> Seq<MarkModel> {
    Seq::new(v.len(), |i: int| v[i]@)
}

/// The number of the first mark of an edit from `k` on; the number of marks if
/// there is none.
pub open spec fn mark_at(v: Seq<MarkModel>, id: Seq<char>, k: int) -> int
    decreases v.len() - k,
{
    if k >= v.len() || v[k].id == id {
        k
    } else {
        mark_at(v, id, k + 1)
    }
}

/// How far an edit has come here; nothing if it is not known.
pub open spec fn rank_here(v: Seq<MarkModel>, id: Seq<char>) -> Option<int> {
    let k = mark_at(v, id, 0);
    if k < v.len() {
        Some(v[k].rank)
    } else {
        None
    }
}

/// An edit that came is taken: it is of this team and a note, and it is new or
/// has come further than it had here.
pub open spec fn takes(v: Seq<MarkModel>, team_id: Seq<char>, e: MarkModel) -> bool {
    e.team_id == team_id && e.field == "note"@ && match rank_here(v, e.id) {
        Some(r) => e.rank > r,
        None => true,
    }
}

/// The marks after one more edit came. An edit that is known keeps its team and
/// its field.
pub open spec fn with_edit(v: Seq<MarkModel>, team_id: Seq<char>, e: MarkModel) -> Seq<MarkModel> {
    let k = mark_at(v, e.id, 0);
    if !takes(v, team_id, e) {
        v
    } else if k < v.len() {
        v.update(k, MarkModel { rank: e.rank, ..v[k] })
    } else {
        v.push(e)
    }
}

/// The marks after some edits came, one after the other.
pub open spec fn with_edits(
    v: Seq<MarkModel>,
    team_id: Seq<char>,
    incoming: Seq<MarkModel>,
) -> Seq<MarkModel>
    decreases incoming.len(),
{
    if incoming.len() == 0 {
        v
    } else {
        with_edit(with_edits(v, team_id, incoming.drop_last()), team_id, incoming.last())
    }
}

/// For each edit that came whether it is taken.
pub open spec fn taken_edits(
    v: Seq<MarkModel>,
    team_id: Seq<char>,
    incoming: Seq<MarkModel>,
) -> Seq<bool>
    decreases incoming.len(),
{
    if incoming.len() == 0 {
        Seq::empty()
    } else {
        taken_edits(v, team_id, incoming.drop_last()).push(
            takes(with_edits(v, team_id, incoming.drop_last()), team_id, incoming.last()),
        )
    }
}

proof fn lemma_mark_at(v: Seq<MarkModel>, id: Seq<char>, k: int)
    requires
        0 <= k <= v.len(),
    ensures
        k <= mark_at(v, id, k) <= v.len(),
        mark_at(v, id, k) < v.len() ==> v[mark_at(v, id, k)].id == id,
        forall|i: int| k <= i < mark_at(v, id, k) ==> (#[trigger] v[i]).id != id,
    decreases v.len() - k,
{
    if k < v.len() && v[k].id != id {
        lemma_mark_at(v, id, k + 1);
    }
}

/// No edit falls back when another comes, one that is taken stands where it came
/// to, and no other edit changes.
pub proof fn edits_never_fall_back(
    v: Seq<MarkModel>,
    team_id: Seq<char>,
    e: MarkModel,
    id: Seq<char>,
)
    ensures
        ({
            let before = rank_here(v, id);
            let after = rank_here(with_edit(v, team_id, e), id);
            &&& before matches Some(b) ==> (after matches Some(a) && a >= b)
            &&& takes(v, team_id, e) && id == e.id ==> after == Some(e.rank)
            &&& id != e.id ==> after == before
        }),
{
    let w = with_edit(v, team_id, e);
    lemma_mark_at(v, id, 0);
    lemma_mark_at(w, id, 0);
    lemma_mark_at(v, e.id, 0);
    let k = mark_at(v, id, 0);
    let j = mark_at(w, id, 0);
    let m = mark_at(v, e.id, 0);
    if takes(v, team_id, e) {
        assert(w[m].id == e.id && w[m].rank == e.rank);
        if id == e.id {
            if j < m {
                assert(w[j] == v[j]);
            }
        } else {
            if k < v.len() {
                assert(w[k] == v[k]);
                if j < k {
                    if j != m {
                        assert(w[j] == v[j]);
                    }
                }
            } else if j < w.len() {
                if j < v.len() && j != m {
                    assert(w[j] == v[j]);
                }
            }
        }
    }
}

/// An edit that came and would be taken if it were new has come here at least as
/// far, once all edits came.
proof fn lemma_edits_reach(
    v: Seq<MarkModel>,
    team_id: Seq<char>,
    incoming: Seq<MarkModel>,
    i: int,
)
    requires
        0 <= i < incoming.len(),
        incoming[i].team_id == team_id,
        incoming[i].field == "note"@,
    ensures
        rank_here(with_edits(v, team_id, incoming), incoming[i].id) matches Some(r) && r
            >= incoming[i].rank,
    decreases incoming.len(),
{
    let before = with_edits(v, team_id, incoming.drop_last());
    edits_never_fall_back(before, team_id, incoming.last(), incoming[i].id);
    if i < incoming.len() - 1 {
        lemma_edits_reach(v, team_id, incoming.drop_last(), i);
    }
}

proof fn lemma_nothing_taken(v: Seq<MarkModel>, team_id: Seq<char>, incoming: Seq<MarkModel>)
    requires
        forall|i: int| 0 <= i < incoming.len() ==> !takes(v, team_id, #[trigger] incoming[i]),
    ensures
        with_edits(v, team_id, incoming) == v,
        forall|i: int|
            0 <= i < incoming.len() ==> !(#[trigger] taken_edits(v, team_id, incoming)[i]),
        taken_edits(v, team_id, incoming).len() == incoming.len(),
    decreases incoming.len(),
{
    if incoming.len() > 0 {
        let before = incoming.drop_last();
        assert forall|i: int| 0 <= i < before.len() implies !takes(
            v,
            team_id,
            #[trigger] before[i],
        ) by {
            assert(before[i] == incoming[i]);
        }
        lemma_nothing_taken(v, team_id, before);
        assert(incoming.last() == incoming[incoming.len() - 1]);
    }
}

/// Edits that came once change nothing when they come again.
pub proof fn second_edits_change_nothing(
    v: Seq<MarkModel>,
    team_id: Seq<char>,
    incoming: Seq<MarkModel>,
)
    ensures
        ({
            let after = with_edits(v, team_id, incoming);
            &&& with_edits(after, team_id, incoming) == after
            &&& forall|i: int|
                0 <= i < incoming.len() ==> !(#[trigger] taken_edits(after, team_id, incoming)[i])
        }),
{
    let after = with_edits(v, team_id, incoming);
    assert forall|i: int| 0 <= i < incoming.len() implies !takes(
        after,
        team_id,
        #[trigger] incoming[i],
    ) by {
        if incoming[i].team_id == team_id && incoming[i].field == "note"@ {
            lemma_edits_reach(v, team_id, incoming, i);
        }
    }
    lemma_nothing_taken(after, team_id, incoming);
}

fn find_mark(v: &Vec<EditMark>, id: &str) -> (r: usize)
    ensures
        r == mark_at(marks_model(v@), id@, 0),
        r <= v@.len(),
{
    let n: usize = v.len();
    let ghost all = marks_model(v@);
    let mut k: usize = 0;
    while k < n && !same_text(v[k].id.as_str(), id)
        invariant
            k <= n,
            n == v@.len(),
            all == marks_model(v@),
            mark_at(all, id@, 0) == mark_at(all, id@, k as int),
        decreases n - k,
    {
        assert(all[k as int].id == v@[k as int].id@);
        k = k + 1;
    }
    proof {
        if k < n {
            assert(all[k as int].id == v@[k as int].id@);
        }
    }
    k
}

/// A mark with a rank.
fn copy_mark(m: &EditMark, rank: i64) -> (r: EditMark)
    ensures
        r@ == (MarkModel { rank: rank as int, ..m@ }),
{
    EditMark {
        id: String::from_str(m.id.as_str()),
        team_id: String::from_str(m.team_id.as_str()),
        field: String::from_str(m.field.as_str()),
        rank,
    }
}

/// Takes the edits that came and are new or have come further than they had
/// here. Says of each whether it was taken.
pub fn merge_edits(here: &mut Vec<EditMark>, team_id: &str, incoming: &Vec<EditMark>) -> (r: Vec<
    bool,
>)
    ensures
        marks_model(final(here)@) == with_edits(
            marks_model(old(here)@),
            team_id@,
            marks_model(incoming@),
        ),
        r@ == taken_edits(marks_model(old(here)@), team_id@, marks_model(incoming@)),
{
    let ghost start = marks_model(here@);
    let ghost all = marks_model(incoming@);
    let n: usize = incoming.len();
    let mut taken: Vec<bool> = Vec::new();
    let mut i: usize = 0;
    assert(all.subrange(0, 0) =~= Seq::<MarkModel>::empty());
    while i < n
        invariant
            i <= n,
            n == incoming@.len(),
            all == marks_model(incoming@),
            marks_model(here@) == with_edits(start, team_id@, all.subrange(0, i as int)),
            taken@ == taken_edits(start, team_id@, all.subrange(0, i as int)),
        decreases n - i,
    {
        assert(all.subrange(0, i + 1).drop_last() =~= all.subrange(0, i as int));
        assert(all.subrange(0, i + 1).last() == incoming@[i as int]@);
        let ghost before = marks_model(here@);
        let e = &incoming[i];
        let k: usize = find_mark(here, e.id.as_str());
        let known: Option<i64> = if k < here.len() {
            assert(before[k as int].rank == here@[k as int].rank);
            Some(here[k].rank)
        } else {
            None
        };
        let take = same_text(e.team_id.as_str(), team_id) && takes_edit(
            e.field.as_str(),
            e.rank,
            known,
        );
        if take {
            if k < here.len() {
                let further = copy_mark(&here[k], e.rank);
                here.set(k, further);
                assert(marks_model(here@) =~= before.update(k as int, further@));
            } else {
                here.push(copy_mark(e, e.rank));
                assert(marks_model(here@) =~= before.push(e@));
            }
        }
        taken.push(take);
        i = i + 1;
    }
    assert(all.subrange(0, i as int) =~= all);
    taken
}

/// An edit of another team, or of anything but a note, changes nothing. A new note
/// is taken as it came. Of one that is known only the rank changes, and only if it
/// has come further.
pub proof fn notes_of_the_team_are_taken(
    v: Seq<MarkModel>,
    team_id: Seq<char>,
    e: MarkModel,
    k: int,
)
    ensures
        e.team_id != team_id || e.field != "note"@ ==> with_edit(v, team_id, e) == v,
        e.team_id == team_id && e.field == "note"@ && (forall|i: int|
            0 <= i < v.len() ==> (#[trigger] v[i]).id != e.id) ==> with_edit(v, team_id, e)
            == v.push(e),
        e.team_id == team_id && e.field == "note"@ && 0 <= k < v.len() && v[k].id == e.id && (
        forall|i: int| 0 <= i < k ==> (#[trigger] v[i]).id != e.id) ==> {
            let after = with_edit(v, team_id, e);
            &&& e.rank <= v[k].rank ==> after == v
            &&& e.rank > v[k].rank ==> after.len() == v.len() && after[k].rank == e.rank
                && after[k].id == v[k].id && after[k].team_id == v[k].team_id && after[k].field
                == v[k].field && forall|i: int|
                0 <= i < v.len() && i != k ==> #[trigger] after[i] == v[i]
        },
{
    lemma_mark_at(v, e.id, 0);
    let at = mark_at(v, e.id, 0);
    if at < v.len() {
        assert(v[at].id == e.id);
    }
    if 0 <= k < v.len() && v[k].id == e.id && (forall|i: int|
        0 <= i < k ==> (#[trigger] v[i]).id != e.id) {
        if at < k {
            assert(v[at].id != e.id);
        }
        if k < at {
            assert(v[k].id != e.id);
        }
    }
}

} // verus!
