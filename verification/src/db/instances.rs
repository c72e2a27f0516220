//! The levels of court that a case went through.
use vstd::prelude::*;
use crate::text::same_text;
use crate::text_order::{comes_before, text_before, text_order_is_total, text_order_is_transitive};

verus! {

/// A level. The one with the highest number is the current one.
pub struct CaseInstance {
    pub id: String,
    pub case_id: String,
    pub level: String,
    pub seq: i64,
    pub case_no: Option<String>,
    pub authority: Option<String>,
    pub authority_type: Option<String>,
    pub handlers: Option<String>,
    pub party_roles: Option<String>,
    pub filed_at: Option<String>,
    pub result: Option<String>,
    pub note: Option<String>,
    pub is_current: bool,
    /// `llm` if it was read from documents, `user` if the user entered or
    /// changed it.
    pub source: String,
    pub created_at: String,
    pub updated_at: String,
}

/// A level that is to be entered.
pub struct NewInstance {
    pub level: String,
    pub seq: i64,
    pub case_no: Option<String>,
    pub authority: Option<String>,
    pub authority_type: Option<String>,
    pub handlers: Option<String>,
    pub party_roles: Option<String>,
    pub filed_at: Option<String>,
    pub result: Option<String>,
    pub note: Option<String>,
}

/// What is in a row was entered as such.
pub open spec fn holds(row: CaseInstance, it: NewInstance) -> bool {
    row.level == it.level && row.seq == it.seq && row.case_no == it.case_no && row.authority
        == it.authority && row.authority_type == it.authority_type && row.handlers == it.handlers
        && row.party_roles == it.party_roles && row.filed_at == it.filed_at && row.result
        == it.result && row.note == it.note
}

impl NewInstance {
    /// The row that is entered.
    pub fn into_row(self, id: &str, case_id: &str, source: &str, now: &str) -> (r: CaseInstance)
        ensures
            holds(r, self),
            r.id@ == id@,
            r.case_id@ == case_id@,
            r.source@ == source@,
            !r.is_current,
            r.created_at@ == now@,
            r.updated_at@ == now@,
    {
        CaseInstance {
            id: String::from_str(id),
            case_id: String::from_str(case_id),
            level: self.level,
            seq: self.seq,
            case_no: self.case_no,
            authority: self.authority,
            authority_type: self.authority_type,
            handlers: self.handlers,
            party_roles: self.party_roles,
            filed_at: self.filed_at,
            result: self.result,
            note: self.note,
            is_current: false,
            source: String::from_str(source),
            created_at: String::from_str(now),
            updated_at: String::from_str(now),
        }
    }
}

impl CaseInstance {
    /// Replaces what the row holds by what the user entered. From then on it is
    /// the user's, and reading the documents again does not touch it.
    pub fn change(&mut self, it: NewInstance, now: &str)
        ensures
            holds(*final(self), it),
            final(self).id == old(self).id,
            final(self).case_id == old(self).case_id,
            final(self).is_current == old(self).is_current,
            final(self).created_at == old(self).created_at,
            final(self).source@ == "user"@,
            final(self).updated_at@ == now@,
    {
        self.level = it.level;
        self.seq = it.seq;
        self.case_no = it.case_no;
        self.authority = it.authority;
        self.authority_type = it.authority_type;
        self.handlers = it.handlers;
        self.party_roles = it.party_roles;
        self.filed_at = it.filed_at;
        self.result = it.result;
        self.note = it.note;
        self.source = String::from_str("user");
        self.updated_at = String::from_str(now);
    }
}

/// One row comes after another: its number is higher, or they are equal and it
/// was made later.
pub open spec fn comes_after(a: CaseInstance, b: CaseInstance) -> bool {
    a.seq > b.seq || (a.seq == b.seq && text_before(b.created_at@, a.created_at@))
}

/// The first of the first `n` rows that no other of them comes after.
pub open spec fn current_of(rows: Seq<CaseInstance>, n: int) -> int
    decreases n,
{
    if n <= 1 {
        0
    } else {
        let c = current_of(rows, n - 1);
        if comes_after(rows[n - 1], rows[c]) {
            n - 1
        } else {
            c
        }
    }
}

proof fn lemma_current(rows: Seq<CaseInstance>, n: int)
    requires
        0 < n <= rows.len(),
    ensures
        0 <= current_of(rows, n) < n,
        forall|i: int| 0 <= i < n ==> !comes_after(#[trigger] rows[i], rows[current_of(rows, n)]),
    decreases n,
{
    if n == 1 {
        text_order_is_total(rows[0].created_at@, rows[0].created_at@);
    } else {
        lemma_current(rows, n - 1);
        let c = current_of(rows, n - 1);
        let d = current_of(rows, n);
        assert forall|i: int| 0 <= i < n implies !comes_after(#[trigger] rows[i], rows[d]) by {
            text_order_is_total(rows[i].created_at@, rows[d].created_at@);
            text_order_is_total(rows[d].created_at@, rows[d].created_at@);
            if d == n - 1 && i < n - 1 {
                assert(!comes_after(rows[i], rows[c]));
                if comes_after(rows[i], rows[d]) {
                    if rows[i].seq == rows[d].seq && rows[d].seq == rows[c].seq {
                        text_order_is_transitive(
                            rows[c].created_at@,
                            rows[d].created_at@,
                            rows[i].created_at@,
                        );
                    }
                }
            }
        }
    }
}

/// The rows are the same but for which of them is current.
pub open spec fn same_but_current(a: CaseInstance, b: CaseInstance) -> bool {
    a.id == b.id && a.case_id == b.case_id && a.level == b.level && a.seq == b.seq && a.case_no
        == b.case_no && a.authority == b.authority && a.authority_type == b.authority_type
        && a.handlers == b.handlers && a.party_roles == b.party_roles && a.filed_at == b.filed_at
        && a.result == b.result && a.note == b.note && a.source == b.source && a.created_at
        == b.created_at && a.updated_at == b.updated_at
}

/// Marks the row with the highest number, of several the one made last, as the
/// current one, and no other.
pub fn recompute_current(rows: Vec<CaseInstance>) -> (r: Vec<CaseInstance>)
    ensures
        r@ == marked(rows@),
        forall|i: int| 0 <= i < r@.len() ==> same_but_current(#[trigger] r@[i], rows@[i]),
        forall|i: int|
            0 <= i < r@.len() ==> (#[trigger] r@[i]).is_current == (i == current_of(
                rows@,
                rows@.len() as int,
            )),
        forall|i: int, j: int|
            0 <= i < r@.len() && 0 <= j < r@.len() && (#[trigger] r@[i]).is_current
                ==> !comes_after(#[trigger] r@[j], r@[i]),
{
    let n: usize = rows.len();
    if n == 0 {
        assert(rows@ =~= marked(rows@));
        return rows;
    }
    let mut c: usize = 0;
    let mut i: usize = 1;
    while i < n
        invariant
            1 <= i <= n,
            n == rows@.len(),
            c < i,
            c == current_of(rows@, i as int),
        decreases n - i,
    {
        if rows[i].seq > rows[c].seq || (rows[i].seq == rows[c].seq && comes_before(
            rows[c].created_at.as_str(),
            rows[i].created_at.as_str(),
        )) {
            c = i;
        }
        i = i + 1;
    }
    proof {
        lemma_current(rows@, n as int);
    }
    let ghost given = rows@;
    let mut rest = rows;
    let mut turned: Vec<CaseInstance> = Vec::new();
    while rest.len() > 0
        invariant
            n == given.len(),
            c < n,
            turned@.len() + rest@.len() == n,
            forall|k: int| 0 <= k < rest@.len() ==> rest@[k] == given[k],
            forall|k: int|
                0 <= k < turned@.len() ==> same_but_current(
                    #[trigger] turned@[k],
                    given[n - 1 - k],
                ) && turned@[k].is_current == (n - 1 - k == c),
        decreases rest@.len(),
    {
        let at: usize = rest.len() - 1;
        let x = rest.pop().unwrap();
        turned.push(CaseInstance { is_current: at == c, ..x });
    }
    let mut out: Vec<CaseInstance> = Vec::new();
    let ghost back = turned@;
    while turned.len() > 0
        invariant
            n == given.len(),
            back.len() == n,
            out@.len() + turned@.len() == n,
            forall|k: int| 0 <= k < turned@.len() ==> turned@[k] == back[k],
            forall|k: int| 0 <= k < out@.len() ==> out@[k] == back[n - 1 - k],
        decreases turned@.len(),
    {
        let x = turned.pop().unwrap();
        out.push(x);
    }
    assert forall|k: int| 0 <= k < out@.len() implies same_but_current(#[trigger] out@[k], given[k])
        && out@[k].is_current == (k == c) by {
        assert(out@[k] == back[n - 1 - k]);
    }
    assert forall|a: int, b: int|
        0 <= a < out@.len() && 0 <= b < out@.len() && (
        #[trigger] out@[a]).is_current implies !comes_after(#[trigger] out@[b], out@[a]) by {
        assert(same_but_current(out@[a], given[a]));
        assert(same_but_current(out@[b], given[b]));
        assert(!comes_after(given[b], given[c as int]));
    }
    assert(out@ =~= marked(given));
    out
}

/// The rows that the user entered or changed, in order.
pub open spec fn user_rows(rows: Seq<CaseInstance>) -> Seq<CaseInstance>
    decreases rows.len(),
{
    if rows.len() == 0 {
        Seq::empty()
    } else if rows.last().source@ == "llm"@ {
        user_rows(rows.drop_last())
    } else {
        user_rows(rows.drop_last()).push(rows.last())
    }
}

/// The rows with the current one marked.
pub open spec fn marked(rows: Seq<CaseInstance>) -> Seq<CaseInstance> {
    Seq::new(
        rows.len(),
        |i: int|
            CaseInstance { is_current: i == current_of(rows, rows.len() as int), ..rows[i] },
    )
}

/// One row is listed before another: its number is higher, or they are equal and
/// it was made earlier.
pub open spec fn listed_before(a: CaseInstance, b: CaseInstance) -> bool {
    a.seq > b.seq || (a.seq == b.seq && text_before(a.created_at@, b.created_at@))
}

/// The first place at or behind `p` whose row is listed after `x`.
pub open spec fn list_slot(rows: Seq<CaseInstance>, x: CaseInstance, p: int) -> int
    decreases rows.len() - p,
{
    if p >= rows.len() || listed_before(x, rows[p]) {
        p
    } else {
        list_slot(rows, x, p + 1)
    }
}

/// The rows as they are listed: the highest number first, of equal numbers the
/// one that was made first, and of rows made at one time the one that came first.
pub open spec fn listed(rows: Seq<CaseInstance>) -> Seq<CaseInstance>
    decreases rows.len(),
{
    if rows.len() == 0 {
        Seq::empty()
    } else {
        let o = listed(rows.drop_last());
        o.insert(list_slot(o, rows.last(), 0), rows.last())
    }
}

proof fn lemma_list_slot(rows: Seq<CaseInstance>, x: CaseInstance, p: int)
    requires
        0 <= p <= rows.len(),
    ensures
        p <= list_slot(rows, x, p) <= rows.len(),
        list_slot(rows, x, p) < rows.len() ==> listed_before(x, rows[list_slot(rows, x, p)]),
        forall|q: int| p <= q < list_slot(rows, x, p) ==> !listed_before(x, #[trigger] rows[q]),
    decreases rows.len() - p,
{
    if p < rows.len() && !listed_before(x, rows[p]) {
        lemma_list_slot(rows, x, p + 1);
    }
}

/// A row that is listed before one is not listed after another that the one is
/// not listed after.
proof fn lemma_listed_before(a: CaseInstance, b: CaseInstance, c: CaseInstance)
    requires
        listed_before(a, b),
        !listed_before(c, b),
    ensures
        !listed_before(c, a),
{
    let (x, y, z) = (a.created_at@, b.created_at@, c.created_at@);
    if listed_before(c, a) && a.seq == b.seq && c.seq == a.seq {
        text_order_is_transitive(z, x, y);
    }
}

/// What is listed holds the same rows as before, and no row is listed before one
/// on its left.
pub proof fn lists_are_in_order(rows: Seq<CaseInstance>)
    ensures
        listed(rows).len() == rows.len(),
        listed(rows).to_multiset() == rows.to_multiset(),
        forall|i: int, j: int|
            0 <= i < j < rows.len() ==> !listed_before(
                #[trigger] listed(rows)[j],
                #[trigger] listed(rows)[i],
            ),
    decreases rows.len(),
{
    broadcast use vstd::seq_lib::group_to_multiset_ensures;

    if rows.len() > 0 {
        let t = rows.drop_last();
        lists_are_in_order(t);
        let o = listed(t);
        let x = rows.last();
        let p = list_slot(o, x, 0);
        lemma_list_slot(o, x, 0);
        o.insert_ensures(p, x);
        let w = listed(rows);
        assert(rows =~= t.push(x));
        assert forall|i: int, j: int| 0 <= i < j < rows.len() implies !listed_before(
            #[trigger] w[j],
            #[trigger] w[i],
        ) by {
            let oi = if i < p { i } else { i - 1 };
            let oj = if j < p { j } else { j - 1 };
            if i != p && j != p {
                assert(w[i] == o[oi] && w[j] == o[oj]);
            } else if j == p {
                assert(w[i] == o[i]);
            } else {
                assert(w[j] == o[j - 1]);
                text_order_is_total(x.created_at@, o[p].created_at@);
                if j - 1 > p {
                    assert(!listed_before(o[j - 1], o[p]));
                    lemma_listed_before(x, o[p], o[j - 1]);
                }
            }
        }
        assert(w =~= o.insert(p, x));
        assert(o.insert(p, x).to_multiset() =~= o.to_multiset().insert(x));
        assert(w.to_multiset() =~= rows.to_multiset());
    } else {
        assert(listed(rows) =~= rows);
    }
}

/// Puts rows into the order in which they are listed.
pub fn list_instances(rows: Vec<CaseInstance>) -> (r: Vec<CaseInstance>)
    ensures
        r@ == listed(rows@),
{
    let ghost given = rows@;
    let mut rest = rows;
    let mut turned: Vec<CaseInstance> = Vec::new();
    while rest.len() > 0
        invariant
            turned@.len() + rest@.len() == given.len(),
            forall|k: int| 0 <= k < rest@.len() ==> rest@[k] == given[k],
            forall|k: int| 0 <= k < turned@.len() ==> turned@[k] == given[given.len() - 1 - k],
        decreases rest@.len(),
    {
        let x = rest.pop().unwrap();
        turned.push(x);
    }
    let mut out: Vec<CaseInstance> = Vec::new();
    let ghost mut done: int = 0;
    assert(out@ =~= listed(given.subrange(0, 0)));
    while turned.len() > 0
        invariant
            0 <= done <= given.len(),
            done + turned@.len() == given.len(),
            forall|k: int| 0 <= k < turned@.len() ==> turned@[k] == given[given.len() - 1 - k],
            out@ == listed(given.subrange(0, done)),
        decreases turned@.len(),
    {
        assert(turned@.last() == given[done]);
        assert(given.subrange(0, done + 1).drop_last() =~= given.subrange(0, done));
        let x = turned.pop().unwrap();
        let n: usize = out.len();
        let mut p: usize = 0;
        while p < n && !(x.seq > out[p].seq || (x.seq == out[p].seq && comes_before(
            x.created_at.as_str(),
            out[p].created_at.as_str(),
        )))
            invariant
                p <= n,
                n == out@.len(),
                list_slot(out@, x, 0) == list_slot(out@, x, p as int),
            decreases n - p,
        {
            p = p + 1;
        }
        proof {
            lemma_list_slot(out@, x, 0);
        }
        out.insert(p, x);
        proof {
            done = done + 1;
        }
    }
    assert(given.subrange(0, done) =~= given);
    out
}

/// The rows after the documents were read again: what was read before gives way
/// to what was read now, and what is the user's stays. They come as they are
/// listed.
pub fn replace_llm_instances(rows: Vec<CaseInstance>, fresh: Vec<CaseInstance>) -> (r: Vec<
    CaseInstance,
>)
    ensures
        r@ == listed(marked(user_rows(rows@) + fresh@)),
{
    let ghost given = rows@;
    let mut rest = rows;
    let mut turned: Vec<CaseInstance> = Vec::new();
    while rest.len() > 0
        invariant
            turned@.len() + rest@.len() == given.len(),
            forall|k: int| 0 <= k < rest@.len() ==> rest@[k] == given[k],
            forall|k: int| 0 <= k < turned@.len() ==> turned@[k] == given[given.len() - 1 - k],
        decreases rest@.len(),
    {
        let x = rest.pop().unwrap();
        turned.push(x);
    }
    let mut kept: Vec<CaseInstance> = Vec::new();
    let ghost mut done: int = 0;
    assert(kept@ =~= user_rows(given.subrange(0, 0)));
    while turned.len() > 0
        invariant
            0 <= done <= given.len(),
            done + turned@.len() == given.len(),
            forall|k: int| 0 <= k < turned@.len() ==> turned@[k] == given[given.len() - 1 - k],
            kept@ == user_rows(given.subrange(0, done)),
        decreases turned@.len(),
    {
        assert(turned@.last() == given[done]);
        assert(given.subrange(0, done + 1).drop_last() =~= given.subrange(0, done));
        let x = turned.pop().unwrap();
        if !same_text(x.source.as_str(), "llm") {
            kept.push(x);
        }
        proof {
            done = done + 1;
        }
    }
    assert(given.subrange(0, done) =~= given);
    let mut fresh = fresh;
    kept.append(&mut fresh);
    list_instances(recompute_current(kept))
}

/// Exactly one of the rows is current: none has a higher number, and of those with
/// the same number none was made later, nor one on its left at the same time. All
/// else stays as it is.
pub proof fn exactly_one_row_is_current(rows: Seq<CaseInstance>) -> (c: int)
    requires
        rows.len() > 0,
    ensures
        0 <= c < rows.len(),
        marked(rows).len() == rows.len(),
        forall|i: int|
            0 <= i < rows.len() ==> ((#[trigger] marked(rows)[i]).is_current <==> i == c),
        forall|i: int|
            0 <= i < rows.len() ==> (#[trigger] rows[i]).seq <= rows[c].seq && (rows[i].seq
                == rows[c].seq ==> !text_before(rows[c].created_at@, rows[i].created_at@)),
        forall|i: int|
            0 <= i < c && (#[trigger] rows[i]).seq == rows[c].seq ==> rows[i].created_at@
                != rows[c].created_at@,
        forall|i: int|
            0 <= i < rows.len() ==> (#[trigger] marked(rows)[i]) == (CaseInstance {
                is_current: i == c,
                ..rows[i]
            }),
{
    let c = current_of(rows, rows.len() as int);
    lemma_current(rows, rows.len() as int);
    lemma_first_of_equals(rows, rows.len() as int);
    assert forall|i: int| 0 <= i < rows.len() implies (#[trigger] rows[i]).seq <= rows[c].seq && (
    rows[i].seq == rows[c].seq ==> !text_before(rows[c].created_at@, rows[i].created_at@)) by {
        assert(!comes_after(rows[i], rows[c]));
    }
    c
}

proof fn lemma_first_of_equals(rows: Seq<CaseInstance>, n: int)
    requires
        0 < n <= rows.len(),
    ensures
        forall|i: int|
            0 <= i < current_of(rows, n) && (#[trigger] rows[i]).seq == rows[current_of(
                rows,
                n,
            )].seq ==> rows[i].created_at@ != rows[current_of(rows, n)].created_at@,
    decreases n,
{
    if n > 1 {
        lemma_first_of_equals(rows, n - 1);
        lemma_current(rows, n - 1);
        let c = current_of(rows, n - 1);
        if comes_after(rows[n - 1], rows[c]) {
            assert forall|i: int|
                0 <= i < n - 1 && (#[trigger] rows[i]).seq == rows[n
                    - 1].seq implies rows[i].created_at@ != rows[n - 1].created_at@ by {
                assert(!comes_after(rows[i], rows[c]));
            }
        }
    }
}

/// What the user entered or changed stays when the documents are read again, what
/// was read before gives way, and what was read now is there. Nothing else is.
pub proof fn what_the_user_entered_stays(
    rows: Seq<CaseInstance>,
    fresh: Seq<CaseInstance>,
    row: CaseInstance,
)
    ensures
        ({
            let all = user_rows(rows) + fresh;
            &&& rows.contains(row) && row.source@ != "llm"@ ==> all.contains(row)
            &&& fresh.contains(row) ==> all.contains(row)
            &&& all.contains(row) ==> fresh.contains(row) || (rows.contains(row) && row.source@
                != "llm"@)
            &&& listed(marked(all)).to_multiset() == marked(all).to_multiset()
            &&& listed(marked(all)).len() == all.len()
        }),
{
    let all = user_rows(rows) + fresh;
    lemma_user_rows(rows, row);
    lists_are_in_order(marked(all));
    if user_rows(rows).contains(row) {
        let k = choose|k: int| 0 <= k < user_rows(rows).len() && user_rows(rows)[k] == row;
        assert(all[k] == row);
    }
    if fresh.contains(row) {
        let k = choose|k: int| 0 <= k < fresh.len() && fresh[k] == row;
        assert(all[user_rows(rows).len() + k] == row);
    }
    if all.contains(row) {
        let k = choose|k: int| 0 <= k < all.len() && all[k] == row;
        if k < user_rows(rows).len() {
            assert(user_rows(rows)[k] == row);
        } else {
            assert(fresh[k - user_rows(rows).len()] == row);
        }
    }
}

proof fn lemma_user_rows(rows: Seq<CaseInstance>, row: CaseInstance)
    ensures
        user_rows(rows).contains(row) <==> rows.contains(row) && row.source@ != "llm"@,
    decreases rows.len(),
{
    if rows.len() > 0 {
        let t = rows.drop_last();
        lemma_user_rows(t, row);
        let u = user_rows(t);
        if rows.contains(row) {
            let k = choose|k: int| 0 <= k < rows.len() && rows[k] == row;
            if k < t.len() {
                assert(t[k] == row);
            }
        }
        if t.contains(row) {
            let k = choose|k: int| 0 <= k < t.len() && t[k] == row;
            assert(rows[k] == row);
        }
        assert(rows[rows.len() - 1] == rows.last());
        let w = u.push(rows.last());
        assert(w[u.len() as int] == rows.last());
        if u.contains(row) {
            let k = choose|k: int| 0 <= k < u.len() && u[k] == row;
            assert(w[k] == row);
        }
        if w.contains(row) {
            let k = choose|k: int| 0 <= k < w.len() && w[k] == row;
            if k < u.len() {
                assert(u[k] == row);
            }
        }
    }
}

/// A row shows every field that was entered.
pub proof fn every_field_is_entered(row: CaseInstance, it: NewInstance)
    requires
        holds(row, it),
    ensures
        row.level@ == it.level@,
        row.seq == it.seq,
        row.case_no == it.case_no,
        row.authority == it.authority,
        row.authority_type == it.authority_type,
        row.handlers == it.handlers,
        row.party_roles == it.party_roles,
        row.filed_at == it.filed_at,
        row.result == it.result,
        row.note == it.note,
{
}

} // verus!
