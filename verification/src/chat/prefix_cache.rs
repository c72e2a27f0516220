//! Watching the part of a request that should not change.
//!
//! A provider caches the prefix of a request, so the system prompt and the
//! tools should stay as they are. Their digests tell when they did not.
use vstd::prelude::*;
use vstd::utf8::*;
use crate::bytes::{lemma_ascii_boundary, slice_text};
use crate::json::{compact, compact_json, Json};
use crate::local_kb::hash::{is_hex, md5_digest, md5_hex};
use crate::text::{join, join_texts, same_text, texts};
use crate::text_order::{sort_texts, sorted_texts, sorting_forgets_order, sorting_sorts};

verus! {

/// The digests of a prefix: of the system prompt, of the tools, and of both.
pub struct PrefixFingerprint {
    pub system: String,
    pub tools: String,
    pub combined: String,
}

/// A fingerprint as data.
pub struct FingerprintModel {
    pub system: Seq<char>,
    pub tools: Seq<char>,
    pub combined: Seq<char>,
}

impl View for PrefixFingerprint {
    type V = FingerprintModel;

    open spec fn view(&self) -> FingerprintModel {
        FingerprintModel { system: self.system@, tools: self.tools@, combined: self.combined@ }
    }
}

/// The texts of the tools, as far as they can be written.
pub open spec fn tool_texts(tools: Seq<Json>) -> Seq<Seq<char>>
    decreases tools.len(),
{
    if tools.len() == 0 {
        Seq::empty()
    } else {
        match compact(tools.last()@) {
            Ok(t) => tool_texts(tools.drop_last()).push(t),
            Err(_) => tool_texts(tools.drop_last()),
        }
    }
}

/// What is digested of the tools: their texts, sorted, a line each.
pub open spec fn tools_text(tools: Seq<Seq<char>>) -> Seq<char> {
    join(sorted_texts(tools), "\n"@)
}

/// The fingerprint of a system prompt and the texts of tools.
pub open spec fn fingerprint(system: Seq<char>, tools: Seq<Seq<char>>) -> FingerprintModel {
    let s = md5_digest(encode_utf8(system));
    let t = md5_digest(encode_utf8(tools_text(tools)));
    FingerprintModel { system: s, tools: t, combined: md5_digest(encode_utf8(s + ":"@ + t)) }
}

/// The order in which tools are registered does not matter.
pub proof fn fingerprint_forgets_tool_order(
    system: Seq<char>,
    a: Seq<Seq<char>>,
    b: Seq<Seq<char>>,
)
    requires
        a.to_multiset() == b.to_multiset(),
    ensures
        fingerprint(system, a) == fingerprint(system, b),
{
    sorting_forgets_order(a, b);
}

/// The first twelve bytes, or all if there are fewer.
pub open spec fn first12(s: Seq<char>) -> Seq<char> {
    if encode_utf8(s).len() >= 12 {
        decode_utf8(encode_utf8(s).subrange(0, 12))
    } else {
        s
    }
}

/// No character stands on both sides of the twelfth byte.
pub open spec fn parts_at_12(s: Seq<char>) -> bool {
    encode_utf8(s).len() >= 12 ==> is_char_boundary(encode_utf8(s), 12)
}

/// The first twelve bytes, or all if there are fewer.
pub fn short12(s: &str) -> (r: &str)
    requires
        parts_at_12(s@),
    ensures
        r@ == first12(s@),
{
    if s.as_bytes().len() >= 12 {
        proof {
            encode_utf8_valid_utf8(s@);
            is_char_boundary_start_end_of_seq(encode_utf8(s@));
        }
        slice_text(s, 0, 12)
    } else {
        s
    }
}

/// A digest can be cut anywhere.
proof fn lemma_digest_parts(s: Seq<char>)
    requires
        s.len() == 32,
        forall|i: int| 0 <= i < s.len() ==> is_hex(#[trigger] s[i]),
    ensures
        parts_at_12(s),
{
    assert(is_ascii_chars(s));
    is_ascii_chars_encode_utf8(s);
    encode_utf8_valid_utf8(s);
    assert(s[12] as u8 == encode_utf8(s)[12]);
    lemma_ascii_boundary(encode_utf8(s), 12);
}

/// Each digest of a fingerprint can be shown in short.
pub open spec fn shortens(fp: FingerprintModel) -> bool {
    parts_at_12(fp.system) && parts_at_12(fp.tools) && parts_at_12(fp.combined)
}

impl PrefixFingerprint {
    /// The fingerprint of a system prompt and tools. Tools are sorted by their
    /// texts first.
    pub fn compute(system_text: &str, tools: &Vec<Json>) -> (r: Self)
        ensures
            r@ == fingerprint(system_text@, tool_texts(tools@)),
            shortens(r@),
    {
        let system = md5_hex(system_text.as_bytes());
        let mut serialized: Vec<String> = Vec::new();
        let mut i: usize = 0;
        assert(texts(serialized@) =~= tool_texts(tools@.subrange(0, 0)));
        while i < tools.len()
            invariant
                i <= tools@.len(),
                texts(serialized@) == tool_texts(tools@.subrange(0, i as int)),
            decreases tools@.len() - i,
        {
            let ghost before = texts(serialized@);
            assert(tools@.subrange(0, i + 1).drop_last() =~= tools@.subrange(0, i as int));
            match compact_json(&tools[i]) {
                Ok(t) => {
                    serialized.push(t);
                    assert(texts(serialized@) =~= before.push(t@));
                },
                Err(_) => {},
            }
            i = i + 1;
        }
        assert(tools@.subrange(0, i as int) =~= tools@);
        let sorted = sort_texts(&serialized);
        let joined = join_texts(&sorted, "\n");
        let tools = md5_hex(joined.as_str().as_bytes());
        let mut both = system.clone();
        both.append(":");
        both.append(tools.as_str());
        let combined = md5_hex(both.as_str().as_bytes());
        proof {
            lemma_digest_parts(system@);
            lemma_digest_parts(tools@);
            lemma_digest_parts(combined@);
        }
        PrefixFingerprint { system, tools, combined }
    }

    /// The first twelve digits of the digest of both.
    pub fn short(&self) -> (r: &str)
        requires
            parts_at_12(self@.combined),
        ensures
            r@ == first12(self@.combined),
    {
        short12(self.combined.as_str())
    }

    /// The first twelve digits of the digest of the system prompt.
    pub fn system_short(&self) -> (r: &str)
        requires
            parts_at_12(self@.system),
        ensures
            r@ == first12(self@.system),
    {
        short12(self.system.as_str())
    }

    /// The first twelve digits of the digest of the tools.
    pub fn tools_short(&self) -> (r: &str)
        requires
            parts_at_12(self@.tools),
        ensures
            r@ == first12(self@.tools),
    {
        short12(self.tools.as_str())
    }

    /// The same fingerprint once more.
    pub fn duplicate(&self) -> (r: Self)
        ensures
            r@ == self@,
    {
        PrefixFingerprint {
            system: self.system.clone(),
            tools: self.tools.clone(),
            combined: self.combined.clone(),
        }
    }
}

/// A change of the prefix.
pub struct PrefixChange {
    pub old: PrefixFingerprint,
    pub new: PrefixFingerprint,
    pub system_changed: bool,
    pub tools_changed: bool,
}

/// A change as data.
pub struct ChangeModel {
    pub old: FingerprintModel,
    pub new: FingerprintModel,
    pub system_changed: bool,
    pub tools_changed: bool,
}

impl View for PrefixChange {
    type V = ChangeModel;

    open spec fn view(&self) -> ChangeModel {
        ChangeModel {
            old: self.old@,
            new: self.new@,
            system_changed: self.system_changed,
            tools_changed: self.tools_changed,
        }
    }
}

impl PrefixChange {
    /// What changed, in words.
    pub fn description(&self) -> (r: String)
        ensures
            r@ == if self.system_changed && self.tools_changed {
                "前缀缓存失效:"@ + "system prompt"@ + " 和 "@ + "工具集"@ + " 变了"@
            } else if self.system_changed {
                "前缀缓存失效:"@ + "system prompt"@ + " 变了"@
            } else if self.tools_changed {
                "前缀缓存失效:"@ + "工具集"@ + " 变了"@
            } else {
                "未知(指纹不一致但未定位到分量)"@
            },
    {
        if !self.system_changed && !self.tools_changed {
            return String::from_str("未知(指纹不一致但未定位到分量)");
        }
        let mut out = String::from_str("前缀缓存失效:");
        if self.system_changed {
            out.append("system prompt");
        }
        if self.system_changed && self.tools_changed {
            out.append(" 和 ");
        }
        if self.tools_changed {
            out.append("工具集");
        }
        out.append(" 变了");
        out
    }

    /// What changed, in short.
    pub fn label(&self) -> (r: &'static str)
        ensures
            r@ == if self.system_changed && self.tools_changed {
                "sys+tools"@
            } else if self.system_changed {
                "sys"@
            } else if self.tools_changed {
                "tools"@
            } else {
                "prefix"@
            },
    {
        if self.system_changed && self.tools_changed {
            "sys+tools"
        } else if self.system_changed {
            "sys"
        } else if self.tools_changed {
            "tools"
        } else {
            "prefix"
        }
    }

    /// The same change once more.
    pub fn duplicate(&self) -> (r: Self)
        ensures
            r@ == self@,
    {
        PrefixChange {
            old: self.old.duplicate(),
            new: self.new.duplicate(),
            system_changed: self.system_changed,
            tools_changed: self.tools_changed,
        }
    }
}

/// Watches the prefix from request to request.
pub struct PrefixStabilityManager {
    pinned: Option<PrefixFingerprint>,
    current: Option<PrefixFingerprint>,
    last_change: Option<PrefixChange>,
    change_count: u64,
    check_count: u64,
}

/// A watch as data.
pub struct WatchModel {
    pub pinned: Option<FingerprintModel>,
    pub current: Option<FingerprintModel>,
    pub last_change: Option<ChangeModel>,
    pub changes: nat,
    pub checks: nat,
}

pub open spec fn print_of(f: Option<PrefixFingerprint>) -> Option<FingerprintModel> {
    match f {
        Some(p) => Some(p@),
        None => None,
    }
}

pub open spec fn change_of(c: Option<PrefixChange>) -> Option<ChangeModel> {
    match c {
        Some(p) => Some(p@),
        None => None,
    }
}

impl View for PrefixStabilityManager {
    type V = WatchModel;

    closed spec fn view(&self) -> WatchModel {
        WatchModel {
            pinned: print_of(self.pinned),
            current: print_of(self.current),
            last_change: change_of(self.last_change),
            changes: self.change_count as nat,
            checks: self.check_count as nat,
        }
    }
}

/// The change that a check finds, if it finds one: the prefix differs from the
/// one that is pinned.
pub open spec fn drift(w: WatchModel, fp: FingerprintModel) -> Option<ChangeModel> {
    match w.pinned {
        None => None,
        Some(p) => if fp.combined == p.combined {
            None
        } else {
            Some(
                ChangeModel {
                    old: match w.current {
                        Some(c) => c,
                        None => p,
                    },
                    new: fp,
                    system_changed: fp.system != p.system,
                    tools_changed: fp.tools != p.tools,
                },
            )
        },
    }
}

/// The watch after a check.
pub open spec fn checked(w: WatchModel, fp: FingerprintModel) -> WatchModel {
    match drift(w, fp) {
        Some(c) => WatchModel {
            pinned: Some(fp),
            current: Some(fp),
            last_change: Some(c),
            changes: w.changes + 1,
            checks: w.checks + 1,
        },
        None => WatchModel {
            pinned: match w.pinned {
                Some(p) => Some(p),
                None => Some(fp),
            },
            current: Some(fp),
            last_change: match w.pinned {
                Some(p) => w.last_change,
                None => None,
            },
            checks: w.checks + 1,
            ..w
        },
    }
}

pub open spec fn none_or_shortens(fp: Option<FingerprintModel>) -> bool {
    match fp {
        Some(p) => shortens(p),
        None => true,
    }
}

/// There are never more changes than checks, and each fingerprint can be shown in
/// short.
pub open spec fn sound(w: WatchModel) -> bool {
    &&& w.changes <= w.checks
    &&& none_or_shortens(w.pinned)
    &&& none_or_shortens(w.current)
    &&& match w.last_change {
        Some(c) => shortens(c.old) && shortens(c.new),
        None => true,
    }
}

/// A prefix that stays the same is found stable from the second check on.
pub proof fn second_check_is_stable(w: WatchModel, fp: FingerprintModel)
    requires
        sound(w),
        shortens(fp),
    ensures
        drift(checked(w, fp), fp) is None,
        sound(checked(w, fp)),
{
}

impl Default for PrefixStabilityManager {
    fn default() -> (r: Self)
        ensures
            r@ == (WatchModel {
                pinned: None,
                current: None,
                last_change: None,
                changes: 0,
                checks: 0,
            }),
    {
        PrefixStabilityManager {
            pinned: None,
            current: None,
            last_change: None,
            change_count: 0,
            check_count: 0,
        }
    }
}

impl PrefixStabilityManager {
    /// A watch that has the given prefix pinned.
    pub fn new(system_text: &str, tools: &Vec<Json>) -> (r: Self)
        ensures
            ({
                let fp = fingerprint(system_text@, tool_texts(tools@));
                r@ == (WatchModel {
                    pinned: Some(fp),
                    current: Some(fp),
                    last_change: None,
                    changes: 0,
                    checks: 0,
                })
            }),
            sound(r@),
    {
        let fp = PrefixFingerprint::compute(system_text, tools);
        PrefixStabilityManager {
            pinned: Some(fp.duplicate()),
            current: Some(fp),
            last_change: None,
            change_count: 0,
            check_count: 0,
        }
    }

    /// A watch that pins the first prefix that it checks.
    pub fn new_unpinned() -> (r: Self)
        ensures
            r@ == (WatchModel {
                pinned: None,
                current: None,
                last_change: None,
                changes: 0,
                checks: 0,
            }),
    {
        PrefixStabilityManager::default()
    }

    /// Compares a prefix with the pinned one. A change is handed back, and the
    /// new prefix is pinned.
    pub fn check_and_update(&mut self, system_text: &str, tools: &Vec<Json>) -> (r: Result<
        bool,
        Box<PrefixChange>,
    >)
        requires
            sound(old(self)@),
            old(self)@.checks < u64::MAX,
        ensures
            ({
                let fp = fingerprint(system_text@, tool_texts(tools@));
                &&& final(self)@ == checked(old(self)@, fp)
                &&& match drift(old(self)@, fp) {
                    None => r matches Ok(b) && b,
                    Some(c) => r matches Err(p) && (*p)@ == c,
                }
            }),
            sound(final(self)@),
    {
        let fp = PrefixFingerprint::compute(system_text, tools);
        self.check_print(fp)
    }

    /// Compares a fingerprint with the pinned one, as `check_and_update` does
    /// with the prefix itself.
    pub fn check_print(&mut self, fp: PrefixFingerprint) -> (r: Result<bool, Box<PrefixChange>>)
        requires
            sound(old(self)@),
            shortens(fp@),
            old(self)@.checks < u64::MAX,
        ensures
            final(self)@ == checked(old(self)@, fp@),
            sound(final(self)@),
            match drift(old(self)@, fp@) {
                None => r matches Ok(b) && b,
                Some(c) => r matches Err(p) && (*p)@ == c,
            },
    {
        let pinned = match &self.pinned {
            Some(p) => p.duplicate(),
            None => {
                self.pinned = Some(fp.duplicate());
                self.current = Some(fp);
                self.check_count = self.check_count + 1;
                self.last_change = None;
                return Ok(true);
            },
        };
        let old_print = match &self.current {
            Some(c) => c.duplicate(),
            None => pinned.duplicate(),
        };
        self.check_count = self.check_count + 1;
        if same_text(fp.combined.as_str(), pinned.combined.as_str()) {
            self.current = Some(fp);
            return Ok(true);
        }
        let change = PrefixChange {
            old: old_print,
            new: fp.duplicate(),
            system_changed: !same_text(fp.system.as_str(), pinned.system.as_str()),
            tools_changed: !same_text(fp.tools.as_str(), pinned.tools.as_str()),
        };
        self.current = Some(fp.duplicate());
        self.last_change = Some(change.duplicate());
        self.change_count = self.change_count + 1;
        self.pinned = Some(fp);
        Err(Box::new(change))
    }

    /// The last change, if there was one.
    pub fn last_change(&self) -> (r: Option<&PrefixChange>)
        ensures
            match r {
                Some(c) => self@.last_change == Some(c@),
                None => self@.last_change is None,
            },
    {
        self.last_change.as_ref()
    }

    /// What a prefix is compared with, once there is one.
    pub fn pinned_fingerprint(&self) -> (r: Option<&PrefixFingerprint>)
        ensures
            match r {
                Some(p) => self@.pinned == Some(p@),
                None => self@.pinned is None,
            },
    {
        self.pinned.as_ref()
    }

    /// The fingerprint of the last prefix that was seen.
    pub fn current_fingerprint(&self) -> (r: Option<&PrefixFingerprint>)
        ensures
            match r {
                Some(p) => self@.current == Some(p@),
                None => self@.current is None,
            },
    {
        self.current.as_ref()
    }

    /// How many checks found a change.
    pub fn change_count(&self) -> (r: u64)
        ensures
            r == self@.changes,
    {
        self.change_count
    }

    /// How many checks there were.
    pub fn check_count(&self) -> (r: u64)
        ensures
            r == self@.checks,
    {
        self.check_count
    }
}

/// Each digest is of its own part: that of the prompt does not depend on the tools,
/// nor that of the tools on the prompt, and that of both is made of the two.
pub proof fn digests_go_by_their_parts(
    a: Seq<char>,
    b: Seq<char>,
    t: Seq<Seq<char>>,
    u: Seq<Seq<char>>,
)
    ensures
        fingerprint(a, t).system == md5_digest(encode_utf8(a)),
        fingerprint(a, t).system == fingerprint(a, u).system,
        fingerprint(a, t).tools == fingerprint(b, t).tools,
        t.len() == 1 ==> fingerprint(a, t).tools == md5_digest(encode_utf8(t[0])),
        t.len() == 0 ==> fingerprint(a, t).tools == md5_digest(Seq::empty()),
        fingerprint(a, t).combined == md5_digest(
            encode_utf8(fingerprint(a, t).system + ":"@ + fingerprint(a, t).tools),
        ),
{
    if t.len() == 1 {
        sorting_sorts(t);
        broadcast use vstd::seq_lib::group_to_multiset_ensures;

        let s = sorted_texts(t);
        assert(s.to_multiset() == t.to_multiset());
        assert(s.len() == 1);
        assert(s.contains(s[0]));
        assert(t.to_multiset().count(s[0]) > 0);
        assert(t.contains(s[0]));
        assert(s =~= seq![t[0]]);
        joining_one(t[0], "\n"@);
    }
    if t.len() == 0 {
        sorting_sorts(t);
        assert(sorted_texts(t).len() == 0);
        assert(tools_text(t) =~= Seq::empty());
        assert(encode_utf8(Seq::<char>::empty()) =~= Seq::empty());
    }
}

proof fn joining_one(t: Seq<char>, sep: Seq<char>)
    ensures
        join(seq![t], sep) == t,
{
    reveal_with_fuel(join, 3);
    assert(join(seq![t], sep) =~= t);
}

/// Every tool that can be written counts, each once and in its order.
pub proof fn every_tool_counts(tools: Seq<Json>, tool: Json)
    ensures
        tool_texts(Seq::empty()).len() == 0,
        compact(tool@) is Ok ==> tool_texts(tools.push(tool)) == tool_texts(tools).push(
            compact(tool@)->Ok_0,
        ),
        compact(tool@) is Err ==> tool_texts(tools.push(tool)) == tool_texts(tools),
{
    assert(tools.push(tool).drop_last() =~= tools);
}

/// In short a digest is shown by its first twelve digits.
pub proof fn digests_are_shown_by_twelve_digits(s: Seq<char>)
    requires
        s.len() == 32,
        forall|i: int| 0 <= i < s.len() ==> is_hex(#[trigger] s[i]),
    ensures
        first12(s) == s.subrange(0, 12),
{
    let t = s.subrange(0, 12);
    assert(is_ascii_chars(s));
    assert(is_ascii_chars(t)) by {
        assert forall|i: int| 0 <= i < t.len() implies is_hex(#[trigger] t[i]) by {
            assert(t[i] == s[i]);
        }
    }
    is_ascii_chars_encode_utf8(s);
    is_ascii_chars_encode_utf8(t);
    encode_utf8_decode_utf8(t);
    let b = encode_utf8(s).subrange(0, 12);
    assert forall|i: int| 0 <= i < 12 implies b[i] == encode_utf8(t)[i] by {
        assert(encode_utf8(s)[i] == s[i] as u8);
        assert(encode_utf8(t)[i] == t[i] as u8);
    }
    assert(b =~= encode_utf8(t));
}

/// A change is found if and only if something is pinned and the digest of both parts
/// is another. It says which part changed, and from then on the new prefix is pinned.
/// Every check is counted, and every change.
pub proof fn changes_are_found_and_counted(w: WatchModel, fp: FingerprintModel)
    ensures
        drift(w, fp) is Some <==> w.pinned is Some && w.pinned->0.combined != fp.combined,
        drift(w, fp) is Some ==> {
            let c = drift(w, fp)->0;
            &&& c.new == fp
            &&& c.system_changed <==> w.pinned->0.system != fp.system
            &&& c.tools_changed <==> w.pinned->0.tools != fp.tools
            &&& w.current is Some ==> c.old == w.current->0
            &&& checked(w, fp).pinned == Some(fp)
            &&& checked(w, fp).last_change == Some(c)
            &&& checked(w, fp).changes == w.changes + 1
        },
        drift(w, fp) is None ==> checked(w, fp).changes == w.changes,
        drift(w, fp) is None && w.pinned is Some ==> checked(w, fp).pinned == w.pinned && checked(
            w,
            fp,
        ).last_change == w.last_change,
        w.pinned is None ==> checked(w, fp).pinned == Some(fp),
        checked(w, fp).current == Some(fp),
        checked(w, fp).checks == w.checks + 1,
{
}

} // verus!
