//! Four caps on one conversation with tools: on the rounds, on repeated calls,
//! on the time, and on the tokens spent on reasoning.
use vstd::prelude::*;
use crate::json::Json;
use crate::local_kb::hash::{query_hash, query_key};
use crate::settings::Settings;
use crate::text::{cat3, decimal, decimal_text, same_text};

verus! {

/// Which cap was hit.
pub enum LoopGuardViolation {
    IterCapExceeded { max: u32 },
    DuplicateToolCall { tool: String },
    DurationCapExceeded { limit_secs: u64 },
    ReasoningTokenCapExceeded { limit: u64 },
}

impl LoopGuardViolation {
    /// What is said of the cap.
    pub open spec fn text(self) -> Seq<char> {
        match self {
            LoopGuardViolation::IterCapExceeded { max } => "超过本会话最大轮数(max="@ + decimal(
                max as nat,
            ) + ")"@,
            LoopGuardViolation::DuplicateToolCall { tool } => "LLM 反复调同一工具 + 同参数:tool="@
                + tool@ + ",循环模式拦下"@,
            LoopGuardViolation::DurationCapExceeded { limit_secs } => "本会话总耗时超 "@ + decimal(
                limit_secs as nat,
            ) + "s,可能后端慢或卡死,提前 abort"@,
            LoopGuardViolation::ReasoningTokenCapExceeded { limit } => "reasoning token 累计超 "@
                + decimal(limit as nat) + ",thinking 模型可能跑飞"@,
        }
    }

    /// What is said of the cap.
    pub fn message(&self) -> (r: String)
        ensures
            r@ == self.text(),
    {
        match self {
            LoopGuardViolation::IterCapExceeded { max } => {
                let n = decimal_text(*max as u128);
                cat3("超过本会话最大轮数(max=", n.as_str(), ")")
            },
            LoopGuardViolation::DuplicateToolCall { tool } => cat3(
                "LLM 反复调同一工具 + 同参数:tool=",
                tool.as_str(),
                ",循环模式拦下",
            ),
            LoopGuardViolation::DurationCapExceeded { limit_secs } => {
                let n = decimal_text(*limit_secs as u128);
                cat3("本会话总耗时超 ", n.as_str(), "s,可能后端慢或卡死,提前 abort")
            },
            LoopGuardViolation::ReasoningTokenCapExceeded { limit } => {
                let n = decimal_text(*limit as u128);
                cat3("reasoning token 累计超 ", n.as_str(), ",thinking 模型可能跑飞")
            },
        }
    }
}

/// The caps of one conversation and how far they are used up.
pub struct LoopGuard {
    iter_count: u32,
    max_iters: u32,
    seen_tool_args: Vec<(String, String)>,
    max_duration_secs: u64,
    reasoning_tokens: u64,
    max_reasoning_tokens: u64,
}

/// A guard as data.
pub struct GuardModel {
    pub rounds: nat,
    pub max_rounds: nat,
    /// The calls that were made: the tool, and the key of its arguments.
    pub calls: Set<(Seq<char>, Seq<char>)>,
    pub max_secs: nat,
    pub tokens: nat,
    pub max_tokens: nat,
}

spec fn calls_of(v: Seq<(String, String)>) -> Set<(Seq<char>, Seq<char>)> {
    Set::new(|c: (Seq<char>, Seq<char>)| exists|i: int|
        0 <= i < v.len() && (#[trigger] v[i]).0@ == c.0 && v[i].1@ == c.1)
}

impl View for LoopGuard {
    type V = GuardModel;

    closed spec fn view(&self) -> GuardModel {
        GuardModel {
            rounds: self.iter_count as nat,
            max_rounds: self.max_iters as nat,
            calls: calls_of(self.seen_tool_args@),
            max_secs: self.max_duration_secs as nat,
            tokens: self.reasoning_tokens as nat,
            max_tokens: self.max_reasoning_tokens as nat,
        }
    }
}

impl LoopGuard {
    /// Rounds are counted no further than their cap, and no call is remembered
    /// twice.
    pub closed spec fn wf(self) -> bool {
        &&& self.iter_count <= self.max_iters
        &&& forall|i: int, j: int|
            0 <= i < j < self.seen_tool_args@.len() ==> {
                ||| (#[trigger] self.seen_tool_args@[i]).0@ != (
                #[trigger] self.seen_tool_args@[j]).0@
                ||| self.seen_tool_args@[i].1@ != self.seen_tool_args@[j].1@
            }
    }

    /// A guard for a new conversation. Rounds are capped by the settings, at
    /// sixteen if nothing is set, the time at five minutes and the tokens at
    /// 64000.
    pub fn from_settings(s: &Settings) -> (r: Self)
        ensures
            r.wf(),
            r@ == (GuardModel {
                rounds: 0,
                max_rounds: match s.chat_loop_max_iters {
                    Some(n) => n as nat,
                    None => 16,
                },
                calls: Set::empty(),
                max_secs: 300,
                tokens: 0,
                max_tokens: 64_000,
            }),
    {
        let max_iters: u32 = match s.chat_loop_max_iters {
            Some(n) => n,
            None => 16,
        };
        let r = LoopGuard {
            iter_count: 0,
            max_iters,
            seen_tool_args: Vec::new(),
            max_duration_secs: 300,
            reasoning_tokens: 0,
            max_reasoning_tokens: 64_000,
        };
        assert(r@.calls =~= Set::empty());
        r
    }

    /// How many rounds were begun.
    pub fn iter_count(&self) -> (r: u32)
        requires
            self.wf(),
        ensures
            r == self@.rounds,
            r <= self@.max_rounds,
    {
        self.iter_count
    }

    /// Begins a round, unless as many were begun as there may be.
    pub fn check_iter_cap(&mut self) -> (r: Result<(), LoopGuardViolation>)
        requires
            old(self).wf(),
        ensures
            final(self).wf(),
            if old(self)@.rounds < old(self)@.max_rounds {
                r is Ok && final(self)@ == (GuardModel {
                    rounds: old(self)@.rounds + 1,
                    ..old(self)@
                })
            } else {
                r matches Err(LoopGuardViolation::IterCapExceeded { max }) && max == old(
                    self,
                )@.max_rounds && final(self)@ == old(self)@
            },
    {
        if self.iter_count >= self.max_iters {
            return Err(LoopGuardViolation::IterCapExceeded { max: self.max_iters });
        }
        self.iter_count = self.iter_count + 1;
        Ok(())
    }

    /// Lets a call of a tool pass if there was none of the same tool with the
    /// same arguments, and remembers it.
    pub fn check_duplicate_tool_call(&mut self, tool: &str, args: &Json) -> (r: Result<
        (),
        LoopGuardViolation,
    >)
        requires
            old(self).wf(),
        ensures
            final(self).wf(),
            ({
                let call = (tool@, query_key(""@, args@));
                if old(self)@.calls.contains(call) {
                    r matches Err(LoopGuardViolation::DuplicateToolCall { tool: t }) && t@ == tool@
                        && final(self)@ == old(self)@
                } else {
                    r is Ok && final(self)@ == (GuardModel {
                        calls: old(self)@.calls.insert(call),
                        ..old(self)@
                    })
                }
            }),
    {
        let key = query_hash("", args);
        let ghost call = (tool@, key@);
        let mut i: usize = 0;
        while i < self.seen_tool_args.len()
            invariant
                i <= self.seen_tool_args@.len(),
                self.wf(),
                *self == *old(self),
                call == (tool@, key@),
                key@ == query_key(""@, args@),
                forall|k: int|
                    0 <= k < i ==> (#[trigger] self.seen_tool_args@[k]).0@ != tool@
                        || self.seen_tool_args@[k].1@ != key@,
            decreases self.seen_tool_args@.len() - i,
        {
            let known = &self.seen_tool_args[i];
            if same_text(known.0.as_str(), tool) && same_text(known.1.as_str(), key.as_str()) {
                assert(self@.calls.contains(call));
                return Err(
                    LoopGuardViolation::DuplicateToolCall { tool: String::from_str(tool) },
                );
            }
            i = i + 1;
        }
        let ghost before = self.seen_tool_args@;
        assert(!self@.calls.contains(call));
        self.seen_tool_args.push((String::from_str(tool), key));
        assert(calls_of(self.seen_tool_args@) =~= calls_of(before).insert(call)) by {
            let after = self.seen_tool_args@;
            assert(after[before.len() as int].0@ == call.0);
            assert forall|c: (Seq<char>, Seq<char>)| calls_of(before).contains(c) implies calls_of(
                after,
            ).contains(c) by {
                let k = choose|k: int|
                    0 <= k < before.len() && (#[trigger] before[k]).0@ == c.0 && before[k].1@
                        == c.1;
                assert(after[k].0@ == c.0 && after[k].1@ == c.1);
            }
            assert forall|c: (Seq<char>, Seq<char>)| calls_of(after).contains(c) implies calls_of(
                before,
            ).insert(call).contains(c) by {
                let k = choose|k: int|
                    0 <= k < after.len() && (#[trigger] after[k]).0@ == c.0 && after[k].1@ == c.1;
                if k < before.len() {
                    assert(before[k].0@ == c.0 && before[k].1@ == c.1);
                }
            }
        }
        Ok(())
    }

    /// Whether the conversation, which took `elapsed_nanos` so far, is still
    /// within its time.
    pub fn check_duration_cap(&self, elapsed_nanos: u128) -> (r: Result<(), LoopGuardViolation>)
        ensures
            if elapsed_nanos > self@.max_secs * 1_000_000_000 {
                r matches Err(LoopGuardViolation::DurationCapExceeded { limit_secs }) && limit_secs
                    == self@.max_secs
            } else {
                r is Ok
            },
    {
        let limit: u128 = self.max_duration_secs as u128 * 1_000_000_000;
        if elapsed_nanos > limit {
            return Err(
                LoopGuardViolation::DurationCapExceeded { limit_secs: self.max_duration_secs },
            );
        }
        Ok(())
    }

    /// Adds tokens that were spent on reasoning, and fails once there are more
    /// than there may be. The count stops at the greatest number it can hold.
    pub fn add_reasoning_tokens(&mut self, n: u64) -> (r: Result<(), LoopGuardViolation>)
        requires
            old(self).wf(),
        ensures
            final(self).wf(),
            ({
                let sum = old(self)@.tokens + n;
                let tokens = if sum > u64::MAX {
                    u64::MAX as nat
                } else {
                    sum as nat
                };
                &&& final(self)@ == (GuardModel { tokens, ..old(self)@ })
                &&& if tokens > old(self)@.max_tokens {
                    r matches Err(LoopGuardViolation::ReasoningTokenCapExceeded { limit }) && limit
                        == old(self)@.max_tokens
                } else {
                    r is Ok
                }
            }),
    {
        let sum: u64 = if n > u64::MAX - self.reasoning_tokens {
            u64::MAX
        } else {
            self.reasoning_tokens + n
        };
        self.reasoning_tokens = sum;
        if self.reasoning_tokens > self.max_reasoning_tokens {
            return Err(
                LoopGuardViolation::ReasoningTokenCapExceeded { limit: self.max_reasoning_tokens },
            );
        }
        Ok(())
    }
}

} // verus!
